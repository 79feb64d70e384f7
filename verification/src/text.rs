//! Characters, strings and decimal numbers.
//!
//! A string is modelled by its sequence of characters.  The functions here are
//! the few string operations that the rest of the library needs, each proved
//! against a direct statement over that sequence.

use vstd::prelude::*;

verus! {

/// `String::push` appends the given character to the end of the string.
pub assume_specification[ String::push ](s: &mut String, c: char)
    ensures
        final(s)@ == old(s)@.push(c),
;

/// The characters of `s`, in order.
pub fn chars_of(s: &str) -> (out: Vec<char>)
    ensures
        out@ == s@,
{
    let mut out: Vec<char> = Vec::new();
    for c in it: s.chars()
        invariant
            out@ == it.seq().take(it.index() as int),
            it.seq() == s@,
    {
        out.push(c);
    }
    out
}

/// The string made of the characters of `chars[from..to]`.
pub fn string_of(chars: &Vec<char>, from: usize, to: usize) -> (out: String)
    requires
        from <= to <= chars@.len(),
    ensures
        out@ == chars@.subrange(from as int, to as int),
{
    let mut out = String::new();
    let mut i: usize = from;
    while i < to
        invariant
            from <= i <= to <= chars@.len(),
            out@ == chars@.subrange(from as int, i as int),
        decreases to - i,
    {
        out.push(chars[i]);
        i = i + 1;
    }
    out
}

/// Whether two strings hold the same characters.
pub fn same(a: &str, b: &str) -> (r: bool)
    ensures
        r == (a@ == b@),
{
    a.to_owned() == b.to_owned()
}

/// The contents of a list of strings.
pub open spec fn texts(v: Seq<String>) -> Seq<Seq<char>> {
    Seq::new(v.len(), |i: int| v[i]@)
}

/// Adding a string to a list adds its characters to the list's contents.
pub proof fn lemma_texts_push(v: Seq<String>, s: String)
    ensures
        texts(v.push(s)) == texts(v).push(s@),
{
    assert(texts(v.push(s)) =~= texts(v).push(s@));
}

/// A copy of `v`.
pub fn copy_strings(v: &Vec<String>) -> (out: Vec<String>)
    ensures
        out@ == v@,
{
    let mut out: Vec<String> = Vec::new();
    let mut i: usize = 0;
    while i < v.len()
        invariant
            i <= v@.len(),
            out@ == v@.take(i as int),
        decreases v@.len() - i,
    {
        out.push(v[i].clone());
        assert(v@.take(i as int).push(v@[i as int]) =~= v@.take(i + 1));
        i = i + 1;
    }
    assert(v@.take(i as int) =~= v@);
    out
}

/// The concatenation of two strings.
pub fn concat2(a: &str, b: &str) -> (out: String)
    ensures
        out@ == a@ + b@,
{
    let mut out = a.to_owned();
    out.append(b);
    out
}

/// The concatenation of three strings.
pub fn concat3(a: &str, b: &str, c: &str) -> (out: String)
    ensures
        out@ == a@ + b@ + c@,
{
    let mut out = a.to_owned();
    out.append(b);
    out.append(c);
    out
}

// ---------------------------------------------------------------------------
// Decimal numbers
// ---------------------------------------------------------------------------

/// The character of the decimal digit `d`.
pub open spec fn digit_char(d: nat) -> char {
    ('0' as nat + d) as char
}

/// Whether `c` is an ASCII decimal digit.
pub open spec fn is_digit(c: char) -> bool {
    '0' <= c <= '9'
}

/// The shortest decimal notation of `n`.
pub open spec fn decimal(n: nat) -> Seq<char>
    decreases n,
{
    if n < 10 {
        seq![digit_char(n)]
    } else {
        decimal(n / 10).push(digit_char(n % 10))
    }
}

/// Every character of `s` is a digit.
pub open spec fn all_digits(s: Seq<char>) -> bool {
    forall|i: int| 0 <= i < s.len() ==> is_digit(#[trigger] s[i])
}

/// The number that a sequence of digits denotes.
pub open spec fn digits_value(s: Seq<char>) -> nat
    decreases s.len(),
{
    if s.len() == 0 {
        0
    } else {
        (digits_value(s.drop_last()) * 10 + (s.last() as nat - '0' as nat)) as nat
    }
}

/// `s` without a leading plus sign.
pub open spec fn unsigned_digits(s: Seq<char>) -> Seq<char> {
    if s.len() > 0 && s[0] == '+' {
        s.skip(1)
    } else {
        s
    }
}

/// The unsigned number that `s` denotes: an optional plus sign and at least one
/// digit, with a value of at most `max`.
pub open spec fn parsed_unsigned(s: Seq<char>, max: nat) -> Option<nat> {
    let d = unsigned_digits(s);
    if d.len() > 0 && all_digits(d) && digits_value(d) <= max {
        Some(digits_value(d))
    } else {
        None
    }
}

/// A decimal notation is a non-empty run of digits that denotes its number.
pub proof fn lemma_decimal(n: nat)
    ensures
        decimal(n).len() > 0,
        all_digits(decimal(n)),
        digits_value(decimal(n)) == n,
    decreases n,
{
    if n < 10 {
        let s = decimal(n);
        assert(s.drop_last() =~= Seq::<char>::empty());
        assert(digits_value(s.drop_last()) == 0);
    } else {
        lemma_decimal(n / 10);
        let s = decimal(n);
        assert(s.drop_last() =~= decimal(n / 10));
        assert(s.last() == digit_char(n % 10));
        assert forall|i: int| 0 <= i < s.len() implies is_digit(#[trigger] s[i]) by {
            if i < s.len() - 1 {
                assert(s[i] == decimal(n / 10)[i]);
            }
        }
    }
}

/// Reading back what [`decimal`] wrote gives the number again.
pub proof fn decimal_round_trip(n: nat, max: nat)
    requires
        n <= max,
    ensures
        parsed_unsigned(decimal(n), max) == Some(n),
{
    lemma_decimal(n);
    assert(is_digit(decimal(n)[0]));
}

/// Different numbers have different decimal notations.
pub proof fn decimal_injective(a: nat, b: nat)
    requires
        decimal(a) == decimal(b),
    ensures
        a == b,
{
    lemma_decimal(a);
    lemma_decimal(b);
}

/// A prefix of a digit sequence denotes no larger a number.
proof fn lemma_value_prefix(s: Seq<char>, k: int)
    requires
        all_digits(s),
        0 <= k <= s.len(),
    ensures
        digits_value(s.take(k)) <= digits_value(s),
    decreases s.len() - k,
{
    if k == s.len() {
        assert(s.take(k) =~= s);
    } else {
        lemma_value_prefix(s, k + 1);
        assert(s.take(k + 1).drop_last() =~= s.take(k));
        assert(is_digit(s[k]));
    }
}

fn digit_of(d: u8) -> (c: char)
    requires
        d < 10,
    ensures
        c == digit_char(d as nat),
{
    let v: u8 = 48 + d;
    v as char
}

/// The shortest decimal notation of `n`.
pub fn decimal_of(n: u64) -> (out: String)
    ensures
        out@ == decimal(n as nat),
    decreases n,
{
    let last: u64 = n % 10;
    let c = digit_of(last as u8);
    if n < 10 {
        let mut out = String::new();
        out.push(c);
        assert(out@ =~= seq![digit_char(n as nat)]);
        out
    } else {
        let mut out = decimal_of(n / 10);
        out.push(c);
        out
    }
}

/// The unsigned number that `s` denotes, if it denotes one that is at most
/// `max`.
pub fn parse_unsigned(s: &str, max: u64) -> (r: Option<u64>)
    ensures
        match r {
            Some(v) => parsed_unsigned(s@, max as nat) == Some(v as nat),
            None => parsed_unsigned(s@, max as nat) is None,
        },
{
    let chars = chars_of(s);
    let mut i: usize = 0;
    if chars.len() > 0 && chars[0] == '+' {
        i = 1;
    }
    let ghost start = i as int;
    let ghost d = unsigned_digits(s@);
    assert(d =~= s@.skip(start));
    if i >= chars.len() {
        return None;
    }
    let mut value: u64 = 0;
    assert(d.take(0) =~= Seq::<char>::empty());
    while i < chars.len()
        invariant
            chars@ == s@,
            start <= i <= chars@.len(),
            d == s@.skip(start),
            0 <= start,
            d == unsigned_digits(s@),
            all_digits(d.take(i - start)),
            value as nat == digits_value(d.take(i - start)),
            value <= max,
        decreases chars@.len() - i,
    {
        let c = chars[i];
        assert(d[i - start] == c);
        assert(d.take(i - start + 1).drop_last() =~= d.take(i - start));
        assert(d.take(i - start + 1).last() == c);
        if c < '0' || c > '9' {
            assert(!all_digits(d)) by {
                if all_digits(d) {
                    assert(is_digit(d[i - start]));
                }
            }
            return None;
        }
        let v: u64 = (c as u64) - ('0' as u64);
        proof {
            assert forall|j: int| 0 <= j < i - start + 1 implies is_digit(
                #[trigger] d.take(i - start + 1)[j],
            ) by {
                if j < i - start {
                    assert(d.take(i - start)[j] == d[j]);
                }
            }
        }
        if v > max || value > (max - v) / 10 {
            proof {
                if all_digits(d) {
                    lemma_value_prefix(d, i - start + 1);
                }
            }
            return None;
        }
        value = value * 10 + v;
        i = i + 1;
    }
    assert(d.take(i - start) =~= d);
    Some(value)
}

// ---------------------------------------------------------------------------
// Searching
// ---------------------------------------------------------------------------

/// `needle` stands in `s` at position `at`.
pub open spec fn occurs_at(s: Seq<char>, needle: Seq<char>, at: int) -> bool {
    0 <= at && at + needle.len() <= s.len() && s.subrange(at, at + needle.len()) == needle
}

/// `needle` stands somewhere in `s`.
pub open spec fn occurs(s: Seq<char>, needle: Seq<char>) -> bool {
    exists|at: int| occurs_at(s, needle, at)
}

/// `s` begins with `prefix`.
pub open spec fn begins_with(s: Seq<char>, prefix: Seq<char>) -> bool {
    occurs_at(s, prefix, 0)
}

/// `s` ends with `suffix`.
pub open spec fn finishes_with(s: Seq<char>, suffix: Seq<char>) -> bool {
    occurs_at(s, suffix, s.len() - suffix.len())
}

/// Whether `needle` stands in `s` at position `at`.
pub fn matches_at(s: &Vec<char>, needle: &Vec<char>, at: usize) -> (r: bool)
    ensures
        r == occurs_at(s@, needle@, at as int),
{
    if at > s.len() || needle.len() > s.len() - at {
        return false;
    }
    let mut i: usize = 0;
    while i < needle.len()
        invariant
            i <= needle@.len(),
            at + needle@.len() <= s@.len() <= usize::MAX,
            forall|j: int| 0 <= j < i ==> s@[at + j] == needle@[j],
        decreases needle@.len() - i,
    {
        if s[at + i] != needle[i] {
            assert(s@.subrange(at as int, at + needle@.len())[i as int] != needle@[i as int]);
            return false;
        }
        i = i + 1;
    }
    assert(s@.subrange(at as int, at + needle@.len()) =~= needle@);
    true
}

/// Whether `s` begins with `prefix`.
pub fn starts_with(s: &str, prefix: &str) -> (r: bool)
    ensures
        r == begins_with(s@, prefix@),
{
    matches_at(&chars_of(s), &chars_of(prefix), 0)
}

/// Whether `s` ends with `suffix`.
pub fn ends_with(s: &str, suffix: &str) -> (r: bool)
    ensures
        r == finishes_with(s@, suffix@),
{
    let a = chars_of(s);
    let b = chars_of(suffix);
    if b.len() > a.len() {
        return false;
    }
    matches_at(&a, &b, a.len() - b.len())
}

/// What follows `prefix` in `s`, if `s` begins with it.
pub fn strip_prefix(s: &str, prefix: &str) -> (r: Option<String>)
    ensures
        match r {
            Some(rest) => begins_with(s@, prefix@) && rest@ == s@.skip(prefix@.len() as int),
            None => !begins_with(s@, prefix@),
        },
{
    let a = chars_of(s);
    let b = chars_of(prefix);
    if matches_at(&a, &b, 0) {
        let rest = string_of(&a, b.len(), a.len());
        assert(rest@ =~= s@.skip(prefix@.len() as int));
        Some(rest)
    } else {
        None
    }
}

/// Whether `needle` stands somewhere in `s`.
pub fn contains(s: &str, needle: &str) -> (r: bool)
    ensures
        r == occurs(s@, needle@),
{
    let a = chars_of(s);
    let b = chars_of(needle);
    let mut at: usize = 0;
    while at < a.len()
        invariant
            a@ == s@,
            b@ == needle@,
            at <= a@.len(),
            forall|j: int| 0 <= j < at ==> !occurs_at(s@, needle@, j),
        decreases a@.len() - at,
    {
        if matches_at(&a, &b, at) {
            return true;
        }
        at = at + 1;
    }
    matches_at(&a, &b, at)
}

/// The position of the last `c` in `s`.
pub open spec fn last_index(s: Seq<char>, c: char) -> Option<int>
    decreases s.len(),
{
    if s.len() == 0 {
        None
    } else if s.last() == c {
        Some(s.len() - 1)
    } else {
        last_index(s.drop_last(), c)
    }
}

/// The position of the last `c` in `s`.
pub fn find_last(s: &Vec<char>, c: char) -> (r: Option<usize>)
    ensures
        match r {
            Some(i) => last_index(s@, c) == Some(i as int) && i < s@.len() && s@[i as int] == c,
            None => last_index(s@, c) is None && !s@.contains(c),
        },
{
    let mut n: usize = s.len();
    assert(s@.take(n as int) =~= s@);
    while n > 0
        invariant
            n <= s@.len(),
            last_index(s@, c) == last_index(s@.take(n as int), c),
            forall|j: int| n <= j < s@.len() ==> s@[j] != c,
        decreases n,
    {
        assert(s@.take(n as int).drop_last() =~= s@.take(n - 1));
        assert(s@.take(n as int).last() == s@[n - 1]);
        if s[n - 1] == c {
            return Some(n - 1);
        }
        n = n - 1;
    }
    None
}

// ---------------------------------------------------------------------------
// Splitting
// ---------------------------------------------------------------------------

/// The position of the first `c` at or behind `from`, or the length of `s`.
pub open spec fn first_index(s: Seq<char>, c: char, from: int) -> int
    decreases s.len() - from,
{
    if from >= s.len() {
        s.len() as int
    } else if s[from] == c {
        from
    } else {
        first_index(s, c, from + 1)
    }
}

pub proof fn lemma_first_index(s: Seq<char>, c: char, from: int)
    requires
        0 <= from <= s.len(),
    ensures
        from <= first_index(s, c, from) <= s.len(),
        forall|j: int| from <= j < first_index(s, c, from) ==> s[j] != c,
        first_index(s, c, from) < s.len() ==> s[first_index(s, c, from)] == c,
    decreases s.len() - from,
{
    if from < s.len() && s[from] != c {
        lemma_first_index(s, c, from + 1);
    }
}

/// The position of the first `c` at or behind `from`, or the length of `s`.
pub fn find_from(s: &Vec<char>, c: char, from: usize) -> (r: usize)
    requires
        from <= s@.len(),
    ensures
        r == first_index(s@, c, from as int),
        from <= r <= s@.len(),
        r < s@.len() ==> s@[r as int] == c,
{
    let mut i: usize = from;
    while i < s.len() && s[i] != c
        invariant
            from <= i <= s@.len(),
            first_index(s@, c, from as int) == first_index(s@, c, i as int),
        decreases s@.len() - i,
    {
        i = i + 1;
    }
    i
}

/// The pieces of `s` between the separators `c`, from `from` on: one more piece
/// than there are separators.
pub open spec fn pieces_from(s: Seq<char>, c: char, from: int) -> Seq<Seq<char>>
    decreases s.len() - from,
{
    let k = first_index(s, c, from);
    if 0 <= from <= k < s.len() {
        seq![s.subrange(from, k)] + pieces_from(s, c, k + 1)
    } else {
        seq![s.skip(from)]
    }
}

/// The pieces of `s` between the separators `c`.
pub open spec fn pieces(s: Seq<char>, c: char) -> Seq<Seq<char>> {
    pieces_from(s, c, 0)
}

/// Split `s` at every `c`.
pub fn split_on(s: &str, c: char) -> (out: Vec<String>)
    ensures
        texts(out@) == pieces(s@, c),
        out@.len() > 0,
{
    let a = chars_of(s);
    let mut out: Vec<String> = Vec::new();
    let mut from: usize = 0;
    assert(texts(out@) + pieces_from(s@, c, 0) =~= pieces(s@, c));
    loop
        invariant
            a@ == s@,
            from <= a@.len(),
            texts(out@) + pieces_from(s@, c, from as int) == pieces(s@, c),
        decreases a@.len() - from,
    {
        let k = find_from(&a, c, from);
        let piece = string_of(&a, from, k);
        let ghost before = out@;
        proof {
            lemma_texts_push(before, piece);
        }
        out.push(piece);
        if k >= a.len() {
            assert(s@.subrange(from as int, k as int) =~= s@.skip(from as int));
            assert(texts(out@) =~= texts(before) + seq![s@.skip(from as int)]);
            return out;
        }
        assert(texts(before) + (seq![s@.subrange(from as int, k as int)] + pieces_from(
            s@,
            c,
            k + 1,
        )) =~= texts(out@) + pieces_from(s@, c, k + 1));
        from = k + 1;
    }
}

proof fn lemma_first_index_prefix(s: Seq<char>, t: Seq<char>, c: char, from: int)
    requires
        0 <= from <= s.len(),
    ensures
        first_index(s.push(c) + t, c, from) == first_index(s, c, from),
    decreases s.len() - from,
{
    let u = s.push(c) + t;
    if from < s.len() {
        assert(u[from] == s[from]);
        if s[from] != c {
            lemma_first_index_prefix(s, t, c, from + 1);
        }
    } else {
        assert(u[from] == c);
    }
}

proof fn lemma_pieces_push(s: Seq<char>, t: Seq<char>, c: char, from: int)
    requires
        0 <= from <= s.len(),
        !t.contains(c),
    ensures
        pieces_from(s.push(c) + t, c, from) == pieces_from(s, c, from).push(t),
    decreases s.len() - from,
{
    let u = s.push(c) + t;
    let k = first_index(s, c, from);
    lemma_first_index(s, c, from);
    lemma_first_index_prefix(s, t, c, from);
    if k < s.len() {
        lemma_pieces_push(s, t, c, k + 1);
        assert(u.subrange(from, k) =~= s.subrange(from, k));
        assert((seq![s.subrange(from, k)] + pieces_from(s, c, k + 1)).push(t) =~= seq![
            s.subrange(from, k),
        ] + pieces_from(s, c, k + 1).push(t));
    } else {
        assert(u.subrange(from, k) =~= s.skip(from));
        assert(u.skip(k + 1) =~= t);
        lemma_no_separator(u, t, c, k + 1);
        assert(seq![s.skip(from)] + seq![t] =~= seq![s.skip(from)].push(t));
    }
}

proof fn lemma_no_separator(u: Seq<char>, t: Seq<char>, c: char, from: int)
    requires
        0 <= from <= u.len(),
        u.skip(from) == t,
        !t.contains(c),
    ensures
        pieces_from(u, c, from) == seq![t],
{
    lemma_first_index(u, c, from);
    let k = first_index(u, c, from);
    if k < u.len() {
        assert(t[k - from] == c);
    }
}

/// Joining strings that are free of the separator, and splitting the result,
/// gives the strings again.
pub proof fn split_undoes_join(parts: Seq<Seq<char>>, c: char)
    requires
        parts.len() > 0,
        forall|i: int| 0 <= i < parts.len() ==> !(#[trigger] parts[i]).contains(c),
    ensures
        pieces(joined(parts, seq![c]), c) == parts,
    decreases parts.len(),
{
    if parts.len() == 1 {
        assert(parts[0].skip(0) =~= parts[0]);
        lemma_no_separator(parts[0], parts[0], c, 0);
        assert(seq![parts[0]] =~= parts);
    } else {
        let front = parts.drop_last();
        assert forall|i: int| 0 <= i < front.len() implies !(#[trigger] front[i]).contains(c) by {
            assert(front[i] == parts[i]);
        }
        split_undoes_join(front, c);
        let s = joined(front, seq![c]);
        assert(!parts[parts.len() - 1].contains(c));
        lemma_pieces_push(s, parts.last(), c, 0);
        assert(s + seq![c] + parts.last() =~= s.push(c) + parts.last());
        assert(front.push(parts.last()) =~= parts);
    }
}

/// The pieces between separators are free of the separator.
pub proof fn lemma_pieces_are_free(s: Seq<char>, c: char, from: int)
    requires
        0 <= from <= s.len(),
    ensures
        pieces_from(s, c, from).len() > 0,
        forall|i: int|
            0 <= i < pieces_from(s, c, from).len() ==> !(#[trigger] pieces_from(
                s,
                c,
                from,
            )[i]).contains(c),
    decreases s.len() - from,
{
    let k = first_index(s, c, from);
    lemma_first_index(s, c, from);
    if k < s.len() {
        lemma_pieces_are_free(s, c, k + 1);
        let rest = pieces_from(s, c, k + 1);
        assert forall|i: int| 0 <= i < pieces_from(s, c, from).len() implies !(
        #[trigger] pieces_from(s, c, from)[i]).contains(c) by {
            if i > 0 {
                assert(pieces_from(s, c, from)[i] == rest[i - 1]);
            } else {
                assert(pieces_from(s, c, from)[0] == s.subrange(from, k));
            }
        }
    } else {
        assert(pieces_from(s, c, from)[0] == s.skip(from));
    }
}

/// The last piece of `s` behind the last `c`, and what stands before that `c`.
pub fn split_last(s: &str, c: char) -> (r: Option<(String, String)>)
    ensures
        match (r, last_index(s@, c)) {
            (Some((before, behind)), Some(i)) => before@ == s@.take(i) && behind@ == s@.skip(i + 1),
            (None, None) => true,
            _ => false,
        },
{
    let a = chars_of(s);
    match find_last(&a, c) {
        Some(i) => {
            let n: usize = a.len();
            let before = string_of(&a, 0, i);
            let behind = string_of(&a, i + 1, n);
            assert(before@ =~= s@.take(i as int));
            assert(behind@ =~= s@.skip(i + 1));
            Some((before, behind))
        },
        None => None,
    }
}

/// The strings of `parts` with `sep` between each two of them.
pub open spec fn joined(parts: Seq<Seq<char>>, sep: Seq<char>) -> Seq<char>
    decreases parts.len(),
{
    if parts.len() == 0 {
        Seq::empty()
    } else if parts.len() == 1 {
        parts[0]
    } else {
        joined(parts.drop_last(), sep) + sep + parts.last()
    }
}

/// The strings of `parts` with `sep` between each two of them.
pub fn join(parts: &Vec<String>, sep: &str) -> (out: String)
    ensures
        out@ == joined(texts(parts@), sep@),
{
    let mut out = String::new();
    let mut i: usize = 0;
    let ghost all = texts(parts@);
    while i < parts.len()
        invariant
            i <= parts@.len(),
            all == texts(parts@),
            out@ == joined(all.take(i as int), sep@),
        decreases parts@.len() - i,
    {
        proof {
            assert(all.take(i + 1).drop_last() =~= all.take(i as int));
            assert(all.take(i + 1).last() == parts@[i as int]@);
        }
        if i > 0 {
            out.append(sep);
        }
        let ghost so_far = out@;
        out.append(parts[i].as_str());
        proof {
            if i == 0 {
                assert(out@ =~= parts@[0]@);
                assert(all.take(1)[0] == parts@[0]@);
            }
        }
        i = i + 1;
    }
    assert(all.take(i as int) =~= all);
    out
}

/// `s` with every occurrence of `from` replaced by `to`, from left to right.
pub open spec fn replaced(s: Seq<char>, from: Seq<char>, to: Seq<char>) -> Seq<char>
    decreases s.len(),
{
    if s.len() == 0 || from.len() == 0 {
        s
    } else if begins_with(s, from) {
        to + replaced(s.skip(from.len() as int), from, to)
    } else {
        seq![s[0]] + replaced(s.skip(1), from, to)
    }
}

/// `s` with every occurrence of `from` replaced by `to`, from left to right.
pub fn replace_all(s: &str, from: &str, to: &str) -> (out: String)
    requires
        from@.len() > 0,
    ensures
        out@ == replaced(s@, from@, to@),
{
    let a = chars_of(s);
    let b = chars_of(from);
    let mut out = String::new();
    let mut i: usize = 0;
    assert(s@.skip(0) =~= s@);
    assert(out@ + replaced(s@, from@, to@) =~= replaced(s@, from@, to@));
    while i < a.len()
        invariant
            a@ == s@,
            b@ == from@,
            b@.len() > 0,
            i <= a@.len(),
            out@ + replaced(s@.skip(i as int), from@, to@) == replaced(s@, from@, to@),
        decreases a@.len() - i,
    {
        let ghost rest = s@.skip(i as int);
        let ghost before = out@;
        let here = matches_at(&a, &b, i);
        proof {
            if occurs_at(s@, from@, i as int) {
                assert(rest.subrange(0, from@.len() as int) =~= s@.subrange(
                    i as int,
                    i + from@.len(),
                ));
            } else if begins_with(rest, from@) {
                assert(rest.subrange(0, from@.len() as int) =~= s@.subrange(
                    i as int,
                    i + from@.len(),
                ));
            }
            assert(here == begins_with(rest, from@));
        }
        if here {
            out.append(to);
            assert(rest.skip(from@.len() as int) =~= s@.skip(i + from@.len()));
            assert(before + (to@ + replaced(s@.skip(i + from@.len()), from@, to@)) =~= out@
                + replaced(s@.skip(i + from@.len()), from@, to@));
            i = i + b.len();
        } else {
            out.push(a[i]);
            assert(rest.skip(1) =~= s@.skip(i + 1));
            assert(before + (seq![rest[0]] + replaced(s@.skip(i + 1), from@, to@)) =~= out@
                + replaced(s@.skip(i + 1), from@, to@));
            i = i + 1;
        }
    }
    assert(s@.skip(i as int) =~= Seq::<char>::empty());
    assert(out@ + Seq::<char>::empty() =~= out@);
    out
}

// ---------------------------------------------------------------------------
// White space
// ---------------------------------------------------------------------------

/// The characters with the Unicode property `White_Space`.
pub open spec fn is_space(c: char) -> bool {
    let n = c as int;
    ||| 9 <= n <= 13
    ||| n == 0x20
    ||| n == 0x85
    ||| n == 0xA0
    ||| n == 0x1680
    ||| 0x2000 <= n <= 0x200A
    ||| n == 0x2028
    ||| n == 0x2029
    ||| n == 0x202F
    ||| n == 0x205F
    ||| n == 0x3000
}

/// Whether `c` has the Unicode property `White_Space`.
pub fn is_whitespace(c: char) -> (r: bool)
    ensures
        r == is_space(c),
{
    let n: u32 = c as u32;
    (9 <= n && n <= 13) || n == 0x20 || n == 0x85 || n == 0xA0 || n == 0x1680 || (0x2000 <= n && n
        <= 0x200A) || n == 0x2028 || n == 0x2029 || n == 0x202F || n == 0x205F || n == 0x3000
}

/// `s` holds nothing but white space.
pub open spec fn blank(s: Seq<char>) -> bool {
    forall|i: int| 0 <= i < s.len() ==> is_space(#[trigger] s[i])
}

/// Whether `s` holds nothing but white space.
pub fn is_blank(s: &str) -> (r: bool)
    ensures
        r == blank(s@),
{
    let a = chars_of(s);
    let mut i: usize = 0;
    while i < a.len()
        invariant
            a@ == s@,
            i <= a@.len(),
            forall|j: int| 0 <= j < i ==> is_space(#[trigger] s@[j]),
        decreases a@.len() - i,
    {
        if !is_whitespace(a[i]) {
            assert(!is_space(s@[i as int]));
            return false;
        }
        i = i + 1;
    }
    true
}

/// The first position at or behind `from` whose character is white space (or,
/// with `space` false, is not), or the length of `s`.
pub open spec fn run_end(s: Seq<char>, space: bool, from: int) -> int
    decreases s.len() - from,
{
    if from >= s.len() || is_space(s[from]) == space {
        from
    } else {
        run_end(s, space, from + 1)
    }
}

proof fn lemma_run_end(s: Seq<char>, space: bool, from: int)
    requires
        0 <= from <= s.len(),
    ensures
        from <= run_end(s, space, from) <= s.len(),
        run_end(s, space, from) < s.len() ==> is_space(s[run_end(s, space, from)]) == space,
    decreases s.len() - from,
{
    if from < s.len() && is_space(s[from]) != space {
        lemma_run_end(s, space, from + 1);
    }
}

fn end_of_run(s: &Vec<char>, space: bool, from: usize) -> (r: usize)
    requires
        from <= s@.len(),
    ensures
        r == run_end(s@, space, from as int),
        from <= r <= s@.len(),
{
    let mut i: usize = from;
    while i < s.len() && is_whitespace(s[i]) != space
        invariant
            from <= i <= s@.len(),
            run_end(s@, space, from as int) == run_end(s@, space, i as int),
        decreases s@.len() - i,
    {
        i = i + 1;
    }
    i
}

/// The maximal runs of characters other than white space, from `from` on.
pub open spec fn words_from(s: Seq<char>, from: int) -> Seq<Seq<char>>
    decreases s.len() - from,
{
    let start = run_end(s, false, from);
    let end = run_end(s, true, start);
    if 0 <= from <= start < end <= s.len() {
        seq![s.subrange(start, end)] + words_from(s, end)
    } else {
        Seq::empty()
    }
}

/// The maximal runs of characters other than white space.
pub open spec fn words(s: Seq<char>) -> Seq<Seq<char>> {
    words_from(s, 0)
}

/// Split `s` at its white space.
pub fn split_whitespace(s: &str) -> (out: Vec<String>)
    ensures
        texts(out@) == words(s@),
{
    let a = chars_of(s);
    let mut out: Vec<String> = Vec::new();
    let mut from: usize = 0;
    assert(texts(out@) + words_from(s@, 0) =~= words(s@));
    while from < a.len()
        invariant
            a@ == s@,
            from <= a@.len(),
            texts(out@) + words_from(s@, from as int) == words(s@),
        decreases a@.len() - from,
    {
        let start = end_of_run(&a, false, from);
        let end = end_of_run(&a, true, start);
        proof {
            lemma_run_end(s@, false, from as int);
            lemma_run_end(s@, true, start as int);
        }
        if start >= a.len() {
            assert(texts(out@) + Seq::<Seq<char>>::empty() =~= texts(out@));
            return out;
        }
        assert(!is_space(s@[start as int]));
        assert(start < end) by {
            reveal_with_fuel(run_end, 2);
        }
        let word = string_of(&a, start, end);
        let ghost before = out@;
        proof {
            lemma_texts_push(before, word);
        }
        out.push(word);
        assert(texts(before) + (seq![s@.subrange(start as int, end as int)] + words_from(
            s@,
            end as int,
        )) =~= texts(out@) + words_from(s@, end as int));
        from = end;
    }
    assert(words_from(s@, from as int) =~= Seq::<Seq<char>>::empty());
    assert(texts(out@) + Seq::<Seq<char>>::empty() =~= texts(out@));
    out
}

// ---------------------------------------------------------------------------
// Lines
// ---------------------------------------------------------------------------

/// A line without the carriage return that may end it.
pub open spec fn chomped(line: Seq<char>) -> Seq<char> {
    if line.len() > 0 && line.last() == '\r' {
        line.drop_last()
    } else {
        line
    }
}

/// The lines of `s` from `from` on.  A line feed, with or without a carriage
/// return before it, ends a line; the last line need not be ended.
pub open spec fn lines_from(s: Seq<char>, from: int) -> Seq<Seq<char>>
    decreases s.len() - from,
{
    let k = first_index(s, '\n', from);
    if from < 0 || from >= s.len() {
        Seq::empty()
    } else if from <= k < s.len() {
        seq![chomped(s.subrange(from, k))] + lines_from(s, k + 1)
    } else {
        seq![s.skip(from)]
    }
}

/// The lines of `s` that hold more than white space.
pub open spec fn text_lines(s: Seq<char>) -> Seq<Seq<char>> {
    lines_from(s, 0).filter(|line: Seq<char>| !blank(line))
}

/// The lines of `s` that hold more than white space.
pub fn nonblank_lines(s: &str) -> (out: Vec<String>)
    ensures
        texts(out@) == text_lines(s@),
{
    let a = chars_of(s);
    let mut out: Vec<String> = Vec::new();
    let mut from: usize = 0;
    let ghost keep = |line: Seq<char>| !blank(line);
    let ghost mut seen: Seq<Seq<char>> = Seq::empty();
    assert(seen + lines_from(s@, 0) =~= lines_from(s@, 0));
    proof {
        reveal(Seq::filter);
    }
    assert(texts(out@) =~= seen.filter(keep));
    while from < a.len()
        invariant
            a@ == s@,
            from <= a@.len(),
            keep == (|line: Seq<char>| !blank(line)),
            seen + lines_from(s@, from as int) == lines_from(s@, 0),
            texts(out@) == seen.filter(keep),
        decreases a@.len() - from,
    {
        let k = find_from(&a, '\n', from);
        let ghost before = out@;
        let ghost seen_before = seen;
        let line: String;
        let next: usize;
        if k < a.len() {
            let end: usize = if k > from && a[k - 1] == '\r' {
                k - 1
            } else {
                k
            };
            line = string_of(&a, from, end);
            next = k + 1;
            assert(line@ =~= chomped(s@.subrange(from as int, k as int)));
            assert(lines_from(s@, from as int) == seq![line@] + lines_from(s@, next as int));
        } else {
            line = string_of(&a, from, k);
            next = k;
            assert(line@ =~= s@.skip(from as int));
            assert(lines_from(s@, next as int) =~= Seq::<Seq<char>>::empty());
            assert(lines_from(s@, from as int) =~= seq![line@] + lines_from(s@, next as int));
        }
        proof {
            seen = seen_before.push(line@);
            assert(seen_before + (seq![line@] + lines_from(s@, next as int)) =~= seen + lines_from(
                s@,
                next as int,
            ));
            reveal(Seq::filter);
            assert(seen.drop_last() =~= seen_before);
            assert(seen.last() == line@);
            lemma_texts_push(before, line);
        }
        if !is_blank(line.as_str()) {
            out.push(line);
        }
        assert(texts(out@) =~= seen.filter(keep));
        from = next;
    }
    assert(seen + lines_from(s@, from as int) =~= seen);
    out
}

// ---------------------------------------------------------------------------
// Trimming
// ---------------------------------------------------------------------------

/// `s` without the white space at its ends.
pub open spec fn trimmed(s: Seq<char>) -> Seq<char>
    decreases s.len(),
{
    if s.len() > 0 && is_space(s[0]) {
        trimmed(s.skip(1))
    } else if s.len() > 0 && is_space(s.last()) {
        trimmed(s.drop_last())
    } else {
        s
    }
}

/// `s` without the white space at its ends.
pub fn trim(s: &str) -> (out: String)
    ensures
        out@ == trimmed(s@),
{
    let a = chars_of(s);
    let mut from: usize = 0;
    let mut to: usize = a.len();
    assert(s@.subrange(0, to as int) =~= s@);
    while from < to && is_whitespace(a[from])
        invariant
            a@ == s@,
            from <= to == a@.len(),
            trimmed(s@) == trimmed(s@.subrange(from as int, to as int)),
        decreases to - from,
    {
        assert(s@.subrange(from as int, to as int).skip(1) =~= s@.subrange(from + 1, to as int));
        from = from + 1;
    }
    while from < to && is_whitespace(a[to - 1])
        invariant
            a@ == s@,
            from <= to <= a@.len(),
            from < to ==> !is_space(a@[from as int]),
            trimmed(s@) == trimmed(s@.subrange(from as int, to as int)),
        decreases to - from,
    {
        assert(s@.subrange(from as int, to as int).drop_last() =~= s@.subrange(
            from as int,
            to - 1,
        ));
        to = to - 1;
    }
    string_of(&a, from, to)
}

// ---------------------------------------------------------------------------
// Order
// ---------------------------------------------------------------------------

/// `a` stands before `b` in the order of strings: by the first character in which they
/// differ, or because it is the beginning of `b`.
pub open spec fn precedes(a: Seq<char>, b: Seq<char>) -> bool
    decreases a.len(),
{
    if b.len() == 0 {
        false
    } else if a.len() == 0 {
        true
    } else if a[0] != b[0] {
        a[0] < b[0]
    } else {
        precedes(a.skip(1), b.skip(1))
    }
}

/// The order of strings is transitive.
pub proof fn precedes_is_transitive(a: Seq<char>, b: Seq<char>, c: Seq<char>)
    requires
        precedes(a, b),
        precedes(b, c),
    ensures
        precedes(a, c),
    decreases a.len(),
{
    if a.len() > 0 && b.len() > 0 && c.len() > 0 && a[0] == b[0] && b[0] == c[0] {
        precedes_is_transitive(a.skip(1), b.skip(1), c.skip(1));
    }
}

/// Two different strings stand in one order and not in the other.
pub proof fn precedes_is_total(a: Seq<char>, b: Seq<char>)
    ensures
        a != b ==> precedes(a, b) != precedes(b, a),
        a == b ==> !precedes(a, b),
    decreases a.len(),
{
    if a.len() > 0 && b.len() > 0 && a[0] == b[0] {
        precedes_is_total(a.skip(1), b.skip(1));
        if a.skip(1) == b.skip(1) {
            assert(a =~= seq![a[0]] + a.skip(1));
            assert(b =~= seq![b[0]] + b.skip(1));
        }
    } else if a.len() == 0 && b.len() == 0 {
        assert(a =~= b);
    }
}

/// Whether `a` stands before `b` in the order of strings.
pub fn comes_before(a: &str, b: &str) -> (r: bool)
    ensures
        r == precedes(a@, b@),
{
    let x = chars_of(a);
    let y = chars_of(b);
    let mut i: usize = 0;
    assert(a@.skip(0) =~= a@);
    assert(b@.skip(0) =~= b@);
    while i < x.len() && i < y.len() && x[i] == y[i]
        invariant
            x@ == a@,
            y@ == b@,
            i <= x@.len(),
            i <= y@.len(),
            precedes(a@, b@) == precedes(a@.skip(i as int), b@.skip(i as int)),
        decreases x@.len() - i,
    {
        proof {
            assert(a@.skip(i as int).skip(1) =~= a@.skip(i + 1));
            assert(b@.skip(i as int).skip(1) =~= b@.skip(i + 1));
        }
        i = i + 1;
    }
    if i >= y.len() {
        false
    } else if i >= x.len() {
        true
    } else {
        x[i] < y[i]
    }
}

/// The entries stand in the order of their names.
pub open spec fn in_order<T>(s: Seq<(String, T)>) -> bool {
    forall|i: int, j: int|
        #![trigger s[i], s[j]]
        0 <= i < j < s.len() ==> !precedes(s[j].0@, s[i].0@)
}

/// Put one more entry in its place.
fn put_in_order<T>(sorted: &mut Vec<(String, T)>, entry: (String, T))
    requires
        in_order(old(sorted)@),
    ensures
        in_order(final(sorted)@),
        final(sorted)@.to_multiset() == old(sorted)@.to_multiset().insert(entry),
{
    let mut p: usize = 0;
    while p < sorted.len() && !comes_before(entry.0.as_str(), sorted[p].0.as_str())
        invariant
            p <= sorted@.len(),
            sorted@ == old(sorted)@,
            forall|i: int| 0 <= i < p ==> !precedes(entry.0@, (#[trigger] sorted@[i]).0@),
        decreases sorted@.len() - p,
    {
        p = p + 1;
    }
    let ghost before = sorted@;
    sorted.insert(p, entry);
    proof {
        vstd::seq_lib::to_multiset_insert(before, p as int, entry);
        let after = sorted@;
        assert forall|i: int, j: int|
            #![trigger after[i], after[j]]
            0 <= i < j < after.len() implies !precedes(after[j].0@, after[i].0@) by {
            if i == p && precedes(after[j].0@, entry.0@) {
                assert(after[j] == before[j - 1]);
                precedes_is_transitive(after[j].0@, entry.0@, before[p as int].0@);
                if j - 1 > p {
                    assert(!precedes(before[j - 1].0@, before[p as int].0@));
                } else {
                    precedes_is_total(before[p as int].0@, before[p as int].0@);
                }
            } else if j == p {
                assert(after[i] == before[i]);
            } else if i != p {
                let a = if i < p {
                    i
                } else {
                    i - 1
                };
                let b = if j < p {
                    j
                } else {
                    j - 1
                };
                assert(after[i] == before[a] && after[j] == before[b]);
            }
        }
    }
}

/// The entries in the order of their names.
pub fn sort_by_name<T>(entries: Vec<(String, T)>) -> (sorted: Vec<(String, T)>)
    ensures
        in_order(sorted@),
        sorted@.to_multiset() == entries@.to_multiset(),
{
    let ghost all = entries@;
    let mut sorted: Vec<(String, T)> = Vec::new();
    proof {
        all.take(0).to_multiset_ensures();
        assert(all.take(0) =~= sorted@);
    }
    for entry in it: entries
        invariant
            it.seq() == all,
            in_order(sorted@),
            sorted@.to_multiset() == all.take(it.index() as int).to_multiset(),
    {
        let ghost n = it.index() as int;
        proof {
            all.take(n).to_multiset_ensures();
            assert(all.take(n).push(all[n]) =~= all.take(n + 1));
        }
        put_in_order(&mut sorted, entry);
    }
    assert(all.take(all.len() as int) =~= all);
    sorted
}

// ---------------------------------------------------------------------------
// Laws
// ---------------------------------------------------------------------------

/// The last place of a character holds it, and no later place does; where there is none,
/// the text is free of it.
pub proof fn the_last_index_is_last(s: Seq<char>, c: char)
    ensures
        match last_index(s, c) {
            Some(at) => {
                &&& 0 <= at < s.len()
                &&& s[at] == c
                &&& forall|j: int| at < j < s.len() ==> s[j] != c
            },
            None => !s.contains(c),
        },
    decreases s.len(),
{
    if s.len() > 0 && s.last() != c {
        let front = s.drop_last();
        the_last_index_is_last(front, c);
        match last_index(front, c) {
            Some(at) => {
                assert(s[at] == front[at]);
                assert forall|j: int| at < j < s.len() implies s[j] != c by {
                    if j < front.len() {
                        assert(front[j] == s[j]);
                    }
                }
            },
            None => {
                assert forall|j: int| 0 <= j < s.len() implies s[j] != c by {
                    if j < front.len() {
                        assert(front.contains(front[j]));
                    }
                }
            },
        }
    }
}

/// A number is written without leading zeros.
pub proof fn decimals_have_no_leading_zero(n: nat)
    requires
        n > 0,
    ensures
        decimal(n)[0] != '0',
    decreases n,
{
    if n >= 10 {
        decimals_have_no_leading_zero(n / 10);
        lemma_decimal(n / 10);
        assert(decimal(n)[0] == decimal(n / 10)[0]);
    }
}

/// Digits count by tens, a plus sign before them says nothing, and what is no digit, what
/// is empty and what is too large is no number.
pub proof fn digits_make_numbers(s: Seq<char>, c: char, max: nat)
    ensures
        is_digit(c) ==> digits_value(s.push(c)) == 10 * digits_value(s) + (c as nat - '0' as nat),
        all_digits(s) && s.len() > 0 ==> parsed_unsigned(seq!['+'] + s, max) == parsed_unsigned(
            s,
            max,
        ),
        all_digits(s) && s.len() > 0 && digits_value(s) <= max ==> parsed_unsigned(s, max)
            == Some(digits_value(s)),
        all_digits(s) && digits_value(s) > max ==> parsed_unsigned(s, max) is None,
        s.contains(c) && !is_digit(c) && c != '+' ==> parsed_unsigned(s, max) is None,
        s.len() == 0 ==> parsed_unsigned(s, max) is None,
{
    assert(s.push(c).drop_last() =~= s);
    let plus = seq!['+'] + s;
    assert(plus.skip(1) =~= s);
    if all_digits(s) && s.len() > 0 {
        assert(is_digit(s[0]));
        assert(plus[0] == '+');
        assert(unsigned_digits(plus) == s);
        assert(unsigned_digits(s) == s);
    }
    if s.contains(c) && !is_digit(c) && c != '+' {
        let k = choose|k: int| 0 <= k < s.len() && s[k] == c;
        let d = unsigned_digits(s);
        if s.len() > 0 && s[0] == '+' {
            assert(k > 0);
            assert(d[k - 1] == c);
        } else {
            assert(d[k] == c);
        }
    }
}

/// Strings that are joined stand one behind the other with the separator between them.
pub proof fn joining_keeps_the_order(a: Seq<Seq<char>>, b: Seq<Seq<char>>, sep: Seq<char>)
    requires
        a.len() > 0,
        b.len() > 0,
    ensures
        joined(a + b, sep) == joined(a, sep) + sep + joined(b, sep),
        a.len() == 1 ==> joined(a, sep) == a[0],
        joined(Seq::empty(), sep) == Seq::<char>::empty(),
    decreases b.len(),
{
    let all = a + b;
    assert(all.drop_last() =~= a + b.drop_last());
    assert(all.last() == b.last());
    if b.len() > 1 {
        joining_keeps_the_order(a, b.drop_last(), sep);
        assert(joined(all, sep) =~= joined(a, sep) + sep + joined(b, sep));
    } else {
        assert(all.drop_last() =~= a);
        assert(joined(all, sep) =~= joined(a, sep) + sep + joined(b, sep));
    }
}

/// Every string that is joined stands in the result.
pub proof fn joined_strings_occur(parts: Seq<Seq<char>>, sep: Seq<char>, i: int)
    requires
        0 <= i < parts.len(),
    ensures
        occurs(joined(parts, sep), parts[i]),
    decreases parts.len(),
{
    let all = joined(parts, sep);
    if parts.len() == 1 {
        assert(all.subrange(0, parts[0].len() as int) =~= parts[0]);
        assert(occurs_at(all, parts[i], 0));
    } else {
        let front = joined(parts.drop_last(), sep);
        if i == parts.len() - 1 {
            let at = front.len() + sep.len();
            assert(all.subrange(at as int, all.len() as int) =~= parts[i]);
            assert(occurs_at(all, parts[i], at as int));
        } else {
            joined_strings_occur(parts.drop_last(), sep, i);
            let at = choose|at: int| occurs_at(front, parts[i], at);
            assert(all.subrange(at, at + parts[i].len()) =~= front.subrange(
                at,
                at + parts[i].len(),
            ));
            assert(occurs_at(all, parts[i], at));
        }
    }
}

/// Joining the pieces between separators gives the text again.
pub proof fn join_undoes_split(s: Seq<char>, c: char)
    ensures
        joined(pieces(s, c), seq![c]) == s,
{
    lemma_join_pieces(s, c, 0);
    assert(s.skip(0) =~= s);
}

proof fn lemma_join_pieces(s: Seq<char>, c: char, from: int)
    requires
        0 <= from <= s.len(),
    ensures
        joined(pieces_from(s, c, from), seq![c]) == s.skip(from),
    decreases s.len() - from,
{
    lemma_first_index(s, c, from);
    let k = first_index(s, c, from);
    if k < s.len() {
        lemma_join_pieces(s, c, k + 1);
        lemma_pieces_are_free(s, c, k + 1);
        joining_keeps_the_order(seq![s.subrange(from, k)], pieces_from(s, c, k + 1), seq![c]);
        assert(s.skip(from) =~= s.subrange(from, k) + seq![c] + s.skip(k + 1));
    }
}

/// Nothing is replaced in a text in which nothing is to be replaced, and the leftmost
/// occurrence is replaced where there is one, and what stands behind it after that.
pub proof fn occurrences_are_replaced(s: Seq<char>, from: Seq<char>, to: Seq<char>, at: int)
    requires
        from.len() > 0,
        0 <= at <= s.len(),
        forall|j: int| 0 <= j < at ==> !occurs_at(s, from, j),
    ensures
        occurs_at(s, from, at) ==> replaced(s, from, to) == s.take(at) + to + replaced(
            s.skip(at + from.len()),
            from,
            to,
        ),
        at == s.len() ==> replaced(s, from, to) == s,
    decreases s.len(),
{
    if at == 0 {
        if occurs_at(s, from, 0) {
            assert(s.take(0) =~= Seq::<char>::empty());
            assert(s.take(0) + to =~= to);
        }
    } else {
        let rest = s.skip(1);
        assert(!occurs_at(s, from, 0));
        assert forall|j: int| 0 <= j < at - 1 implies !occurs_at(rest, from, j) by {
            if occurs_at(rest, from, j) {
                assert(s.subrange(j + 1, j + 1 + from.len()) =~= rest.subrange(
                    j,
                    j + from.len(),
                ));
                assert(occurs_at(s, from, j + 1));
            }
        }
        occurrences_are_replaced(rest, from, to, at - 1);
        assert(rest.take(at - 1) =~= s.take(at).skip(1));
        if occurs_at(s, from, at) {
            assert(rest.subrange(at - 1, at - 1 + from.len()) =~= s.subrange(
                at,
                at + from.len(),
            ));
            assert(rest.skip(at - 1 + from.len()) =~= s.skip(at + from.len()));
            assert(seq![s[0]] + (rest.take(at - 1) + to + replaced(
                s.skip(at + from.len()),
                from,
                to,
            )) =~= s.take(at) + to + replaced(s.skip(at + from.len()), from, to));
        }
        if at == s.len() {
            assert(seq![s[0]] + rest =~= s);
        }
    }
}

/// Blanks, tabs and ends of lines are white space; letters, digits and signs of ASCII are not.
pub proof fn blanks_are_space(c: char)
    ensures
        c == ' ' || c == '\t' || c == '\n' || c == '\r' ==> is_space(c),
        33 <= c as int <= 126 ==> !is_space(c),
        (c as int) < 9 || 14 <= (c as int) < 32 ==> !is_space(c),
        is_space(c) ==> (c as int) <= 0x3000,
{
}

/// The characters of a list of strings, one string behind the other.
pub open spec fn run_together(parts: Seq<Seq<char>>) -> Seq<char>
    decreases parts.len(),
{
    if parts.len() == 0 {
        Seq::empty()
    } else {
        run_together(parts.drop_last()) + parts.last()
    }
}

proof fn lemma_run_together(a: Seq<char>, rest: Seq<Seq<char>>)
    ensures
        run_together(seq![a] + rest) == a + run_together(rest),
    decreases rest.len(),
{
    let all = seq![a] + rest;
    if rest.len() == 0 {
        assert(all.drop_last() =~= Seq::<Seq<char>>::empty());
        assert(run_together(all.drop_last()) =~= Seq::<char>::empty());
        assert(all.last() == a);
        assert(run_together(all) =~= a + run_together(rest));
    } else {
        assert(all.drop_last() =~= seq![a] + rest.drop_last());
        assert(all.last() == rest.last());
        lemma_run_together(a, rest.drop_last());
        assert(run_together(all) =~= a + run_together(rest));
    }
}

proof fn lemma_run(s: Seq<char>, space: bool, from: int, j: int)
    requires
        0 <= from <= j < run_end(s, space, from),
        from <= s.len(),
    ensures
        j < s.len(),
        is_space(s[j]) != space,
    decreases s.len() - from,
{
    lemma_run_end(s, space, from);
    if from < j {
        lemma_run(s, space, from + 1, j);
    }
}

proof fn lemma_filter_all(s: Seq<char>, p: spec_fn(char) -> bool, keep: bool)
    requires
        forall|i: int| 0 <= i < s.len() ==> p(#[trigger] s[i]) == keep,
    ensures
        s.filter(p) == if keep {
            s
        } else {
            Seq::empty()
        },
    decreases s.len(),
{
    reveal(Seq::filter);
    if s.len() > 0 {
        assert(p(s[s.len() - 1]) == keep);
        lemma_filter_all(s.drop_last(), p, keep);
        assert(s =~= s.drop_last().push(s.last()));
    }
}

/// The words of a text hold its characters other than white space, all of them and in their
/// order.
pub proof fn words_hold_what_is_written(s: Seq<char>)
    ensures
        run_together(words(s)) == s.filter(|c: char| !is_space(c)),
{
    lemma_words(s, 0);
    assert(s.skip(0) =~= s);
}

proof fn lemma_words(s: Seq<char>, from: int)
    requires
        0 <= from <= s.len(),
    ensures
        run_together(words_from(s, from)) == s.skip(from).filter(|c: char| !is_space(c)),
        forall|i: int|
            0 <= i < words_from(s, from).len() ==> (#[trigger] words_from(s, from)[i]).len() > 0,
        forall|i: int, j: int|
            0 <= i < words_from(s, from).len() && 0 <= j < words_from(s, from)[i].len()
                ==> !is_space(#[trigger] words_from(s, from)[i][j]) && s.contains(
                words_from(s, from)[i][j],
            ),
    decreases s.len() - from,
{
    let solid = |c: char| !is_space(c);
    let start = run_end(s, false, from);
    lemma_run_end(s, false, from);
    let end = run_end(s, true, start);
    lemma_run_end(s, true, start);
    let gap = s.subrange(from, start);
    assert forall|i: int| 0 <= i < gap.len() implies solid(#[trigger] gap[i]) == false by {
        lemma_run(s, false, from, from + i);
    }
    lemma_filter_all(gap, solid, false);
    if start < s.len() {
        let word = s.subrange(start, end);
        assert(start < end);
        assert forall|i: int| 0 <= i < word.len() implies solid(#[trigger] word[i]) == true by {
            lemma_run(s, true, start, start + i);
        }
        assert forall|i: int| 0 <= i < word.len() implies s.contains(#[trigger] word[i]) by {
            assert(s[start + i] == word[i]);
        }
        lemma_filter_all(word, solid, true);
        lemma_words(s, end);
        assert(s.skip(from) =~= gap + (word + s.skip(end)));
        Seq::filter_distributes_over_add(gap, word + s.skip(end), solid);
        Seq::filter_distributes_over_add(word, s.skip(end), solid);
        lemma_run_together(word, words_from(s, end));
        let all = words_from(s, from);
        assert(all == seq![word] + words_from(s, end));
        assert(run_together(all) =~= s.skip(from).filter(solid));
        assert forall|i: int| 0 <= i < all.len() implies (#[trigger] all[i]).len() > 0 by {
            if i > 0 {
                assert(all[i] == words_from(s, end)[i - 1]);
            }
        }
        assert forall|i: int, j: int|
            0 <= i < all.len() && 0 <= j < all[i].len() implies !is_space(#[trigger] all[i][j])
            && s.contains(all[i][j]) by {
            if i > 0 {
                assert(all[i] == words_from(s, end)[i - 1]);
                assert(!is_space(words_from(s, end)[i - 1][j]));
            } else {
                assert(solid(word[j]));
            }
        }
    } else {
        assert(s.skip(from) =~= gap);
        assert(run_together(words_from(s, from)) =~= Seq::<char>::empty());
    }
}

/// No word is empty, none holds white space, and each character of a word stands in the text.
pub proof fn words_are_solid(s: Seq<char>, i: int)
    requires
        0 <= i < words(s).len(),
    ensures
        words(s)[i].len() > 0,
        forall|j: int|
            0 <= j < words(s)[i].len() ==> !is_space(#[trigger] words(s)[i][j]) && s.contains(
                words(s)[i][j],
            ),
{
    lemma_words(s, 0);
}

/// Words with blanks between them are the words of the text that they make.
pub proof fn words_undo_joining(parts: Seq<Seq<char>>)
    requires
        forall|i: int| 0 <= i < parts.len() ==> (#[trigger] parts[i]).len() > 0,
        forall|i: int, j: int|
            0 <= i < parts.len() && 0 <= j < parts[i].len() ==> !is_space(
                #[trigger] parts[i][j],
            ),
    ensures
        words(joined(parts, seq![' '])) == parts,
{
    let s = joined(parts, seq![' ']);
    if parts.len() > 0 {
        assert(s.skip(0) =~= s);
        lemma_words_of(s, parts, 0);
    } else {
        assert(words(s) =~= parts);
    }
}

proof fn lemma_run_to(s: Seq<char>, space: bool, from: int, to: int)
    requires
        0 <= from <= to <= s.len(),
        forall|j: int| from <= j < to ==> is_space(#[trigger] s[j]) != space,
        to < s.len() ==> is_space(s[to]) == space,
    ensures
        run_end(s, space, from) == to,
    decreases to - from,
{
    if from < to {
        assert(is_space(s[from]) != space);
        lemma_run_to(s, space, from + 1, to);
    }
}

proof fn lemma_words_of(s: Seq<char>, parts: Seq<Seq<char>>, from: int)
    requires
        0 <= from <= s.len(),
        parts.len() > 0,
        s.skip(from) == joined(parts, seq![' ']),
        forall|i: int| 0 <= i < parts.len() ==> (#[trigger] parts[i]).len() > 0,
        forall|i: int, j: int|
            0 <= i < parts.len() && 0 <= j < parts[i].len() ==> !is_space(
                #[trigger] parts[i][j],
            ),
    ensures
        words_from(s, from) == parts,
    decreases parts.len(),
{
    let word = parts[0];
    let rest = parts.skip(1);
    let end = from + word.len();
    if rest.len() > 0 {
        assert(parts =~= seq![word] + rest);
        joining_keeps_the_order(seq![word], rest, seq![' ']);
        assert(s.skip(from) == word + seq![' '] + joined(rest, seq![' ']));
        assert(s.skip(from)[word.len() as int] == ' ');
        assert(s[end as int] == ' ');
    } else {
        assert(s.skip(from) == word);
    }
    assert forall|j: int| from <= j < end implies !is_space(#[trigger] s[j]) by {
        assert(s.skip(from)[j - from] == word[j - from]);
        assert(!is_space(parts[0][j - from]));
    }
    assert(!is_space(s[from]));
    lemma_run_to(s, false, from, from);
    lemma_run_to(s, true, from, end as int);
    assert(s.subrange(from, end as int) =~= word) by {
        assert forall|j: int| 0 <= j < word.len() implies s[from + j] == word[j] by {
            assert(s.skip(from)[j] == word[j]);
        }
    }
    if rest.len() > 0 {
        assert(s.skip(end + 1) =~= joined(rest, seq![' '])) by {
            assert(s.skip(end + 1) =~= s.skip(from).skip((word.len() + 1) as int));
        }
        assert forall|i: int| 0 <= i < rest.len() implies (#[trigger] rest[i]).len() > 0 by {
            assert(rest[i] == parts[i + 1]);
        }
        assert forall|i: int, j: int|
            0 <= i < rest.len() && 0 <= j < rest[i].len() implies !is_space(
            #[trigger] rest[i][j],
        ) by {
            assert(!is_space(parts[i + 1][j]));
        }
        lemma_words_of(s, rest, end + 1);
        lemma_skip_space(s, end as int);
        assert(words_from(s, from) =~= parts);
    } else {
        assert(end == s.len());
        assert(words_from(s, end as int) =~= Seq::<Seq<char>>::empty());
        assert(words_from(s, from) =~= parts);
    }
}

proof fn lemma_skip_space(s: Seq<char>, from: int)
    requires
        0 <= from < s.len(),
        is_space(s[from]),
    ensures
        words_from(s, from) == words_from(s, from + 1),
{
    assert(run_end(s, false, from) == run_end(s, false, from + 1));
    lemma_run_end(s, false, from + 1);
    lemma_run_end(s, true, run_end(s, false, from));
}

/// Trimming takes away white space alone, from both ends, and leaves none there.
pub proof fn trimming_takes_the_ends(s: Seq<char>) -> (cut: (int, int))
    ensures
        0 <= cut.0 <= cut.1 <= s.len(),
        trimmed(s) == s.subrange(cut.0, cut.1),
        blank(s.take(cut.0)),
        blank(s.skip(cut.1)),
        trimmed(s).len() > 0 ==> !is_space(trimmed(s)[0]) && !is_space(trimmed(s).last()),
    decreases s.len(),
{
    if s.len() > 0 && is_space(s[0]) {
        let (a, b) = trimming_takes_the_ends(s.skip(1));
        assert(s.subrange(a + 1, b + 1) =~= s.skip(1).subrange(a, b));
        assert forall|i: int| 0 <= i < a + 1 implies is_space(#[trigger] s.take(a + 1)[i]) by {
            if i > 0 {
                assert(s.take(a + 1)[i] == s.skip(1).take(a)[i - 1]);
            }
        }
        assert(s.skip(b + 1) =~= s.skip(1).skip(b));
        (a + 1, b + 1)
    } else if s.len() > 0 && is_space(s.last()) {
        let front = s.drop_last();
        let (a, b) = trimming_takes_the_ends(front);
        assert(s.subrange(a, b) =~= front.subrange(a, b));
        assert(s.take(a) =~= front.take(a));
        assert forall|i: int| 0 <= i < s.skip(b).len() implies is_space(#[trigger] s.skip(b)[i]) by {
            if b + i < front.len() {
                assert(s.skip(b)[i] == front.skip(b)[i]);
            }
        }
        (a, b)
    } else {
        assert(s.subrange(0, s.len() as int) =~= s);
        (0, s.len() as int)
    }
}

/// The order of strings: the first character in which two of them differ decides, and the
/// beginning of a string stands before it.
pub proof fn strings_are_ordered(
    a: Seq<char>,
    c: char,
    d: char,
    x: Seq<char>,
    y: Seq<char>,
)
    ensures
        c != d ==> (precedes(a + (seq![c] + x), a + (seq![d] + y)) <==> (c as int) < (d as int)),
        precedes(a, a + (seq![c] + x)),
        !precedes(a + (seq![c] + x), a),
    decreases a.len(),
{
    let u = a + (seq![c] + x);
    let v = a + (seq![d] + y);
    if a.len() > 0 {
        strings_are_ordered(a.skip(1), c, d, x, y);
        assert(u.skip(1) =~= a.skip(1) + (seq![c] + x));
        assert(v.skip(1) =~= a.skip(1) + (seq![d] + y));
    }
}

/// Lines with line feeds between them are the lines of the text that they make, where none
/// is blank and none ends in a carriage return.
pub proof fn lines_undo_joining(parts: Seq<Seq<char>>)
    requires
        forall|i: int|
            0 <= i < parts.len() ==> !blank(#[trigger] parts[i]) && !parts[i].contains('\n')
                && parts[i].last() != '\r',
    ensures
        text_lines(joined(parts, seq!['\n'])) == parts,
{
    let s = joined(parts, seq!['\n']);
    let solid = |line: Seq<char>| !blank(line);
    if parts.len() > 0 {
        assert(s.skip(0) =~= s);
        lemma_lines_of(s, parts, 0);
    } else {
        assert(lines_from(s, 0) =~= parts);
    }
    lemma_filter_lines(parts, solid);
}

proof fn lemma_filter_lines(s: Seq<Seq<char>>, p: spec_fn(Seq<char>) -> bool)
    requires
        forall|i: int| 0 <= i < s.len() ==> p(#[trigger] s[i]),
    ensures
        s.filter(p) == s,
    decreases s.len(),
{
    reveal(Seq::filter);
    if s.len() > 0 {
        assert(p(s[s.len() - 1]));
        lemma_filter_lines(s.drop_last(), p);
        assert(s =~= s.drop_last().push(s.last()));
    }
}

proof fn lemma_lines_of(s: Seq<char>, parts: Seq<Seq<char>>, from: int)
    requires
        0 <= from <= s.len(),
        parts.len() > 0,
        s.skip(from) == joined(parts, seq!['\n']),
        forall|i: int|
            0 <= i < parts.len() ==> !blank(#[trigger] parts[i]) && !parts[i].contains('\n')
                && parts[i].last() != '\r',
    ensures
        lines_from(s, from) == parts,
    decreases parts.len(),
{
    let line = parts[0];
    let rest = parts.skip(1);
    let end = from + line.len();
    assert(!blank(parts[0]));
    if rest.len() > 0 {
        assert(parts =~= seq![line] + rest);
        joining_keeps_the_order(seq![line], rest, seq!['\n']);
        assert(s.skip(from) == line + seq!['\n'] + joined(rest, seq!['\n']));
        assert(s.skip(from)[line.len() as int] == '\n');
        assert(s[end as int] == '\n');
    } else {
        assert(s.skip(from) == line);
    }
    assert forall|j: int| from <= j < end implies s[j] != '\n' by {
        assert(s.skip(from)[j - from] == line[j - from]);
        assert(line.contains(line[j - from]));
    }
    lemma_first_index(s, '\n', from);
    assert(first_index(s, '\n', from) == end);
    if rest.len() > 0 {
        assert(s.subrange(from, end as int) =~= line) by {
            assert forall|j: int| 0 <= j < line.len() implies s[from + j] == line[j] by {
                assert(s.skip(from)[j] == line[j]);
            }
        }
        assert(s.skip(end + 1) =~= s.skip(from).skip((line.len() + 1) as int));
        assert(s.skip(end + 1) =~= joined(rest, seq!['\n']));
        assert forall|i: int| 0 <= i < rest.len() implies !blank(#[trigger] rest[i])
            && !rest[i].contains('\n') && rest[i].last() != '\r' by {
            assert(rest[i] == parts[i + 1]);
        }
        lemma_lines_of(s, rest, end + 1);
        assert(lines_from(s, from) =~= parts);
    } else {
        assert(lines_from(s, from) =~= parts);
    }
}

/// A line feed ends a line with a carriage return before it too.
pub proof fn carriage_returns_belong_to_the_end(line: Seq<char>)
    ensures
        chomped(line.push('\r')) == line,
        line.len() > 0 && line.last() != '\r' ==> chomped(line) == line,
{
    assert(line.push('\r').drop_last() =~= line);
}

/// The digits are the ten characters from `0` to `9`, and each stands for its number.
pub proof fn digits_stand_for_their_numbers(c: char, d: nat)
    requires
        d < 10,
    ensures
        is_digit(c) <==> 48 <= c as int <= 57,
        digit_char(d) as int == 48 + d,
        digits_value(seq![digit_char(d)]) == d,
        decimal(d) == seq![digit_char(d)],
{
    let none = Seq::<char>::empty();
    assert(digits_value(none) == 0);
    assert(seq![digit_char(d)].drop_last() =~= none);
}

/// A string stands in a text exactly where the text can be parted round it; it begins or
/// finishes a text where nothing stands before or behind it.
pub proof fn texts_are_parted_round_what_occurs(a: Seq<char>, needle: Seq<char>, b: Seq<char>, s: Seq<char>, at: int)
    ensures
        occurs_at(a + needle + b, needle, a.len() as int),
        occurs(a + needle + b, needle),
        begins_with(needle + b, needle),
        finishes_with(a + needle, needle),
        occurs_at(s, needle, at) ==> s == s.take(at) + needle + s.skip(at + needle.len()),
        begins_with(s, needle) ==> s == needle + s.skip(needle.len() as int),
        finishes_with(s, needle) ==> s == s.take(s.len() - needle.len()) + needle,
{
    let all = a + needle + b;
    let n = a.len() as int;
    assert(all.subrange(n, n + needle.len()) =~= needle);
    assert(occurs_at(all, needle, n));
    let front = needle + b;
    assert(front.subrange(0, needle.len() as int) =~= needle);
    let back = a + needle;
    assert(back.subrange(n, n + needle.len()) =~= needle);
    if occurs_at(s, needle, at) {
        assert(s =~= s.take(at) + needle + s.skip(at + needle.len())) by {
            assert forall|i: int| 0 <= i < needle.len() implies s[at + i] == needle[i] by {
                assert(s.subrange(at, at + needle.len())[i] == s[at + i]);
            }
        }
    }
    if begins_with(s, needle) {
        assert forall|i: int| 0 <= i < needle.len() implies s[i] == needle[i] by {
            assert(s.subrange(0, needle.len() as int)[i] == s[i]);
        }
        assert(s =~= needle + s.skip(needle.len() as int));
    }
    if finishes_with(s, needle) {
        let k = s.len() - needle.len();
        assert forall|i: int| 0 <= i < needle.len() implies s[k + i] == needle[i] by {
            assert(s.subrange(k, k + needle.len())[i] == s[k + i]);
        }
        assert(s =~= s.take(k) + needle);
    }
}

/// A text is blank where nothing stands in it but white space.
pub proof fn blank_texts_hold_white_space(s: Seq<char>, c: char)
    ensures
        blank(Seq::empty()),
        blank(s) && s.contains(c) ==> is_space(c),
        !blank(s) ==> exists|i: int| 0 <= i < s.len() && !is_space(#[trigger] s[i]),
        blank(s) ==> trimmed(s).len() == 0,
{
    if blank(s) {
        lemma_blank_trimmed(s);
    }
}

proof fn lemma_blank_trimmed(s: Seq<char>)
    requires
        blank(s),
    ensures
        trimmed(s).len() == 0,
    decreases s.len(),
{
    if s.len() > 0 {
        assert(is_space(s[0]));
        assert forall|i: int| 0 <= i < s.skip(1).len() implies is_space(#[trigger] s.skip(1)[i]) by {
            assert(is_space(s[i + 1]));
        }
        lemma_blank_trimmed(s.skip(1));
    }
}

} // verus!
