//! Nodes of the cluster.

use vstd::prelude::*;

use crate::text;

verus! {

/// What a node does in the cluster.
#[derive(Clone, Copy, Debug, PartialEq, Eq, Structural)]
pub enum NodeStatus {
    Leader,
    Follower,
    Offline,
}

/// Where a node listens.
#[derive(Debug)]
pub struct NodeAddress {
    pub host: String,
    pub port: u16,
}

impl NodeAddress {
    /// The address of `host` and `port`.
    pub fn new(host: &str, port: u16) -> (a: NodeAddress)
        ensures
            a.host@ == host@,
            a.port == port,
    {
        NodeAddress { host: host.to_owned(), port }
    }

    /// `host:port`.
    pub open spec fn spelled(self) -> Seq<char> {
        self.host@ + ":"@ + text::decimal(self.port as nat)
    }

    /// `host:port`.
    pub fn display(&self) -> (s: String)
        ensures
            s@ == self.spelled(),
    {
        let port = text::decimal_of(self.port as u64);
        text::concat3(self.host.as_str(), ":", port.as_str())
    }
}

impl Clone for NodeAddress {
    fn clone(&self) -> (r: Self)
        ensures
            r == *self,
    {
        NodeAddress { host: self.host.clone(), port: self.port }
    }
}

/// A node: its id, where it listens and what it does.
#[derive(Debug)]
pub struct NodeInfo {
    pub id: u64,
    pub address: NodeAddress,
    pub status: NodeStatus,
}

impl Clone for NodeInfo {
    fn clone(&self) -> (r: Self)
        ensures
            r == *self,
    {
        NodeInfo { id: self.id, address: self.address.clone(), status: self.status }
    }
}

/// A node's name: `node-` and its number.
pub open spec fn node_name(id: u64) -> Seq<char> {
    "node-"@ + text::decimal(id as nat)
}

/// A node's name: `node-` and its number.
pub fn name_of_node(id: u64) -> (s: String)
    ensures
        s@ == node_name(id),
{
    text::concat2("node-", text::decimal_of(id).as_str())
}

/// The port that an address without one has.
pub const DEFAULT_PORT: u16 = 9300;

/// The port that `s` denotes, or [`DEFAULT_PORT`].
pub open spec fn port_or_default(s: Seq<char>) -> u16 {
    match text::parsed_unsigned(s, 65535) {
        Some(p) => p as u16,
        None => DEFAULT_PORT,
    }
}

/// The port that `s` denotes, or [`DEFAULT_PORT`].
pub fn parse_port_or_default(s: &str) -> (p: u16)
    ensures
        p == port_or_default(s@),
{
    match text::parse_unsigned(s, 65535) {
        Some(p) => p as u16,
        None => DEFAULT_PORT,
    }
}

/// `a` is the address that a client means by `s`: host and port around the one
/// colon of `s`, or `s` itself as a host with the default port.
pub open spec fn client_address(a: NodeAddress, s: Seq<char>) -> bool {
    let parts = text::pieces(s, ':');
    if parts.len() == 2 {
        a.host@ == parts[0] && a.port == port_or_default(parts[1])
    } else {
        a.host@ == s && a.port == DEFAULT_PORT
    }
}

/// The address that a client means by `s`.
pub fn parse_client_address(s: &str) -> (a: NodeAddress)
    ensures
        client_address(a, s@),
{
    let parts = text::split_on(s, ':');
    if parts.len() == 2 {
        assert(text::texts(parts@)[0] == parts@[0]@);
        assert(text::texts(parts@)[1] == parts@[1]@);
        NodeAddress::new(parts[0].as_str(), parse_port_or_default(parts[1].as_str()))
    } else {
        NodeAddress::new(s, DEFAULT_PORT)
    }
}

/// `a` is the address that the cluster records as `s`: the last colon of `s`
/// parts host and port; without one `s` is a host with the default port.
pub open spec fn recorded_address(a: NodeAddress, s: Seq<char>) -> bool {
    match text::last_index(s, ':') {
        Some(i) => a.host@ == s.take(i) && a.port == port_or_default(s.skip(i + 1)),
        None => a.host@ == s && a.port == DEFAULT_PORT,
    }
}

/// The address that the cluster records as `s`.
pub fn parse_recorded_address(s: &str) -> (a: NodeAddress)
    ensures
        recorded_address(a, s@),
{
    match text::split_last(s, ':') {
        Some((host, port)) => NodeAddress::new(
            host.as_str(),
            parse_port_or_default(port.as_str()),
        ),
        None => NodeAddress::new(s, DEFAULT_PORT),
    }
}

/// `a` is the address of the peer that a command line names as `s`: the last
/// colon parts host and port, and the port is a number.
pub open spec fn peer_address(s: Seq<char>) -> Option<(Seq<char>, u16)> {
    match text::last_index(s, ':') {
        Some(i) => match text::parsed_unsigned(s.skip(i + 1), 65535) {
            Some(p) => Some((s.take(i), p as u16)),
            None => None,
        },
        None => None,
    }
}

/// The address of the peer that a command line names as `s`; `None` where it
/// names none.
pub fn parse_peer(s: &str) -> (r: Option<NodeAddress>)
    ensures
        match r {
            Some(a) => peer_address(s@) == Some((a.host@, a.port)),
            None => peer_address(s@) is None,
        },
{
    match text::split_last(s, ':') {
        Some((host, port)) => match text::parse_unsigned(port.as_str(), 65535) {
            Some(p) => Some(NodeAddress::new(host.as_str(), p as u16)),
            None => None,
        },
        None => None,
    }
}

/// An address reads back from what it is written as, whatever its host.
pub proof fn address_round_trip(a: NodeAddress)
    ensures
        recorded_address(a, a.spelled()),
        peer_address(a.spelled()) == Some((a.host@, a.port)),
{
    let d = text::decimal(a.port as nat);
    let s = a.spelled();
    reveal_strlit(":");
    text::lemma_decimal(a.port as nat);
    text::decimal_round_trip(a.port as nat, 65535);
    lemma_last_colon(s, a.host@.len() as int);
    assert(s.take(a.host@.len() as int) =~= a.host@);
    assert(s.skip((a.host@.len() + 1) as int) =~= d);
}

proof fn lemma_last_colon(s: Seq<char>, at: int)
    requires
        0 <= at < s.len(),
        s[at] == ':',
        forall|i: int| at < i < s.len() ==> text::is_digit(#[trigger] s[i]),
    ensures
        text::last_index(s, ':') == Some(at),
    decreases s.len(),
{
    if s.len() - 1 > at {
        assert(text::is_digit(s[s.len() - 1]));
        assert(s.last() != ':');
        lemma_last_colon(s.drop_last(), at);
    }
}

// ---------------------------------------------------------------------------
// Laws
// ---------------------------------------------------------------------------

/// What a client writes as host, colon and port is the address of that host and that port;
/// a host alone has the usual port.  No text means two addresses.
pub proof fn client_addresses_are_understood(a: NodeAddress, b: NodeAddress, s: Seq<char>)
    ensures
        !a.host@.contains(':') ==> client_address(a, a.spelled()),
        !a.host@.contains(':') && a.port == 9300 ==> client_address(a, a.host@),
        client_address(a, s) && client_address(b, s) ==> a.host@ == b.host@ && a.port == b.port,
{
    let digits = text::decimal(a.port as nat);
    text::lemma_decimal(a.port as nat);
    reveal_strlit(":");
    assert(":"@ =~= seq![':']);
    if !a.host@.contains(':') {
        let parts = seq![a.host@, digits];
        assert(!digits.contains(':')) by {
            if digits.contains(':') {
                let k = choose|k: int| 0 <= k < digits.len() && digits[k] == ':';
                assert(text::is_digit(digits[k]));
            }
        }
        assert forall|i: int| 0 <= i < parts.len() implies !(#[trigger] parts[i]).contains(':') by {
            assert(i == 0 || i == 1);
        }
        text::split_undoes_join(parts, ':');
        text::joining_keeps_the_order(seq![a.host@], seq![digits], seq![':']);
        text::joining_keeps_the_order(seq![digits], seq![digits], seq![':']);
        assert(seq![a.host@] + seq![digits] =~= parts);
        assert(text::joined(parts, seq![':']) =~= a.spelled());
        text::decimal_round_trip(a.port as nat, 65535);
        let one = seq![a.host@];
        assert forall|i: int| 0 <= i < one.len() implies !(#[trigger] one[i]).contains(':') by {
            assert(i == 0);
        }
        text::split_undoes_join(one, ':');
        assert(text::pieces(a.host@, ':') == one);
    }
}

/// A port is read from its digits; what is no number, and what no port can be, stands for
/// the usual one.
pub proof fn ports_are_read(n: nat, s: Seq<char>, c: char)
    ensures
        n <= 65535 ==> port_or_default(text::decimal(n)) == n,
        n > 65535 ==> port_or_default(text::decimal(n)) == 9300,
        s.len() == 0 ==> port_or_default(s) == 9300,
        s.contains(c) && !text::is_digit(c) && c != '+' ==> port_or_default(s) == 9300,
{
    text::lemma_decimal(n);
    text::digits_make_numbers(text::decimal(n), c, 65535);
    text::digits_make_numbers(s, c, 65535);
}

/// A record without a colon is a host with the usual port, and names no peer; neither does
/// one whose port is no number.
pub proof fn records_without_a_port(a: NodeAddress, s: Seq<char>, host: Seq<char>, c: char)
    ensures
        !s.contains(':') ==> (recorded_address(a, s) <==> a.host@ == s && a.port == 9300),
        !s.contains(':') ==> peer_address(s) is None,
        s.contains(c) && !text::is_digit(c) && c != '+' && !s.contains(':') ==> peer_address(
            host + seq![':'] + s,
        ) is None,
{
    text::the_last_index_is_last(s, ':');
    let whole = host + seq![':'] + s;
    text::the_last_index_is_last(whole, ':');
    if s.contains(c) && !text::is_digit(c) && c != '+' && !s.contains(':') {
        let at = host.len() as int;
        assert(whole[at] == ':');
        let last = text::last_index(whole, ':')->0;
        if last > at {
            assert(s[last - at - 1] == ':');
            assert(s.contains(':'));
        }
        assert(whole.contains(':')) by {
            assert(whole[at] == ':');
        }
        assert(last == at);
        assert(whole.skip(at + 1) =~= s);
        text::digits_make_numbers(s, c, 65535);
    }
}

/// Two nodes have different names.
pub proof fn node_names_differ(a: u64, b: u64)
    ensures
        text::begins_with(node_name(a), "node-"@),
        a != b ==> node_name(a) != node_name(b),
{
    let n = "node-"@.len() as int;
    assert(node_name(a).subrange(0, n) =~= "node-"@);
    assert(node_name(a).skip(n) =~= text::decimal(a as nat));
    assert(node_name(b).skip(n) =~= text::decimal(b as nat));
    if node_name(a) == node_name(b) {
        text::decimal_injective(a as nat, b as nat);
    }
}

} // verus!
