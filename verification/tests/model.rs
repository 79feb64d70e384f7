use msearchdb::clock::Span;
use msearchdb::json::Number;
use msearchdb::model::arrangement::{arrange, collapse, drop_up_to, fill_sort_values};
use msearchdb::model::cluster::{
    name_of_node, parse_client_address, parse_port_or_default, parse_recorded_address, NodeAddress,
    DEFAULT_PORT,
};
use msearchdb::model::consistency::ConsistencyLevel;
use msearchdb::model::document::{Document, FieldValue};
use msearchdb::model::error::DbError;
use msearchdb::model::mapping::{field_value_to_mapped_type, FieldMapping, MappedFieldType};
use msearchdb::model::query::{
    Query, Score, ScoredDocument, SortClause, SortOrder, SortValue, TermQuery,
};
use msearchdb::model::ranking::{paginate, sort_by_score};
use msearchdb::table::Table;
use msearchdb::text;

fn own(s: &str) -> String {
    s.to_owned()
}

// --- text -------------------------------------------------------------------------

#[test]
fn decimals_read_back() {
    for n in [0, 7, 10, 65_535, u64::MAX] {
        let s = text::decimal_of(n);
        assert_eq!(s, n.to_string());
        assert_eq!(text::parse_unsigned(&s, u64::MAX), Some(n));
    }
    assert_eq!(text::parse_unsigned("65536", 65_535), None);
    assert_eq!(text::parse_unsigned("", 9), None);
    assert_eq!(text::parse_unsigned("+5", 9), "+5".parse::<u64>().ok());
    assert_eq!(text::parse_unsigned("007", 9), Some(7));
    assert_eq!(text::parse_unsigned("-1", 9), None);
}

#[test]
fn splitting_undoes_joining() {
    let parts = vec![own("a"), own(""), own("ü")];
    let joined = text::join(&parts, "/");
    assert_eq!(joined, "a//ü");
    assert_eq!(text::split_on(&joined, '/'), parts);
    assert_eq!(text::split_on("", '/'), vec![""]);
    assert_eq!(text::split_last("a:b:c", ':'), Some((own("a:b"), own("c"))));
    assert_eq!(text::split_last("abc", ':'), None);
}

#[test]
fn strings_are_searched() {
    assert!(text::starts_with("/_nodes/1", "/_nodes/"));
    assert!(text::ends_with("a.json", ".json"));
    assert!(text::contains("not leader", "lead"));
    assert!(!text::contains("abc", "abd"));
    assert_eq!(text::strip_prefix("Bearer x", "Bearer "), Some(own("x")));
    assert_eq!(text::replace_all("<b>a</b><b>", "<b>", "*"), "*a</b>*");
    assert_eq!(text::replace_all("aaa", "aa", "b"), "aaa".replace("aa", "b"));
}

#[test]
fn white_space_is_what_std_says() {
    for c in [' ', '\t', '\n', '\u{85}', '\u{a0}', '\u{1680}', '\u{2003}', '\u{3000}', 'a', '\u{200b}'] {
        assert_eq!(text::is_whitespace(c), c.is_whitespace(), "{:?}", c);
    }
    let s = "  two\u{2003}words \n";
    assert_eq!(text::split_whitespace(s), s.split_whitespace().collect::<Vec<&str>>());
    assert_eq!(text::trim(s), s.trim());
    assert!(text::is_blank(" \n\t"));
    assert_eq!(text::nonblank_lines("a\n\n  \r\nb\r\n"), vec!["a", "b"]);
}

#[test]
fn names_are_put_in_order() {
    assert!(text::comes_before("a", "ab"));
    assert!(text::comes_before("Z", "a"));
    assert!(!text::comes_before("a", "a"));
    let sorted = text::sort_by_name(vec![(own("b"), 1), (own("a"), 2), (own("c"), 3)]);
    assert_eq!(sorted, vec![(own("a"), 2), (own("b"), 1), (own("c"), 3)]);
}

// --- tables -----------------------------------------------------------------------

#[test]
fn a_table_maps_keys_to_values() {
    let mut t: Table<String, u32> = Table::new();
    assert!(t.is_empty());
    t.insert(own("a"), 1);
    t.insert(own("b"), 2);
    t.insert(own("a"), 3);
    assert_eq!(t.len(), 2);
    assert_eq!(t.get(&own("a")), Some(&3));
    assert_eq!(t.get(&own("c")), None);
    assert_eq!(t.remove(&own("a")), Some(3));
    assert_eq!(t.remove(&own("a")), None);
    assert!(!t.contains_key(&own("a")));
    assert_eq!(t.entry(0), (&own("b"), &2));
    let mut more: Table<String, u32> = Table::new();
    more.insert(own("b"), 5);
    more.insert(own("c"), 6);
    t.absorb(more);
    assert_eq!((t.len(), t.get(&own("b")), t.get(&own("c"))), (2, Some(&5), Some(&6)));
}

// --- time -------------------------------------------------------------------------

#[test]
fn spans_count_nanoseconds() {
    assert_eq!(Span::from_secs(2).nanos, 2_000_000_000);
    assert_eq!(Span::from_millis(1_500).as_millis(), 1_500);
}

// --- addresses --------------------------------------------------------------------

#[test]
fn addresses_read_back() {
    let a = NodeAddress::new("10.0.0.2", 9301);
    assert_eq!(a.display(), "10.0.0.2:9301");
    let b = parse_recorded_address(&a.display());
    assert_eq!((b.host.as_str(), b.port), ("10.0.0.2", 9301));
    let v6 = parse_recorded_address("::1:9400");
    assert_eq!((v6.host.as_str(), v6.port), ("::1", 9400));
    let c = parse_client_address("::1:9400");
    assert_eq!((c.host.as_str(), c.port), ("::1:9400", DEFAULT_PORT));
    assert_eq!(parse_client_address("host").port, DEFAULT_PORT);
    assert_eq!(parse_port_or_default("no"), DEFAULT_PORT);
    assert_eq!(name_of_node(7), "node-7");
}

// --- consistency ------------------------------------------------------------------

#[test]
fn levels_have_names_and_numbers() {
    for level in [ConsistencyLevel::One, ConsistencyLevel::Quorum, ConsistencyLevel::All] {
        assert_eq!(ConsistencyLevel::from_str_param(&level.name()), level);
    }
    assert_eq!(ConsistencyLevel::from_param(&None), ConsistencyLevel::Quorum);
    assert_eq!(ConsistencyLevel::from_str_param("whatever"), ConsistencyLevel::Quorum);
    assert_eq!(ConsistencyLevel::Quorum.required_responses(3), 2);
    assert_eq!(ConsistencyLevel::All.required_responses(3), 3);
    assert_eq!(ConsistencyLevel::One.required_responses(3), 1);
}

// --- documents and mappings -------------------------------------------------------

#[test]
fn documents_hold_fields() {
    let mut d = Document::new("1").with_field("a", FieldValue::Boolean(true));
    d.set_field(own("a"), FieldValue::Text(own("x")));
    assert_eq!(d.fields.len(), 1);
    assert_eq!(d.get_field("a"), Some(&FieldValue::Text(own("x"))));
    let list = FieldValue::Array(vec![FieldValue::Boolean(false), FieldValue::Text(own("y"))]);
    assert_eq!(list.clone(), list);
    assert_eq!(field_value_to_mapped_type(&list), MappedFieldType::Array);
}

#[test]
fn a_field_keeps_its_type() {
    let mut m = FieldMapping::new();
    assert!(m.register_field("a", MappedFieldType::Text).is_ok());
    assert!(m.register_field("a", MappedFieldType::Text).is_ok());
    match m.register_field("a", MappedFieldType::Number) {
        Err(DbError::SchemaConflict { field, expected, got }) => {
            assert_eq!(field, "a");
            assert_eq!(expected, MappedFieldType::Text.name());
            assert_eq!(got, MappedFieldType::Number.name());
        }
        other => panic!("{:?}", other),
    }
    assert_eq!(m.field_count(), 1);
    assert_eq!(m.get_field_type("a"), Some(MappedFieldType::Text));
    assert_eq!(m.get_field_type("b"), None);
}

// --- scores -----------------------------------------------------------------------

fn scored(id: &str, score: f32) -> ScoredDocument {
    let score = Score { bits: score.to_bits() };
    ScoredDocument { document: Document::new(id), score, sort: Vec::new() }
}

#[test]
fn scores_order_as_numbers_do() {
    let values = [f32::NEG_INFINITY, -2.5, -0.0, 0.0, 1e-40, 0.1, 1.0, 3e38, f32::INFINITY];
    for a in values {
        for b in values {
            let (x, y) = (Score { bits: a.to_bits() }, Score { bits: b.to_bits() });
            assert_eq!(x.is_above(&y), a > b, "{} {}", a, b);
        }
        assert!(!Score { bits: a.to_bits() }.is_nan());
    }
    assert!(Score { bits: f32::NAN.to_bits() }.is_nan());
}

#[test]
fn ranking_is_stable_and_pages() {
    let mut docs = vec![scored("a", 1.0), scored("b", 2.0), scored("c", 1.0), scored("d", -1.0)];
    sort_by_score(&mut docs);
    let ids: Vec<String> = docs.iter().map(|d| d.document.id.clone()).collect();
    assert_eq!(ids, vec!["b", "a", "c", "d"]);
    let page = paginate(docs, 1, 2);
    let ids: Vec<String> = page.iter().map(|d| d.document.id.clone()).collect();
    assert_eq!(ids, vec!["a", "c"]);
    assert!(paginate(page, 9, 2).is_empty());
}

#[test]
fn results_are_arranged() {
    let value = |v: f64| SortValue::Number(Number { bits: v.to_bits() });
    let with = |id: &str, v: SortValue| ScoredDocument { sort: vec![v], ..scored(id, 1.0) };
    let asc = vec![SortClause { field: own("x"), order: SortOrder::Asc }];
    let mut docs = vec![
        with("nan", value(f64::NAN)),
        with("word", SortValue::Text(own("b"))),
        with("zero", value(0.0)),
        with("none", SortValue::Missing),
        with("minus", value(-2.0)),
        with("also zero", value(-0.0)),
        with("first word", SortValue::Text(own("a"))),
        with("yes", SortValue::Flag(true)),
        with("no", SortValue::Flag(false)),
    ];
    arrange(&mut docs, &asc);
    let ids = |docs: &Vec<ScoredDocument>| -> Vec<String> {
        docs.iter().map(|d| d.document.id.clone()).collect()
    };
    assert_eq!(
        ids(&docs),
        vec!["none", "no", "yes", "minus", "zero", "also zero", "nan", "first word", "word"]
    );
    let mut behind = docs.iter().map(|d| with(&d.document.id, d.sort[0].clone())).collect();
    drop_up_to(&mut behind, &Some(vec![value(0.0)]), &asc);
    assert_eq!(ids(&behind), vec!["nan", "first word", "word"]);
    drop_up_to(&mut behind, &Some(vec![value(0.0)]), &vec![]);
    assert_eq!(behind.len(), 3);

    let colored = |id: &str, color: &str| ScoredDocument {
        document: Document::new(id).with_field("color", FieldValue::Text(own(color))),
        ..scored(id, 1.0)
    };
    let mut docs = vec![colored("1", "red"), scored("2", 1.0), colored("3", "red")];
    docs.push(colored("4", "blue"));
    docs.push(scored("5", 1.0));
    collapse(&mut docs, &Some(own("color")));
    assert_eq!(ids(&docs), vec!["1", "2", "4"]);
    collapse(&mut docs, &None);
    assert_eq!(docs.len(), 3);

    let filled = fill_sort_values(docs, &vec![SortClause { field: own("color"), ..asc[0].clone() }]);
    assert_eq!(filled[0].sort, vec![SortValue::Text(own("red"))]);
    assert_eq!(filled[1].sort, vec![SortValue::Missing]);
}

#[test]
fn queries_are_copied() {
    let q = Query::Term(TermQuery { field: own("f"), value: own("v") });
    assert_eq!(q.clone(), q);
}
