use sieve_test::bytes::{contains_bytes, count_compare, octet_compare};
use sieve_test::leaf::{Comparator, Invalid, LeafTest, MatchKind, MatchType, Relation, Test, TestKind};
use sieve_test::matching::{Context, PatternMatch, TestResult};

fn b(s: &str) -> Vec<u8> {
    s.as_bytes().to_vec()
}

fn leaf(keys: &[&str], sources: Vec<usize>, match_type: MatchType) -> LeafTest {
    LeafTest {
        kind: TestKind::Header,
        keys: keys.iter().map(|k| b(k)).collect(),
        sources,
        match_type,
        comparator: Comparator::Octet,
        empty_is_absent: false,
        is_not: false,
    }
}

fn ctx(fields: &[&str]) -> Context {
    Context {
        fields: fields.iter().map(|f| b(f)).collect(),
        patterns: Vec::new(),
        members: Vec::new(),
    }
}

fn eval(l: &LeafTest, c: &Context) -> TestResult {
    let mut captures = Vec::new();
    l.evaluate(c, &mut captures)
}

fn truth(l: &LeafTest, c: &Context) -> bool {
    match eval(l, c) {
        TestResult::Bool(v) => v,
        TestResult::Event(_) => panic!("unexpected lookup"),
    }
}

#[test]
fn count_ge_three_values() {
    let l = leaf(&["2"], vec![0, 1, 2], MatchType::Count(Relation::Ge));
    assert!(truth(&l, &ctx(&["a", "b", "c"])));
    let l = leaf(&["4"], vec![0, 1, 2], MatchType::Count(Relation::Ge));
    assert!(!truth(&l, &ctx(&["a", "b", "c"])));
    let l = leaf(&["3"], vec![0, 1, 2], MatchType::Count(Relation::Eq));
    assert!(truth(&l, &ctx(&["a", "b", "c"])));
}

#[test]
fn count_skips_empty_values() {
    let l = leaf(&["2"], vec![0, 1, 2], MatchType::Count(Relation::Eq));
    assert!(truth(&l, &ctx(&["a", "", "c"])));
}

#[test]
fn count_zero_with_empty_as_absent() {
    let mut l = leaf(&["0"], vec![0], MatchType::Count(Relation::Eq));
    assert!(truth(&l, &ctx(&[""])));
    l.empty_is_absent = true;
    assert!(!truth(&l, &ctx(&[""])));
}

#[test]
fn count_with_no_keys_is_false() {
    let l = leaf(&[], vec![0], MatchType::Count(Relation::Ge));
    assert!(!truth(&l, &ctx(&["a"])));
}

#[test]
fn count_non_numeric_key_is_infinite() {
    assert_eq!(count_compare(5, &b("abc")), -1);
    assert_eq!(count_compare(5, &b("")), -1);
    assert_eq!(count_compare(5, &b("99999999999999999999999")), -1);
    assert_eq!(count_compare(12, &b("12")), 0);
    assert_eq!(count_compare(13, &b("12")), 1);
}

#[test]
fn is_and_contains() {
    let c = ctx(&["hello world", "other"]);
    assert!(truth(&leaf(&["other"], vec![0, 1], MatchType::Is), &c));
    assert!(!truth(&leaf(&["hello"], vec![0, 1], MatchType::Is), &c));
    assert!(truth(&leaf(&["lo wo"], vec![0], MatchType::Contains), &c));
    assert!(!truth(&leaf(&["low"], vec![0], MatchType::Contains), &c));
    assert!(contains_bytes(&b(""), &b("")));
    assert!(!contains_bytes(&b("abc"), &b("ab")));
}

#[test]
fn value_relation_is_octet_order() {
    let c = ctx(&["b"]);
    assert!(truth(&leaf(&["a"], vec![0], MatchType::Value(Relation::Gt)), &c));
    assert!(!truth(&leaf(&["c"], vec![0], MatchType::Value(Relation::Gt)), &c));
    assert_eq!(octet_compare(&b("ab"), &b("abc")), -1);
    assert_eq!(octet_compare(&b("abd"), &b("abc")), 1);
    assert_eq!(octet_compare(&b("abc"), &b("abc")), 0);
}

#[test]
fn empty_keys_or_sources_are_false() {
    let c = ctx(&["a"]);
    assert!(!truth(&leaf(&[], vec![0], MatchType::Is), &c));
    assert!(!truth(&leaf(&["a"], vec![], MatchType::Is), &c));
    let mut l = leaf(&[], vec![0], MatchType::Is);
    l.is_not = true;
    assert!(truth(&l, &c));
}

#[test]
fn empty_source_is_absent() {
    let mut l = leaf(&[""], vec![0], MatchType::Is);
    assert!(truth(&l, &ctx(&[""])));
    l.empty_is_absent = true;
    assert!(!truth(&l, &ctx(&[""])));
}

#[test]
fn missing_field_reads_empty() {
    assert!(truth(&leaf(&[""], vec![7], MatchType::Is), &ctx(&["a"])));
}

#[test]
fn is_not_flips_the_result() {
    let mut l = leaf(&["a"], vec![0], MatchType::Is);
    l.is_not = true;
    assert!(!truth(&l, &ctx(&["a"])));
    assert!(truth(&l, &ctx(&["b"])));
}

fn pattern_ctx() -> Context {
    Context {
        fields: vec![b("nothing"), b("joe@example.com")],
        patterns: vec![
            PatternMatch {
                kind: MatchKind::Matches,
            comparator: Comparator::Octet,
                key: b("*@*"),
                value: b("joe@example.com"),
                captures: vec![b("joe"), b("example.com")],
            },
            PatternMatch {
                kind: MatchKind::Regex,
                comparator: Comparator::Octet,
                key: b("^(.*)@"),
                value: b("joe@example.com"),
                captures: vec![b("joe")],
            },
        ],
        members: Vec::new(),
    }
}

#[test]
fn wildcard_writes_captures_whatever_is_not() {
    let c = pattern_ctx();
    for is_not in [false, true] {
        let mut l = leaf(&["*@*"], vec![0, 1], MatchType::Matches(true));
        l.is_not = is_not;
        let mut captures = vec![b("old")];
        let r = l.evaluate(&c, &mut captures);
        assert!(matches!(r, TestResult::Bool(v) if v == !is_not));
        assert_eq!(captures, vec![b("joe"), b("example.com")]);
    }
}

#[test]
fn regex_captures_and_no_capture_flag() {
    let c = pattern_ctx();
    let l = leaf(&["^(.*)@"], vec![1], MatchType::Regex(true));
    let mut captures = Vec::new();
    assert!(matches!(l.evaluate(&c, &mut captures), TestResult::Bool(true)));
    assert_eq!(captures, vec![b("joe")]);
    let l = leaf(&["^(.*)@"], vec![1], MatchType::Regex(false));
    let mut captures = vec![b("old")];
    assert!(matches!(l.evaluate(&c, &mut captures), TestResult::Bool(true)));
    assert_eq!(captures, vec![b("old")]);
    let l = leaf(&["*@*"], vec![1], MatchType::Regex(true));
    let mut captures = vec![b("old")];
    assert!(matches!(l.evaluate(&c, &mut captures), TestResult::Bool(false)));
    assert_eq!(captures, vec![b("old")]);
}

#[test]
fn list_match_requests_lookup() {
    let mut l = leaf(&["list-a", "list-b"], vec![0, 1, 2, 3], MatchType::List);
    l.is_not = true;
    match eval(&l, &ctx(&["x", "", "y", "x"])) {
        TestResult::Event(e) => {
            assert_eq!(e.lists, vec![b("list-a"), b("list-b")]);
            assert_eq!(e.values, vec![b("x"), b("y")]);
            assert!(e.is_not);
        }
        TestResult::Bool(_) => panic!("expected a lookup"),
    }
}

#[test]
fn list_match_with_only_empty_values_is_false() {
    let mut l = leaf(&["list-a"], vec![0, 1], MatchType::List);
    assert!(matches!(eval(&l, &ctx(&["", ""])), TestResult::Bool(false)));
    l.is_not = true;
    assert!(matches!(eval(&l, &ctx(&[""])), TestResult::Bool(false)));
}

#[test]
fn set_not_on_each_variant() {
    assert!(matches!(Test::True.set_not(), Test::False));
    assert!(matches!(Test::False.set_not(), Test::True));
    match Test::Leaf(leaf(&["a"], vec![0], MatchType::Is)).set_not() {
        Test::Leaf(l) => {
            assert!(l.is_not);
            assert_eq!(l.keys, vec![b("a")]);
        }
        _ => panic!("expected a leaf"),
    }
    assert!(matches!(Test::Vacation.set_not(), Test::Vacation));
    let inv = Test::Invalid(Invalid { name: "x".to_string(), line_num: 1, line_pos: 2 });
    match inv.set_not() {
        Test::Invalid(i) => assert_eq!((i.name.as_str(), i.line_num, i.line_pos), ("x", 1, 2)),
        _ => panic!("expected an invalid test"),
    }
}

#[test]
fn check_of_constants_and_invalid() {
    let c = ctx(&[]);
    let mut captures = Vec::new();
    assert!(Test::True.check(&c, &mut captures));
    assert!(!Test::False.check(&c, &mut captures));
    assert!(!Test::Vacation.check(&c, &mut captures));
}

#[test]
fn casemap_comparator_uses_context_outcomes() {
    let mut l = leaf(&["Hello"], vec![0], MatchType::Is);
    l.comparator = Comparator::AsciiCasemap;
    let mut c = ctx(&["hello"]);
    assert!(!truth(&l, &c));
    c.patterns.push(PatternMatch {
        kind: MatchKind::Is,
        comparator: Comparator::AsciiCasemap,
        key: b("Hello"),
        value: b("hello"),
        captures: Vec::new(),
    });
    assert!(truth(&l, &c));
    l.comparator = Comparator::Octet;
    assert!(!truth(&l, &c));
}

#[test]
fn numeric_value_uses_context_outcomes() {
    let mut l = leaf(&["9"], vec![0], MatchType::Value(Relation::Gt));
    assert!(!truth(&l, &ctx(&["10"])));
    l.comparator = Comparator::AsciiNumeric;
    let mut c = ctx(&["10"]);
    c.patterns.push(PatternMatch {
        kind: MatchKind::Value(Relation::Gt),
        comparator: Comparator::AsciiNumeric,
        key: b("9"),
        value: b("10"),
        captures: Vec::new(),
    });
    assert!(truth(&l, &c));
}

#[test]
fn list_lookup_carries_comparator() {
    let mut l = leaf(&["list"], vec![0], MatchType::List);
    l.comparator = Comparator::AsciiCasemap;
    match eval(&l, &ctx(&["v"])) {
        TestResult::Event(e) => assert_eq!(e.comparator, Comparator::AsciiCasemap),
        TestResult::Bool(_) => panic!("expected a lookup"),
    }
}
