use sieve_test::compiler::{
    Capability, CompileError, CompilerState, ErrorType, Instruction, Token, TokenInfo,
    TokenStream, UNPATCHED,
};
use sieve_test::leaf::{Comparator, Invalid, LeafTest, MatchKind, MatchType, Test, TestKind};
use sieve_test::matching::{Context, PatternMatch};
use sieve_test::run::run_chain;

fn tok(token: Token) -> TokenInfo {
    TokenInfo { token, line_num: 1, line_pos: 0 }
}

fn tok_at(token: Token, line_num: usize, line_pos: usize) -> TokenInfo {
    TokenInfo { token, line_num, line_pos }
}

fn header_is(field: usize, key: &str) -> Test {
    Test::Leaf(LeafTest {
        kind: TestKind::Header,
        keys: vec![key.as_bytes().to_vec()],
        sources: vec![field],
        match_type: MatchType::Is,
        comparator: Comparator::Octet,
        empty_is_absent: false,
        is_not: false,
    })
}

fn exists_test(field: usize) -> Test {
    Test::Leaf(LeafTest {
        kind: TestKind::Exists,
        keys: vec![b"1".to_vec()],
        sources: vec![field],
        match_type: MatchType::Count(sieve_test::leaf::Relation::Ge),
        comparator: Comparator::Octet,
        empty_is_absent: false,
        is_not: false,
    })
}

fn leaf(t: Test) -> Token {
    Token::Test { test: t, capability: None }
}

fn state(tokens: Vec<TokenInfo>) -> CompilerState {
    CompilerState {
        tokens: TokenStream::new(tokens),
        instructions: Vec::new(),
        capabilities: Vec::new(),
        plugins: Vec::new(),
        max_nested_tests: 8,
    }
}

fn compile(tokens: Vec<TokenInfo>) -> Vec<Instruction> {
    let mut s = state(tokens);
    s.parse_test().expect("compiles");
    s.instructions
}

fn ctx(fields: &[&str]) -> Context {
    Context {
        fields: fields.iter().map(|f| f.as_bytes().to_vec()).collect(),
        patterns: Vec::new(),
        members: Vec::new(),
    }
}

fn run(ins: &Vec<Instruction>, c: &Context) -> (bool, usize) {
    let mut captures = Vec::new();
    run_chain(ins, 0, c, &mut captures)
}

fn err_of(tokens: Vec<TokenInfo>, max: usize, caps: Vec<Capability>) -> CompileError {
    let mut s = state(tokens);
    s.max_nested_tests = max;
    s.capabilities = caps;
    match s.parse_test() {
        Err(e) => e,
        Ok(()) => panic!("expected an error"),
    }
}

fn assert_jumps_patched(ins: &Vec<Instruction>) {
    let n = ins.len();
    assert!(matches!(ins[n - 1], Instruction::Jz(UNPATCHED)));
    for (i, x) in ins[..n - 1].iter().enumerate() {
        match x {
            Instruction::Jz(t) | Instruction::Jnz(t) => {
                assert!(*t != UNPATCHED);
                assert!(*t > i && *t < n);
            }
            Instruction::Test(_) => {}
        }
    }
}

#[test]
fn anyof_stops_at_second_match() {
    let ins = compile(vec![
        tok(Token::AnyOf),
        tok(Token::ParenthesisOpen),
        tok(leaf(header_is(0, "a"))),
        tok(Token::Comma),
        tok(leaf(header_is(0, "b"))),
        tok(Token::ParenthesisClose),
    ]);
    assert_jumps_patched(&ins);
    assert_eq!(run(&ins, &ctx(&["b"])), (true, 2));
    assert_eq!(run(&ins, &ctx(&["a"])), (true, 1));
    assert_eq!(run(&ins, &ctx(&["c"])), (false, 2));
}

#[test]
fn allof_not_exists_absent_header() {
    let ins = compile(vec![
        tok(Token::AllOf),
        tok(Token::ParenthesisOpen),
        tok(Token::Not),
        tok(leaf(exists_test(3))),
        tok(Token::ParenthesisClose),
    ]);
    assert_jumps_patched(&ins);
    assert_eq!(run(&ins, &ctx(&["x"])).0, true);
    assert_eq!(run(&ins, &ctx(&["x", "y", "z", "present"])).0, false);
}

#[test]
fn unknown_test_becomes_invalid_and_compiling_goes_on() {
    let mut s = state(vec![
        tok_at(Token::Unknown("foobar".to_string()), 3, 7),
        tok(Token::Argument(b"x".to_vec())),
        tok(Token::True),
    ]);
    assert!(s.parse_test().is_ok());
    match &s.instructions[0] {
        Instruction::Test(Test::Invalid(Invalid { name, line_num, line_pos })) => {
            assert_eq!(name, "foobar");
            assert_eq!((*line_num, *line_pos), (3, 7));
        }
        _ => panic!("expected an invalid test"),
    }
    assert!(matches!(s.instructions[1], Instruction::Jz(UNPATCHED)));
    assert!(s.parse_test().is_ok());
    assert_eq!(s.instructions.len(), 4);
    assert!(matches!(s.instructions[2], Instruction::Test(Test::True)));
    let c = ctx(&[]);
    let mut captures = Vec::new();
    assert_eq!(run_chain(&s.instructions, 2, &c, &mut captures), (true, 1));
}

#[test]
fn not_of_leaf_flips_the_result() {
    for fields in [["a"], ["b"]] {
        let c = ctx(&fields);
        let plain = compile(vec![tok(leaf(header_is(0, "a")))]);
        let negated = compile(vec![tok(Token::Not), tok(leaf(header_is(0, "a")))]);
        assert_eq!(run(&negated, &c).0, !run(&plain, &c).0);
    }
    let c = ctx(&[]);
    let t = compile(vec![tok(Token::Not), tok(Token::True)]);
    assert!(matches!(t[0], Instruction::Test(Test::False)));
    assert_eq!(run(&t, &c).0, false);
    let f = compile(vec![tok(Token::Not), tok(Token::False)]);
    assert_eq!(run(&f, &c).0, true);
    let e = compile(vec![tok(Token::Not), tok(leaf(exists_test(0)))]);
    assert_eq!(run(&e, &c).0, true);
}

#[test]
fn de_morgan_not_allof_is_anyof_of_nots() {
    let left = compile(vec![
        tok(Token::Not),
        tok(Token::AllOf),
        tok(Token::ParenthesisOpen),
        tok(leaf(header_is(0, "y"))),
        tok(Token::Comma),
        tok(leaf(header_is(1, "y"))),
        tok(Token::ParenthesisClose),
    ]);
    let right = compile(vec![
        tok(Token::AnyOf),
        tok(Token::ParenthesisOpen),
        tok(Token::Not),
        tok(leaf(header_is(0, "y"))),
        tok(Token::Comma),
        tok(Token::Not),
        tok(leaf(header_is(1, "y"))),
        tok(Token::ParenthesisClose),
    ]);
    assert_jumps_patched(&left);
    assert_jumps_patched(&right);
    for a in ["y", "n"] {
        for b in ["y", "n"] {
            let c = ctx(&[a, b]);
            let expected = !(a == "y" && b == "y");
            assert_eq!(run(&left, &c).0, expected);
            assert_eq!(run(&right, &c).0, expected);
        }
    }
}

#[test]
fn allof_skips_second_when_first_fails() {
    let ins = compile(vec![
        tok(Token::AllOf),
        tok(Token::ParenthesisOpen),
        tok(leaf(header_is(0, "a"))),
        tok(Token::Comma),
        tok(leaf(header_is(1, "b"))),
        tok(Token::ParenthesisClose),
    ]);
    assert_eq!(run(&ins, &ctx(&["x", "b"])), (false, 1));
    assert_eq!(run(&ins, &ctx(&["a", "b"])), (true, 2));
    assert_eq!(run(&ins, &ctx(&["a", "x"])), (false, 2));
}

#[test]
fn anyof_skips_second_when_first_holds() {
    let ins = compile(vec![
        tok(Token::AnyOf),
        tok(Token::ParenthesisOpen),
        tok(leaf(header_is(0, "a"))),
        tok(Token::Comma),
        tok(leaf(header_is(1, "b"))),
        tok(Token::ParenthesisClose),
    ]);
    assert_eq!(run(&ins, &ctx(&["a", "x"])), (true, 1));
}

#[test]
fn nested_groups_are_patched() {
    let ins = compile(vec![
        tok(Token::AllOf),
        tok(Token::ParenthesisOpen),
        tok(Token::AnyOf),
        tok(Token::ParenthesisOpen),
        tok(leaf(header_is(0, "a"))),
        tok(Token::Comma),
        tok(leaf(header_is(0, "b"))),
        tok(Token::ParenthesisClose),
        tok(Token::Comma),
        tok(Token::Not),
        tok(leaf(header_is(1, "c"))),
        tok(Token::ParenthesisClose),
    ]);
    assert_jumps_patched(&ins);
    assert_eq!(run(&ins, &ctx(&["b", "d"])).0, true);
    assert_eq!(run(&ins, &ctx(&["b", "c"])).0, false);
    assert_eq!(run(&ins, &ctx(&["z", "d"])).0, false);
}

#[test]
fn redundant_parentheses_are_tolerated() {
    let ins = compile(vec![
        tok(Token::ParenthesisOpen),
        tok(Token::True),
        tok(Token::ParenthesisClose),
    ]);
    assert_eq!(ins.len(), 2);
    assert_eq!(run(&ins, &ctx(&[])).0, true);
}

#[test]
fn too_many_nested_tests() {
    let e = err_of(
        vec![
            tok(Token::AllOf),
            tok(Token::ParenthesisOpen),
            tok_at(Token::AnyOf, 2, 4),
            tok(Token::ParenthesisOpen),
            tok(Token::True),
            tok(Token::ParenthesisClose),
            tok(Token::ParenthesisClose),
        ],
        1,
        vec![],
    );
    assert_eq!(e, CompileError { line_num: 2, line_pos: 4, error_type: ErrorType::TooManyNestedTests });
}

#[test]
fn undeclared_capability() {
    let tokens = || {
        vec![tok_at(
            Token::Test { test: header_is(0, "a"), capability: Some(Capability::Body) },
            5,
            1,
        )]
    };
    let e = err_of(tokens(), 8, vec![Capability::Envelope]);
    assert_eq!(e.error_type, ErrorType::UndeclaredCapability(Capability::Body));
    assert_eq!((e.line_num, e.line_pos), (5, 1));
    let mut s = state(tokens());
    s.capabilities = vec![Capability::Body];
    assert!(s.parse_test().is_ok());
}

#[test]
fn not_must_precede_a_test() {
    let e = err_of(vec![tok(Token::Not), tok(Token::Comma)], 8, vec![]);
    assert_eq!(e.error_type, ErrorType::ExpectedTestName);
}

#[test]
fn group_needs_open_parenthesis() {
    let e = err_of(vec![tok(Token::AnyOf), tok(Token::True)], 8, vec![]);
    assert_eq!(e.error_type, ErrorType::ExpectedParenthesisOpen);
}

#[test]
fn stray_close_parenthesis() {
    let e = err_of(vec![tok(Token::ParenthesisClose)], 8, vec![]);
    assert_eq!(e.error_type, ErrorType::ExpectedTestName);
}

#[test]
fn missing_close_parenthesis() {
    let e = err_of(
        vec![tok(Token::ParenthesisOpen), tok(Token::True), tok(Token::Comma)],
        8,
        vec![],
    );
    assert_eq!(e.error_type, ErrorType::ExpectedParenthesisClose);
}

#[test]
fn input_ends_inside_group() {
    let e = err_of(
        vec![tok(Token::AllOf), tok(Token::ParenthesisOpen), tok(Token::True)],
        8,
        vec![],
    );
    assert_eq!(e.error_type, ErrorType::UnexpectedEndOfInput);
}

#[test]
fn plugin_test_takes_its_arguments() {
    let mut s = state(vec![
        tok(Token::Unknown("mytest".to_string())),
        tok(Token::Argument(b"one".to_vec())),
        tok(Token::Argument(b"two".to_vec())),
    ]);
    s.plugins = vec!["mytest".to_string()];
    s.capabilities = vec![Capability::Plugins];
    assert!(s.parse_test().is_ok());
    match &s.instructions[0] {
        Instruction::Test(Test::Leaf(l)) => {
            assert_eq!(l.kind, TestKind::Plugin);
            assert_eq!(l.keys, vec![b"one".to_vec(), b"two".to_vec()]);
        }
        _ => panic!("expected a plugin test"),
    }
    let mut s = state(vec![tok(Token::Unknown("mytest".to_string()))]);
    s.plugins = vec!["mytest".to_string()];
    let e = s.parse_test().unwrap_err();
    assert_eq!(e.error_type, ErrorType::UndeclaredCapability(Capability::Plugins));
}

#[test]
fn wildcard_captures_survive_negation_in_a_run() {
    let t = Test::Leaf(LeafTest {
        kind: TestKind::Header,
        keys: vec![b"*@example.com".to_vec()],
        sources: vec![0],
        match_type: MatchType::Matches(true),
        comparator: Comparator::Octet,
        empty_is_absent: false,
        is_not: false,
    });
    let ins = compile(vec![tok(Token::Not), tok(leaf(t))]);
    let c = Context {
        fields: vec![b"joe@example.com".to_vec()],
        patterns: vec![PatternMatch {
            kind: MatchKind::Matches,
            comparator: Comparator::Octet,
            key: b"*@example.com".to_vec(),
            value: b"joe@example.com".to_vec(),
            captures: vec![b"joe".to_vec()],
        }],
        members: Vec::new(),
    };
    let mut captures = vec![b"old".to_vec()];
    assert_eq!(run_chain(&ins, 0, &c, &mut captures), (false, 1));
    assert_eq!(captures, vec![b"joe".to_vec()]);
}

#[test]
fn list_lookup_is_resolved_in_a_run() {
    let t = Test::Leaf(LeafTest {
        kind: TestKind::Header,
        keys: vec![b"blocked".to_vec()],
        sources: vec![0, 1],
        match_type: MatchType::List,
        comparator: Comparator::Octet,
        empty_is_absent: false,
        is_not: false,
    });
    let plain = compile(vec![tok(leaf(t))]);
    let mut c = ctx(&["a@x", "b@y"]);
    assert_eq!(run(&plain, &c).0, false);
    c.members = vec![b"b@y".to_vec()];
    assert_eq!(run(&plain, &c).0, true);
    let empty = ctx(&["", ""]);
    assert_eq!(run(&plain, &empty).0, false);
}

#[test]
fn two_nots_cancel() {
    let ins = compile(vec![tok(Token::Not), tok(Token::Not), tok(leaf(header_is(0, "a")))]);
    assert_eq!(ins.len(), 2);
    match &ins[0] {
        Instruction::Test(Test::Leaf(l)) => assert!(!l.is_not),
        _ => panic!("expected a leaf"),
    }
    let ins = compile(vec![tok(Token::Not), tok(Token::Not), tok(Token::Not), tok(leaf(header_is(0, "a")))]);
    match &ins[0] {
        Instruction::Test(Test::Leaf(l)) => assert!(l.is_not),
        _ => panic!("expected a leaf"),
    }
}

#[test]
fn invalid_expression_is_fatal() {
    let tokens = || vec![tok_at(Token::InvalidExpression("1 +: unexpected end".to_string()), 4, 2)];
    let e = err_of(tokens(), 8, vec![]);
    assert_eq!(e.error_type, ErrorType::UndeclaredCapability(Capability::Eval));
    let e = err_of(tokens(), 8, vec![Capability::Eval]);
    assert_eq!(
        e,
        CompileError {
            line_num: 4,
            line_pos: 2,
            error_type: ErrorType::InvalidExpression("1 +: unexpected end".to_string()),
        }
    );
}

#[test]
fn unknown_test_consumes_only_its_arguments() {
    let mut s = state(vec![
        tok(Token::Not),
        tok(Token::Unknown("foobar".to_string())),
        tok(Token::Argument(b"x".to_vec())),
        tok(Token::Argument(b"y".to_vec())),
        tok(Token::CurlyOpen),
    ]);
    assert!(s.parse_test().is_ok());
    assert_eq!(s.instructions.len(), 2);
    assert!(matches!(s.instructions[0], Instruction::Test(Test::Invalid(_))));
    assert_eq!(s.tokens.remaining(), 1);
    assert!(matches!(s.tokens.peek(), Some(Token::CurlyOpen)));
}

#[test]
fn misplaced_not_reports_its_position() {
    let e = err_of(vec![tok(Token::Not), tok_at(Token::Not, 2, 9), tok(Token::Argument(b"x".to_vec()))], 8, vec![]);
    assert_eq!(e, CompileError { line_num: 2, line_pos: 9, error_type: ErrorType::ExpectedTestName });
}

#[test]
fn no_nesting_allowed() {
    let e = err_of(vec![tok_at(Token::AllOf, 1, 3), tok(Token::ParenthesisOpen)], 0, vec![]);
    assert_eq!(e, CompileError { line_num: 1, line_pos: 3, error_type: ErrorType::TooManyNestedTests });
}

#[test]
fn empty_input_ends_early() {
    let e = err_of(vec![], 8, vec![]);
    assert_eq!(e, CompileError { line_num: 0, line_pos: 0, error_type: ErrorType::UnexpectedEndOfInput });
}

#[test]
fn group_leaves_following_token() {
    let mut s = state(vec![
        tok(Token::AllOf),
        tok(Token::ParenthesisOpen),
        tok(Token::False),
        tok(Token::Comma),
        tok(Token::True),
        tok(Token::ParenthesisClose),
        tok(Token::CurlyOpen),
    ]);
    assert!(s.parse_test().is_ok());
    assert!(matches!(s.instructions[0], Instruction::Test(Test::False)));
    assert!(matches!(s.instructions[1], Instruction::Jz(3)));
    assert!(matches!(s.instructions[2], Instruction::Test(Test::True)));
    assert!(matches!(s.instructions[3], Instruction::Jz(UNPATCHED)));
    assert_eq!(s.tokens.remaining(), 1);
    assert!(matches!(s.tokens.peek(), Some(Token::CurlyOpen)));
}

#[test]
fn comma_right_after_group_open() {
    let e = err_of(
        vec![tok(Token::AllOf), tok(Token::ParenthesisOpen), tok_at(Token::Comma, 3, 5), tok(Token::True)],
        8,
        vec![],
    );
    assert_eq!(e, CompileError { line_num: 3, line_pos: 5, error_type: ErrorType::ExpectedTestName });
}
