use vstd::prelude::*;
use crate::compiler::{
    close_parens, compile_spec, finish_leaf, group_meaning, initial_state, patch, polarity, retarget, Block,
    Capability, CompileError, Instruction, ParseState, Token, TokenInfo, UNPATCHED,
};
use crate::leaf::{LeafTest, MatchType, Test};
use crate::run::{chain_tests, chain_value, forward};
use crate::matching::{pattern_kind, test_value, views, Context};

verus! {

proof fn lemma_first_source_flag(l: LeafTest, b: bool, ctx: Context, ki: int, si: int)
    ensures
        l.with_not(b).first_source(ctx, ki, si) == l.first_source(ctx, ki, si),
    decreases l.sources@.len() - si,
{
    if 0 <= si < l.sources@.len() {
        lemma_first_source_flag(l, b, ctx, ki, si + 1);
    }
}

proof fn lemma_first_pair_flag(l: LeafTest, b: bool, ctx: Context, ki: int)
    ensures
        l.with_not(b).first_pair(ctx, ki) == l.first_pair(ctx, ki),
    decreases l.keys@.len() - ki,
{
    if 0 <= ki < l.keys@.len() {
        lemma_first_source_flag(l, b, ctx, ki, 0);
        lemma_first_pair_flag(l, b, ctx, ki + 1);
    }
}

proof fn lemma_count_flag(l: LeafTest, b: bool, ctx: Context, n: int)
    ensures
        l.with_not(b).count_nonempty(ctx, n) == l.count_nonempty(ctx, n),
    decreases n,
{
    if n > 0 {
        lemma_count_flag(l, b, ctx, n - 1);
    }
}

/// Negating a test that is not yet negated flips its truth value, for every
/// test but list matches (whose negation waits for the lookup) and the
/// vacation and invalid tests (which negation leaves alone).
pub proof fn lemma_not_flips(t: Test, ctx: Context)
    requires
        t.is_negatable(),
        t is Leaf ==> !t->Leaf_0.is_not && !(t->Leaf_0.match_type is List),
    ensures
        test_value(t.negated(), ctx) == !test_value(t, ctx),
{
    match t {
        Test::Leaf(l) => {
            lemma_first_pair_flag(l, true, ctx, 0);
            lemma_count_flag(l, true, ctx, l.sources@.len() as int);
        },
        _ => {},
    }
}

/// Run as the chain that compiling a lone test gives (the test, then the
/// trailing jump), `not X` holds exactly when `X` does not.
pub proof fn lemma_compiled_not_flips(t: Test, ctx: Context)
    requires
        t.is_negatable(),
        t is Leaf ==> !t->Leaf_0.is_not && !(t->Leaf_0.match_type is List),
    ensures
        chain_value(
            seq![Instruction::Test(t.negated()), Instruction::Jz(UNPATCHED)],
            0,
            false,
            ctx,
        ) == !chain_value(seq![Instruction::Test(t), Instruction::Jz(UNPATCHED)], 0, false, ctx),
{
    lemma_not_flips(t, ctx);
    let a = seq![Instruction::Test(t.negated()), Instruction::Jz(UNPATCHED)];
    let b = seq![Instruction::Test(t), Instruction::Jz(UNPATCHED)];
    assert(chain_value(a, 2, test_value(t.negated(), ctx), ctx));
    assert(chain_value(b, 2, test_value(t, ctx), ctx));
    assert(chain_value(a, 1, test_value(t.negated(), ctx), ctx) == test_value(t.negated(), ctx));
    assert(chain_value(b, 1, test_value(t, ctx), ctx) == test_value(t, ctx));
}

/// What a wildcard or regex test writes to the capture variables does not
/// depend on its negation flag.
pub proof fn lemma_captures_ignore_not(l: LeafTest, b: bool, ctx: Context)
    ensures
        l.with_not(b).captured(ctx) == l.captured(ctx),
{
    lemma_first_pair_flag(l, b, ctx, 0);
}

/// A capturing wildcard or regex test that finds a satisfying pair whose
/// pattern outcome has captures writes exactly those captures.
pub proof fn lemma_capture_of_first_pair(l: LeafTest, ctx: Context)
    requires
        l.match_type == MatchType::Matches(true) || l.match_type == MatchType::Regex(true),
        l.raw_match(ctx),
    ensures
        ({
            let (ki, si) = l.first_pair(ctx, 0);
            let p = ctx.pattern_index(
                pattern_kind(l.match_type),
                l.comparator,
                l.keys@[ki]@,
                ctx.value_of(l.sources@[si]),
            );
            p >= 0 && (ctx.patterns@[p].captures@.len() > 0 ==> l.captured(ctx) == Some(
                views(ctx.patterns@[p].captures@),
            ))
        }),
{
    l.lemma_first_pair_range(ctx, 0);
}

/// The group modes that `polarity` gives obey De Morgan: over any list of
/// test values, the mode chosen under a pending `not` means the negation of
/// the mode chosen without it.
pub proof fn lemma_de_morgan(all: bool, vals: Seq<bool>)
    ensures
        group_meaning(polarity(all, true).0, polarity(all, true).1, vals) == !group_meaning(
            polarity(all, false).0,
            polarity(all, false).1,
            vals,
        ),
{
}

/// A false test followed by `Jz` jumps over what lies between: only that
/// test is evaluated before the jump target, and the outcome is that of
/// running from the target.
pub proof fn lemma_false_skips(s: Seq<Instruction>, pc: int, last: bool, ctx: Context)
    requires
        0 <= pc,
        pc + 1 < s.len(),
        s[pc] is Test,
        !test_value(s[pc]->Test_0, ctx),
        s[pc + 1] is Jz,
        forward(pc + 1, s[pc + 1]->Jz_0, s.len() as int),
    ensures
        chain_tests(s, pc, last, ctx) == 1 + chain_tests(s, s[pc + 1]->Jz_0 as int, false, ctx),
        chain_value(s, pc, last, ctx) == chain_value(s, s[pc + 1]->Jz_0 as int, false, ctx),
{
    assert(chain_tests(s, pc + 1, false, ctx) == chain_tests(s, s[pc + 1]->Jz_0 as int, false, ctx));
    assert(chain_value(s, pc + 1, false, ctx) == chain_value(s, s[pc + 1]->Jz_0 as int, false, ctx));
}

/// A true test followed by `Jnz` jumps over what lies between: only that
/// test is evaluated before the jump target, and the outcome is that of
/// running from the target.
pub proof fn lemma_true_skips(s: Seq<Instruction>, pc: int, last: bool, ctx: Context)
    requires
        0 <= pc,
        pc + 1 < s.len(),
        s[pc] is Test,
        test_value(s[pc]->Test_0, ctx),
        s[pc + 1] is Jnz,
        forward(pc + 1, s[pc + 1]->Jnz_0, s.len() as int),
    ensures
        chain_tests(s, pc, last, ctx) == 1 + chain_tests(s, s[pc + 1]->Jnz_0 as int, true, ctx),
        chain_value(s, pc, last, ctx) == chain_value(s, s[pc + 1]->Jnz_0 as int, true, ctx),
{
    assert(chain_tests(s, pc + 1, true, ctx) == chain_tests(s, s[pc + 1]->Jnz_0 as int, true, ctx));
    assert(chain_value(s, pc + 1, true, ctx) == chain_value(s, s[pc + 1]->Jnz_0 as int, true, ctx));
}

/// The stream that `allof(a, b)` (`all`) or `anyof(a, b)` compiles to,
/// after the instructions `s`: the two tests with the group's short-circuit
/// jump between them, pointing past the second test, then the trailing
/// jump.
pub open spec fn two_test_stream(s: Seq<Instruction>, all: bool, a: Test, b: Test) -> Seq<Instruction> {
    let end = (s.len() + 3) as usize;
    s.push(Instruction::Test(a)).push(
        if all { Instruction::Jz(end) } else { Instruction::Jnz(end) },
    ).push(Instruction::Test(b)).push(Instruction::Jz(UNPATCHED))
}

/// `allof(a, b)` and `anyof(a, b)`, over two tests that need no
/// capability, compile to the two tests in order, joined by `Jz` for
/// `allof` and `Jnz` for `anyof`, each pointing past the second test.
pub proof fn lemma_group_of_two(
    s: Seq<Instruction>,
    p: Seq<TokenInfo>,
    a: Test,
    b: Test,
    caps: Seq<Capability>,
    plugins: Seq<String>,
    max_nested: usize,
)
    requires
        p.len() == 6,
        p[5].token is AllOf || p[5].token is AnyOf,
        p[4].token is ParenthesisOpen,
        p[3].token == (Token::Test { test: a, capability: None }),
        p[2].token is Comma,
        p[1].token == (Token::Test { test: b, capability: None }),
        p[0].token is ParenthesisClose,
        max_nested >= 1,
        s.len() + 4 < UNPATCHED,
    ensures
        compile_spec(initial_state(s), p, caps, plugins, max_nested) == Some(
            (Ok::<(), CompileError>(()), two_test_stream(s, p[5].token is AllOf, a, b), Seq::<TokenInfo>::empty()),
        ),
{
    let all = p[5].token is AllOf;
    let st0 = initial_state(s);
    let b0 = st0.block;
    let p1 = p.subrange(0, 4);
    let p3 = p.subrange(0, 2);
    let p4 = p.subrange(0, 1);
    assert(p.drop_last() =~= p.subrange(0, 5));
    assert(p.subrange(0, 5).drop_last() =~= p1);
    assert(p1.drop_last() =~= p.subrange(0, 3));
    assert(p.subrange(0, 3).drop_last() =~= p3);
    assert(p3.drop_last() =~= p4);
    assert(p4.drop_last() =~= Seq::<TokenInfo>::empty());
    let blk = Block { is_all: all, is_not: false, p_count: 0, jmp_base: 0 };
    let st1 = ParseState { stack: seq![b0], block: blk, is_not: false, ..st0 };
    assert(st0.stack.push(b0) =~= seq![b0]);
    assert(compile_spec(st0, p, caps, plugins, max_nested) == compile_spec(st1, p1, caps, plugins, max_nested));
    let i2 = s.push(Instruction::Test(a));
    let st2 = ParseState { instrs: i2, ..st1 };
    assert(close_parens(p.subrange(0, 3), 0) == Ok::<Seq<TokenInfo>, (CompileError, Seq<TokenInfo>)>(p.subrange(0, 3)));
    assert(compile_spec(st1, p1, caps, plugins, max_nested) == finish_leaf(
        st1, a, false, close_parens(p.subrange(0, 3), 0), 4, caps, plugins, max_nested,
    ));
    assert(finish_leaf(st1, a, false, close_parens(p.subrange(0, 3), 0), 4, caps, plugins, max_nested)
        == compile_spec(st2, p.subrange(0, 3), caps, plugins, max_nested));
    let j = if all { Instruction::Jz(UNPATCHED) } else { Instruction::Jnz(UNPATCHED) };
    let i3 = i2.push(j);
    let st3 = ParseState { instrs: i3, pending: seq![(s.len() + 1) as usize], ..st2 };
    assert(st2.pending.push(i2.len() as usize) =~= seq![(s.len() + 1) as usize]);
    assert(compile_spec(st2, p.subrange(0, 3), caps, plugins, max_nested) == compile_spec(st3, p3, caps, plugins, max_nested));
    let i4 = i3.push(Instruction::Test(b));
    let st4 = ParseState { instrs: i4, ..st3 };
    assert(close_parens(p4, 0) == Ok::<Seq<TokenInfo>, (CompileError, Seq<TokenInfo>)>(p4));
    assert(compile_spec(st3, p3, caps, plugins, max_nested) == finish_leaf(
        st3, b, false, close_parens(p4, 0), 2, caps, plugins, max_nested,
    ));
    assert(finish_leaf(st3, b, false, close_parens(p4, 0), 2, caps, plugins, max_nested)
        == compile_spec(st4, p4, caps, plugins, max_nested));
    let js = st4.pending.subrange(0, 1);
    assert(js =~= seq![(s.len() + 1) as usize]);
    assert(js.drop_last() =~= Seq::<usize>::empty());
    let patched = patch(i4, js, i4.len() as usize);
    assert(patch(i4, js.drop_last(), i4.len() as usize) == i4);
    assert(patched == retarget(i4, (s.len() + 1) as int, i4.len() as usize));
    assert(patched.push(Instruction::Jz(UNPATCHED)) =~= two_test_stream(s, all, a, b));
}

/// `not allof(a, b)` and `not anyof(a, b)` compile to the group of the
/// other mode over the negated tests: De Morgan, as `polarity` says.
pub proof fn lemma_negated_group_of_two(
    s: Seq<Instruction>,
    p: Seq<TokenInfo>,
    a: Test,
    b: Test,
    caps: Seq<Capability>,
    plugins: Seq<String>,
    max_nested: usize,
)
    requires
        p.len() == 7,
        p[6].token is Not,
        p[5].token is AllOf || p[5].token is AnyOf,
        p[4].token is ParenthesisOpen,
        p[3].token == (Token::Test { test: a, capability: None }),
        p[2].token is Comma,
        p[1].token == (Token::Test { test: b, capability: None }),
        p[0].token is ParenthesisClose,
        max_nested >= 1,
        s.len() + 4 < UNPATCHED,
    ensures
        compile_spec(initial_state(s), p, caps, plugins, max_nested) == Some(
            (
                Ok::<(), CompileError>(()),
                two_test_stream(s, !(p[5].token is AllOf), a.negated(), b.negated()),
                Seq::<TokenInfo>::empty(),
            ),
        ),
{
    let all = p[5].token is AllOf;
    let st0 = initial_state(s);
    let b0 = st0.block;
    let p6 = p.subrange(0, 6);
    let p1 = p.subrange(0, 4);
    let p3 = p.subrange(0, 2);
    let p4 = p.subrange(0, 1);
    assert(p.drop_last() =~= p6);
    assert(p6.drop_last() =~= p.subrange(0, 5));
    assert(p.subrange(0, 5).drop_last() =~= p1);
    assert(p1.drop_last() =~= p.subrange(0, 3));
    assert(p.subrange(0, 3).drop_last() =~= p3);
    assert(p3.drop_last() =~= p4);
    assert(p4.drop_last() =~= Seq::<TokenInfo>::empty());
    let stn = ParseState { is_not: true, ..st0 };
    assert(compile_spec(st0, p, caps, plugins, max_nested) == compile_spec(stn, p6, caps, plugins, max_nested));
    let blk = Block { is_all: !all, is_not: true, p_count: 0, jmp_base: 0 };
    let st1 = ParseState { stack: seq![b0], block: blk, is_not: true, ..st0 };
    assert(stn.stack.push(b0) =~= seq![b0]);
    assert(compile_spec(stn, p6, caps, plugins, max_nested) == compile_spec(st1, p1, caps, plugins, max_nested));
    let i2 = s.push(Instruction::Test(a.negated()));
    let st2 = ParseState { instrs: i2, ..st1 };
    assert(close_parens(p.subrange(0, 3), 0) == Ok::<Seq<TokenInfo>, (CompileError, Seq<TokenInfo>)>(p.subrange(0, 3)));
    assert(compile_spec(st1, p1, caps, plugins, max_nested) == finish_leaf(
        st1, a, true, close_parens(p.subrange(0, 3), 0), 4, caps, plugins, max_nested,
    ));
    assert(finish_leaf(st1, a, true, close_parens(p.subrange(0, 3), 0), 4, caps, plugins, max_nested)
        == compile_spec(st2, p.subrange(0, 3), caps, plugins, max_nested));
    let j = if !all { Instruction::Jz(UNPATCHED) } else { Instruction::Jnz(UNPATCHED) };
    let i3 = i2.push(j);
    let st3 = ParseState { instrs: i3, pending: seq![(s.len() + 1) as usize], ..st2 };
    assert(st2.pending.push(i2.len() as usize) =~= seq![(s.len() + 1) as usize]);
    assert(compile_spec(st2, p.subrange(0, 3), caps, plugins, max_nested) == compile_spec(st3, p3, caps, plugins, max_nested));
    let i4 = i3.push(Instruction::Test(b.negated()));
    let st4 = ParseState { instrs: i4, ..st3 };
    assert(close_parens(p4, 0) == Ok::<Seq<TokenInfo>, (CompileError, Seq<TokenInfo>)>(p4));
    assert(compile_spec(st3, p3, caps, plugins, max_nested) == finish_leaf(
        st3, b, true, close_parens(p4, 0), 2, caps, plugins, max_nested,
    ));
    assert(finish_leaf(st3, b, true, close_parens(p4, 0), 2, caps, plugins, max_nested)
        == compile_spec(st4, p4, caps, plugins, max_nested));
    let js = st4.pending.subrange(0, 1);
    assert(js =~= seq![(s.len() + 1) as usize]);
    assert(js.drop_last() =~= Seq::<usize>::empty());
    let patched = patch(i4, js, i4.len() as usize);
    assert(patch(i4, js.drop_last(), i4.len() as usize) == i4);
    assert(patched == retarget(i4, (s.len() + 1) as int, i4.len() as usize));
    assert(patched.push(Instruction::Jz(UNPATCHED)) =~= two_test_stream(s, !all, a.negated(), b.negated()));
}

/// `allof(not a, not b)` and `anyof(not a, not b)` compile to the group of
/// the same mode over the negated tests.
pub proof fn lemma_group_of_two_negated(
    s: Seq<Instruction>,
    p: Seq<TokenInfo>,
    a: Test,
    b: Test,
    caps: Seq<Capability>,
    plugins: Seq<String>,
    max_nested: usize,
)
    requires
        p.len() == 8,
        p[7].token is AllOf || p[7].token is AnyOf,
        p[6].token is ParenthesisOpen,
        p[5].token is Not,
        p[4].token == (Token::Test { test: a, capability: None }),
        p[3].token is Comma,
        p[2].token is Not,
        p[1].token == (Token::Test { test: b, capability: None }),
        p[0].token is ParenthesisClose,
        max_nested >= 1,
        s.len() + 4 < UNPATCHED,
    ensures
        compile_spec(initial_state(s), p, caps, plugins, max_nested) == Some(
            (
                Ok::<(), CompileError>(()),
                two_test_stream(s, p[7].token is AllOf, a.negated(), b.negated()),
                Seq::<TokenInfo>::empty(),
            ),
        ),
{
    let all = p[7].token is AllOf;
    let st0 = initial_state(s);
    let b0 = st0.block;
    assert(p.drop_last() =~= p.subrange(0, 7));
    assert(p.subrange(0, 7).drop_last() =~= p.subrange(0, 6));
    assert(p.subrange(0, 6).drop_last() =~= p.subrange(0, 5));
    assert(p.subrange(0, 5).drop_last() =~= p.subrange(0, 4));
    assert(p.subrange(0, 4).drop_last() =~= p.subrange(0, 3));
    assert(p.subrange(0, 3).drop_last() =~= p.subrange(0, 2));
    assert(p.subrange(0, 2).drop_last() =~= p.subrange(0, 1));
    assert(p.subrange(0, 1).drop_last() =~= Seq::<TokenInfo>::empty());
    let blk = Block { is_all: all, is_not: false, p_count: 0, jmp_base: 0 };
    let st1 = ParseState { stack: seq![b0], block: blk, is_not: false, ..st0 };
    assert(st0.stack.push(b0) =~= seq![b0]);
    assert(compile_spec(st0, p, caps, plugins, max_nested) == compile_spec(st1, p.subrange(0, 6), caps, plugins, max_nested));
    let st1n = ParseState { is_not: true, ..st1 };
    assert(compile_spec(st1, p.subrange(0, 6), caps, plugins, max_nested) == compile_spec(st1n, p.subrange(0, 5), caps, plugins, max_nested));
    let i2 = s.push(Instruction::Test(a.negated()));
    let st2 = ParseState { instrs: i2, ..st1n };
    assert(close_parens(p.subrange(0, 4), 0) == Ok::<Seq<TokenInfo>, (CompileError, Seq<TokenInfo>)>(p.subrange(0, 4)));
    assert(compile_spec(st1n, p.subrange(0, 5), caps, plugins, max_nested) == finish_leaf(
        st1n, a, true, close_parens(p.subrange(0, 4), 0), 5, caps, plugins, max_nested,
    ));
    assert(finish_leaf(st1n, a, true, close_parens(p.subrange(0, 4), 0), 5, caps, plugins, max_nested)
        == compile_spec(st2, p.subrange(0, 4), caps, plugins, max_nested));
    let j = if all { Instruction::Jz(UNPATCHED) } else { Instruction::Jnz(UNPATCHED) };
    let i3 = i2.push(j);
    let st3 = ParseState { instrs: i3, pending: seq![(s.len() + 1) as usize], is_not: false, ..st2 };
    assert(st2.pending.push(i2.len() as usize) =~= seq![(s.len() + 1) as usize]);
    assert(compile_spec(st2, p.subrange(0, 4), caps, plugins, max_nested) == compile_spec(st3, p.subrange(0, 3), caps, plugins, max_nested));
    let st3n = ParseState { is_not: true, ..st3 };
    assert(compile_spec(st3, p.subrange(0, 3), caps, plugins, max_nested) == compile_spec(st3n, p.subrange(0, 2), caps, plugins, max_nested));
    let i4 = i3.push(Instruction::Test(b.negated()));
    let st4 = ParseState { instrs: i4, ..st3n };
    assert(close_parens(p.subrange(0, 1), 0) == Ok::<Seq<TokenInfo>, (CompileError, Seq<TokenInfo>)>(p.subrange(0, 1)));
    assert(compile_spec(st3n, p.subrange(0, 2), caps, plugins, max_nested) == finish_leaf(
        st3n, b, true, close_parens(p.subrange(0, 1), 0), 2, caps, plugins, max_nested,
    ));
    assert(finish_leaf(st3n, b, true, close_parens(p.subrange(0, 1), 0), 2, caps, plugins, max_nested)
        == compile_spec(st4, p.subrange(0, 1), caps, plugins, max_nested));
    let js = st4.pending.subrange(0, 1);
    assert(js =~= seq![(s.len() + 1) as usize]);
    assert(js.drop_last() =~= Seq::<usize>::empty());
    let patched = patch(i4, js, i4.len() as usize);
    assert(patch(i4, js.drop_last(), i4.len() as usize) == i4);
    assert(patched == retarget(i4, (s.len() + 1) as int, i4.len() as usize));
    assert(patched.push(Instruction::Jz(UNPATCHED)) =~= two_test_stream(s, all, a.negated(), b.negated()));
}

/// De Morgan on compiled streams: from the same instructions,
/// `not allof(a, b)` compiles to exactly the stream of
/// `anyof(not a, not b)`, and `not anyof(a, b)` to that of
/// `allof(not a, not b)`.
pub proof fn lemma_de_morgan_compiled(
    s: Seq<Instruction>,
    p: Seq<TokenInfo>,
    q: Seq<TokenInfo>,
    a: Test,
    b: Test,
    caps: Seq<Capability>,
    plugins: Seq<String>,
    max_nested: usize,
)
    requires
        p.len() == 7,
        p[6].token is Not,
        p[5].token is AllOf || p[5].token is AnyOf,
        p[4].token is ParenthesisOpen,
        p[3].token == (Token::Test { test: a, capability: None }),
        p[2].token is Comma,
        p[1].token == (Token::Test { test: b, capability: None }),
        p[0].token is ParenthesisClose,
        q.len() == 8,
        q[7].token is AllOf || q[7].token is AnyOf,
        (q[7].token is AllOf) != (p[5].token is AllOf),
        q[6].token is ParenthesisOpen,
        q[5].token is Not,
        q[4].token == (Token::Test { test: a, capability: None }),
        q[3].token is Comma,
        q[2].token is Not,
        q[1].token == (Token::Test { test: b, capability: None }),
        q[0].token is ParenthesisClose,
        max_nested >= 1,
        s.len() + 4 < UNPATCHED,
    ensures
        compile_spec(initial_state(s), p, caps, plugins, max_nested) == compile_spec(
            initial_state(s),
            q,
            caps,
            plugins,
            max_nested,
        ),
{
    lemma_negated_group_of_two(s, p, a, b, caps, plugins, max_nested);
    lemma_group_of_two_negated(s, q, a, b, caps, plugins, max_nested);
}

/// `allof(not a)` (and `anyof(not a)`) compiles to the negated test and
/// the trailing jump: a group of one test emits no short-circuit jump.
pub proof fn lemma_group_of_one_negated(
    s: Seq<Instruction>,
    p: Seq<TokenInfo>,
    a: Test,
    caps: Seq<Capability>,
    plugins: Seq<String>,
    max_nested: usize,
)
    requires
        p.len() == 5,
        p[4].token is AllOf || p[4].token is AnyOf,
        p[3].token is ParenthesisOpen,
        p[2].token is Not,
        p[1].token == (Token::Test { test: a, capability: None }),
        p[0].token is ParenthesisClose,
        max_nested >= 1,
        s.len() + 4 < UNPATCHED,
    ensures
        compile_spec(initial_state(s), p, caps, plugins, max_nested) == Some(
            (
                Ok::<(), CompileError>(()),
                s.push(Instruction::Test(a.negated())).push(Instruction::Jz(UNPATCHED)),
                Seq::<TokenInfo>::empty(),
            ),
        ),
{
    let all = p[4].token is AllOf;
    let st0 = initial_state(s);
    let b0 = st0.block;
    assert(p.drop_last() =~= p.subrange(0, 4));
    assert(p.subrange(0, 4).drop_last() =~= p.subrange(0, 3));
    assert(p.subrange(0, 3).drop_last() =~= p.subrange(0, 2));
    assert(p.subrange(0, 2).drop_last() =~= p.subrange(0, 1));
    assert(p.subrange(0, 1).drop_last() =~= Seq::<TokenInfo>::empty());
    let blk = Block { is_all: all, is_not: false, p_count: 0, jmp_base: 0 };
    let st1 = ParseState { stack: seq![b0], block: blk, is_not: false, ..st0 };
    assert(st0.stack.push(b0) =~= seq![b0]);
    assert(compile_spec(st0, p, caps, plugins, max_nested) == compile_spec(st1, p.subrange(0, 3), caps, plugins, max_nested));
    let st1n = ParseState { is_not: true, ..st1 };
    assert(compile_spec(st1, p.subrange(0, 3), caps, plugins, max_nested) == compile_spec(st1n, p.subrange(0, 2), caps, plugins, max_nested));
    let i2 = s.push(Instruction::Test(a.negated()));
    let st2 = ParseState { instrs: i2, ..st1n };
    assert(close_parens(p.subrange(0, 1), 0) == Ok::<Seq<TokenInfo>, (CompileError, Seq<TokenInfo>)>(p.subrange(0, 1)));
    assert(compile_spec(st1n, p.subrange(0, 2), caps, plugins, max_nested) == finish_leaf(
        st1n, a, true, close_parens(p.subrange(0, 1), 0), 2, caps, plugins, max_nested,
    ));
    assert(finish_leaf(st1n, a, true, close_parens(p.subrange(0, 1), 0), 2, caps, plugins, max_nested)
        == compile_spec(st2, p.subrange(0, 1), caps, plugins, max_nested));
    assert(st2.pending.subrange(0, 0) =~= Seq::<usize>::empty());
    assert(patch(i2, st2.pending.subrange(0, 0), i2.len() as usize) == i2);
}

/// In the stream of `allof(a, b)`, a false `a` ends the run after one test,
/// which fails: `b` is never evaluated.
pub proof fn lemma_allof_short_circuit(a: Test, b: Test, ctx: Context)
    requires
        !test_value(a, ctx),
    ensures
        chain_tests(two_test_stream(Seq::empty(), true, a, b), 0, false, ctx) == 1,
        !chain_value(two_test_stream(Seq::empty(), true, a, b), 0, false, ctx),
{
    let s = two_test_stream(Seq::empty(), true, a, b);
    lemma_false_skips(s, 0, false, ctx);
    assert(chain_tests(s, 3, false, ctx) == 0);
}

/// In the stream of `anyof(a, b)`, a true `a` ends the run after one test,
/// which succeeds: `b` is never evaluated.
pub proof fn lemma_anyof_short_circuit(a: Test, b: Test, ctx: Context)
    requires
        test_value(a, ctx),
    ensures
        chain_tests(two_test_stream(Seq::empty(), false, a, b), 0, false, ctx) == 1,
        chain_value(two_test_stream(Seq::empty(), false, a, b), 0, false, ctx),
{
    let s = two_test_stream(Seq::empty(), false, a, b);
    lemma_true_skips(s, 0, false, ctx);
    assert(chain_tests(s, 4, true, ctx) == 0);
    assert(chain_tests(s, 3, true, ctx) == 0);
    assert(chain_value(s, 4, true, ctx));
    assert(chain_value(s, 3, true, ctx));
}

} // verus!
