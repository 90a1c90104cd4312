use vstd::prelude::*;
use crate::leaf::{Comparator, Invalid, LeafTest, MatchType, Test, TestKind};

verus! {

/// A jump target not yet known.
pub const UNPATCHED: usize = usize::MAX;

/// An optional extension that a script must declare before using its tests.
#[derive(Debug, Clone, Copy, PartialEq, Eq, Structural)]
pub enum Capability {
    Envelope,
    Body,
    Convert,
    Date,
    Duplicate,
    Variables,
    Enotify,
    Environment,
    ExtLists,
    Ihave,
    Imap4Flags,
    Mailbox,
    MboxMetadata,
    ServerMetadata,
    MailboxId,
    SpamTest,
    VirusTest,
    SpecialUse,
    Eval,
    Plugins,
}

/// A token of a test expression. A known test name comes with its
/// arguments already parsed into a leaf test, and with the capability it
/// needs, if any.
#[derive(Debug)]
pub enum Token {
    Comma,
    ParenthesisOpen,
    ParenthesisClose,
    CurlyOpen,
    Not,
    AnyOf,
    AllOf,
    True,
    False,
    Test { test: Test, capability: Option<Capability> },
    /// A word that names no known test.
    Unknown(String),
    /// An `eval` test whose expression the expression parser rejected: the
    /// expression's source and the parser's message.
    InvalidExpression(String),
    /// A string or number argument.
    Argument(Vec<u8>),
}

/// A token with its source position.
#[derive(Debug)]
pub struct TokenInfo {
    pub token: Token,
    pub line_num: usize,
    pub line_pos: usize,
}

/// An instruction of the compiled script.
#[derive(Debug)]
pub enum Instruction {
    Test(Test),
    /// Jump to the target when the last test was false.
    Jz(usize),
    /// Jump to the target when the last test was true.
    Jnz(usize),
}

#[derive(Debug, Clone, PartialEq, Eq)]
pub enum ErrorType {
    ExpectedTestName,
    ExpectedParenthesisOpen,
    ExpectedParenthesisClose,
    TooManyNestedTests,
    UndeclaredCapability(Capability),
    /// An `eval` expression that does not parse, with its source and the
    /// parser's message.
    InvalidExpression(String),
    UnexpectedEndOfInput,
}

/// A fatal compile error, at a source position (0, 0 at the end of input).
#[derive(Debug, Clone, PartialEq, Eq)]
pub struct CompileError {
    pub line_num: usize,
    pub line_pos: usize,
    pub error_type: ErrorType,
}

/// The tokens not yet consumed, held last-first so that the next one is
/// taken from the end.
pub struct TokenStream {
    rev: Vec<TokenInfo>,
}

impl TokenStream {
    /// The tokens not yet consumed, next one last.
    pub closed spec fn pending(&self) -> Seq<TokenInfo> {
        self.rev@
    }

    /// A stream of the given tokens, in order.
    pub fn new(tokens: Vec<TokenInfo>) -> (r: TokenStream)
        ensures
            r.pending().len() == tokens@.len(),
            forall|i: int|
                0 <= i < tokens@.len() ==> r.pending()[r.pending().len() - 1 - i] == tokens@[i],
    {
        let mut tokens = tokens;
        let ghost orig = tokens@;
        let mut rev: Vec<TokenInfo> = Vec::new();
        while tokens.len() > 0
            invariant
                tokens@.len() + rev@.len() == orig.len(),
                tokens@ == orig.subrange(0, tokens@.len() as int),
                forall|i: int| 0 <= i < rev@.len() ==> rev@[i] == orig[orig.len() - 1 - i],
            decreases tokens@.len(),
        {
            let t = tokens.pop().unwrap();
            rev.push(t);
        }
        TokenStream { rev }
    }

    /// The number of tokens not yet consumed.
    pub fn remaining(&self) -> (r: usize)
        ensures
            r == self.pending().len(),
    {
        self.rev.len()
    }

    /// Takes the next token.
    pub fn next(&mut self) -> (r: Option<TokenInfo>)
        ensures
            old(self).pending().len() == 0 ==> r is None && final(self).pending().len() == 0,
            old(self).pending().len() > 0 ==> r == Some(old(self).pending().last())
                && final(self).pending() == old(self).pending().drop_last(),
    {
        self.rev.pop()
    }

    /// The next token, left in place.
    pub fn peek(&self) -> (r: Option<&Token>)
        ensures
            self.pending().len() == 0 ==> r is None,
            self.pending().len() > 0 ==> r == Some(&self.pending().last().token),
    {
        if self.rev.len() == 0 {
            None
        } else {
            Some(&self.rev[self.rev.len() - 1].token)
        }
    }
}


/// Whether a token can start a test.
pub open spec fn starts_test(t: Token) -> bool {
    match t {
        Token::Not | Token::AnyOf | Token::AllOf | Token::True | Token::False => true,
        Token::Test { .. } | Token::Unknown(_) | Token::InvalidExpression(_) => true,
        _ => false,
    }
}

/// The target of a jump instruction.
pub open spec fn jump_target(i: Instruction) -> Option<usize> {
    match i {
        Instruction::Jz(t) => Some(t),
        Instruction::Jnz(t) => Some(t),
        Instruction::Test(_) => None,
    }
}

/// The instructions from `start` on form a closed chain: it ends with the
/// jump `Jz(UNPATCHED)` that the caller retargets, and every other jump in it
/// points forward, to an instruction of the stream or to its end.
pub open spec fn chain_closed(s: Seq<Instruction>, start: int) -> bool {
    &&& start < s.len()
    &&& s.last() == Instruction::Jz(UNPATCHED)
    &&& forall|i: int|
        #![trigger jump_target(s[i])]
        start <= i < s.len() - 1 ==> match jump_target(s[i]) {
            Some(t) => t != UNPATCHED && i < t && t < s.len(),
            None => true,
        }
}

/// How many `not` tokens come first in a pending token sequence (next token
/// last).
pub open spec fn leading_nots(p: Seq<TokenInfo>) -> nat
    decreases p.len(),
{
    if p.len() > 0 && p.last().token is Not {
        1 + leading_nots(p.drop_last())
    } else {
        0
    }
}

/// How many argument tokens come first in a pending token sequence (next
/// token last).
pub open spec fn trailing_args(q: Seq<TokenInfo>) -> nat
    decreases q.len(),
{
    if q.len() > 0 && q.last().token is Argument {
        1 + trailing_args(q.drop_last())
    } else {
        0
    }
}

/// Whether a plugin test of this name is registered.
pub open spec fn is_plugin_name(plugins: Seq<String>, name: String) -> bool {
    exists|j: int| 0 <= j < plugins.len() && plugins[j]@ == name@
}

/// The first token after the leading `not`s.
pub open spec fn head_of(p: Seq<TokenInfo>) -> TokenInfo {
    p[p.len() - 1 - leading_nots(p)]
}

/// A compile error at a token's position.
pub open spec fn err_at(t: TokenInfo, e: ErrorType) -> CompileError {
    CompileError { line_num: t.line_num, line_pos: t.line_pos, error_type: e }
}

/// The pending tokens start with `not`s and then a single test: `true`,
/// `false`, a known test whose capability (if any) is declared, or a name
/// that is neither a known test nor a registered plugin.
pub open spec fn single_test_input(p: Seq<TokenInfo>, caps: Seq<Capability>, plugins: Seq<String>) -> bool {
    leading_nots(p) < p.len() && match head_of(p).token {
        Token::True | Token::False => true,
        Token::Test { capability, .. } => match capability {
            None => true,
            Some(c) => caps.contains(c),
        },
        Token::Unknown(name) => !is_plugin_name(plugins, name),
        _ => false,
    }
}

/// The leaf that such an input names, before negation: an unknown name
/// becomes an `Invalid` test with its position.
pub open spec fn single_test_base(p: Seq<TokenInfo>) -> Test {
    let h = head_of(p);
    match h.token {
        Token::False => Test::False,
        Token::Test { test, .. } => test,
        Token::Unknown(name) => Test::Invalid(
            Invalid { name, line_num: h.line_num, line_pos: h.line_pos },
        ),
        _ => Test::True,
    }
}

/// The test that such an input compiles to: the leaf, negated when an odd
/// number of `not`s precede it.
pub open spec fn single_test(p: Seq<TokenInfo>) -> Test {
    if leading_nots(p) % 2 == 1 {
        single_test_base(p).negated()
    } else {
        single_test_base(p)
    }
}

/// How many tokens such an input takes: the `not`s, the test, and the
/// arguments that follow an unknown name.
pub open spec fn single_test_len(p: Seq<TokenInfo>) -> int {
    let n = leading_nots(p);
    n + 1 + match head_of(p).token {
        Token::Unknown(_) => trailing_args(p.subrange(0, p.len() - 1 - n)) as int,
        _ => 0,
    }
}

/// The error that compiling fails with at the first test of the input, if
/// it fails there: the input ends; a `not` is not followed by a test; a
/// token that cannot start a test (`,` `)` `{` or an argument) stands where
/// a test must; a capability is undeclared; an `eval` expression does not
/// parse; or a group is opened where no nesting is allowed.
pub open spec fn first_error(
    p: Seq<TokenInfo>,
    caps: Seq<Capability>,
    plugins: Seq<String>,
    max_nested: usize,
) -> Option<CompileError> {
    let n = leading_nots(p);
    if p.len() == 0 {
        Some(CompileError { line_num: 0, line_pos: 0, error_type: ErrorType::UnexpectedEndOfInput })
    } else if n > 0 && (n == p.len() || !starts_test(p[p.len() - 1 - n].token)) {
        Some(err_at(p[p.len() - n], ErrorType::ExpectedTestName))
    } else {
        let h = head_of(p);
        match h.token {
            Token::Comma | Token::ParenthesisClose | Token::CurlyOpen | Token::Argument(_) => Some(
                err_at(h, ErrorType::ExpectedTestName),
            ),
            Token::Test { capability, .. } => match capability {
                Some(c) => if caps.contains(c) {
                    None
                } else {
                    Some(err_at(h, ErrorType::UndeclaredCapability(c)))
                },
                None => None,
            },
            Token::Unknown(name) => if is_plugin_name(plugins, name) && !caps.contains(
                Capability::Plugins,
            ) {
                Some(err_at(h, ErrorType::UndeclaredCapability(Capability::Plugins)))
            } else {
                None
            },
            Token::InvalidExpression(m) => if !caps.contains(Capability::Eval) {
                Some(err_at(h, ErrorType::UndeclaredCapability(Capability::Eval)))
            } else {
                Some(err_at(h, ErrorType::InvalidExpression(m)))
            },
            Token::AnyOf | Token::AllOf => if max_nested == 0 {
                Some(err_at(h, ErrorType::TooManyNestedTests))
            } else {
                None
            },
            _ => None,
        }
    }
}

proof fn lemma_trailing_args_len(q: Seq<TokenInfo>)
    ensures
        trailing_args(q) <= q.len(),
    decreases q.len(),
{
    if q.len() > 0 {
        lemma_trailing_args_len(q.drop_last());
    }
}

proof fn lemma_leading_nots(p: Seq<TokenInfo>, j: int)
    requires
        0 <= j < leading_nots(p),
    ensures
        leading_nots(p) <= p.len(),
        p[p.len() - 1 - j].token is Not,
        leading_nots(p.subrange(0, p.len() - 1 - j)) == leading_nots(p) - j - 1,
    decreases p.len(),
{
    let q = p.drop_last();
    if j > 0 {
        lemma_leading_nots(q, j - 1);
        assert(q[q.len() - 1 - (j - 1)] == p[p.len() - 1 - j]);
        assert(q.subrange(0, q.len() - 1 - (j - 1)) =~= p.subrange(0, p.len() - 1 - j));
    } else {
        assert(q =~= p.subrange(0, p.len() - 1));
        lemma_leading_nots_len(q);
    }
}

proof fn lemma_leading_nots_len(p: Seq<TokenInfo>)
    ensures
        leading_nots(p) <= p.len(),
    decreases p.len(),
{
    if p.len() > 0 {
        lemma_leading_nots_len(p.drop_last());
    }
}

/// Every jump from `start` up to `end` comes right after a test.
pub open spec fn jumps_follow_tests(s: Seq<Instruction>, start: int, end: int) -> bool {
    forall|i: int|
        #![trigger jump_target(s[i])]
        start <= i < end && jump_target(s[i]) is Some ==> i >= 1 && s[i - 1] is Test
}

/// The open jumps of a chain under construction: `pending` lists, in
/// increasing order, exactly the jumps from `start` on that still point to
/// `UNPATCHED`; every other jump from `start` on points forward within the
/// stream or to its end.
pub open spec fn jumps_tracked(s: Seq<Instruction>, start: int, pending: Seq<usize>) -> bool {
    &&& forall|j1: int, j2: int|
        #![trigger pending[j1], pending[j2]]
        0 <= j1 < j2 < pending.len() ==> pending[j1] < pending[j2]
    &&& forall|j: int|
        #![trigger pending[j]]
        0 <= j < pending.len() ==> start <= pending[j] < s.len() && jump_target(s[pending[j] as int])
            == Some(UNPATCHED)
    &&& forall|i: int|
        #![trigger jump_target(s[i])]
        start <= i < s.len() ==> match jump_target(s[i]) {
            Some(t) => if t == UNPATCHED {
                exists|j: int| 0 <= j < pending.len() && pending[j] == i
            } else {
                i < t <= s.len()
            },
            None => true,
        }
}

/// Points the open jumps `pending[base..]` at the end of the stream and
/// drops them from the list.
fn close_group(
    instructions: &mut Vec<Instruction>,
    pending: &mut Vec<usize>,
    base: usize,
    start: Ghost<int>,
)
    requires
        base <= old(pending)@.len(),
        0 <= start@ <= old(instructions)@.len(),
        old(instructions)@.len() < UNPATCHED,
        jumps_tracked(old(instructions)@, start@, old(pending)@),
    ensures
        final(instructions)@.len() == old(instructions)@.len(),
        forall|i: int| 0 <= i < start@ ==> final(instructions)@[i] == old(instructions)@[i],
        final(pending)@ == old(pending)@.subrange(0, base as int),
        final(instructions)@ == patch(
            old(instructions)@,
            old(pending)@.subrange(base as int, old(pending)@.len() as int),
            old(instructions)@.len() as usize,
        ),
        jumps_tracked(final(instructions)@, start@, final(pending)@),
        forall|i: int|
            0 <= i < old(instructions)@.len() ==> (final(instructions)@[i] is Test <==> old(
                instructions,
            )@[i] is Test) && (jump_target(final(instructions)@[i]) is Some <==> jump_target(
                old(instructions)@[i],
            ) is Some),
{
    let ghost s0 = instructions@;
    let cur = instructions.len();
    let mut k: usize = base;
    while k < pending.len()
        invariant
            base <= k <= pending@.len(),
            pending@ == old(pending)@,
            cur == s0.len(),
            instructions@ == patch(s0, pending@.subrange(base as int, k as int), cur),
            instructions@.len() == s0.len(),
            0 <= start@ <= s0.len(),
            s0.len() < UNPATCHED,
            jumps_tracked(s0, start@, pending@),
            forall|i: int|
                0 <= i < s0.len() ==> instructions@[i] == s0[i] || (exists|j: int|
                    base <= j < k && pending@[j] == i),
            forall|j: int|
                base <= j < k ==> jump_target(#[trigger] instructions@[pending@[j] as int])
                    == Some(cur),
        decreases pending@.len() - k,
    {
        let idx = pending[k];
        assert(start@ <= idx < s0.len());
        assert(pending@.subrange(base as int, k + 1).drop_last() =~= pending@.subrange(
            base as int,
            k as int,
        ));
        let is_z = match &instructions[idx] {
            Instruction::Jz(_) => true,
            _ => false,
        };
        if is_z {
            instructions[idx] = Instruction::Jz(cur);
        } else {
            instructions[idx] = Instruction::Jnz(cur);
        }
        assert forall|j: int| base <= j <= k implies jump_target(
            #[trigger] instructions@[pending@[j] as int],
        ) == Some(cur) by {
            if j < k {
                assert(pending@[j] < pending@[k as int]);
            }
        }
        assert forall|i: int|
            0 <= i < s0.len() implies instructions@[i] == s0[i] || (exists|j: int|
                base <= j < k + 1 && pending@[j] == i) by {
            if i == idx {
                assert(pending@[k as int] == i);
            }
        }
        k = k + 1;
    }
    let ghost s1 = instructions@;
    assert forall|i: int| 0 <= i < s0.len() implies (s1[i] is Test <==> s0[i] is Test) && (
    jump_target(s1[i]) is Some <==> jump_target(s0[i]) is Some) by {
        if s1[i] != s0[i] {
            let j = choose|j: int| base <= j < k && pending@[j] == i;
            assert(jump_target(s1[pending@[j] as int]) == Some(cur));
            assert(jump_target(s0[pending@[j] as int]) == Some(UNPATCHED));
        }
    }
    pending.truncate(base);
    let ghost p = pending@;
    let ghost q = old(pending)@;
    assert forall|j: int| 0 <= j < p.len() implies start@ <= #[trigger] p[j] < s1.len()
        && jump_target(s1[p[j] as int]) == Some(UNPATCHED) by {
        assert(p[j] == q[j]);
        if s1[q[j] as int] != s0[q[j] as int] {
            let j2 = choose|j2: int| base <= j2 < q.len() && q[j2] == q[j];
            assert(q[j] < q[j2]);
        }
    }
    assert forall|i: int| start@ <= i < s1.len() implies match jump_target(#[trigger] s1[i]) {
        Some(t) => if t == UNPATCHED {
            exists|j: int| 0 <= j < p.len() && p[j] == i
        } else {
            i < t <= s1.len()
        },
        None => true,
    } by {
        if s1[i] == s0[i] {
            match jump_target(s0[i]) {
                Some(t) => {
                    if t == UNPATCHED {
                        let j = choose|j: int| 0 <= j < q.len() && q[j] == i;
                        if j >= base {
                            assert(jump_target(s1[q[j] as int]) == Some(cur));
                        } else {
                            assert(p[j] == i);
                        }
                    }
                },
                None => {},
            }
        } else {
            let j = choose|j: int| base <= j < q.len() && q[j] == i;
            assert(jump_target(s1[q[j] as int]) == Some(cur));
        }
    }
    assert forall|j1: int, j2: int| 0 <= j1 < j2 < p.len() implies p[j1] < p[j2] by {
        assert(p[j1] == q[j1] && p[j2] == q[j2]);
    }
}

/// What a group of test values means: with `is_all`, that every value
/// differs from `is_not`; otherwise that some value does.
pub open spec fn group_meaning(is_all: bool, is_not: bool, vals: Seq<bool>) -> bool {
    if is_all {
        forall|i: int| 0 <= i < vals.len() ==> vals[i] != is_not
    } else {
        exists|i: int| 0 <= i < vals.len() && vals[i] != is_not
    }
}

/// The mode of a group opened by `allof` (`all`) or `anyof` under a pending
/// negation `not`: `allof` keeps its mode when not negated and becomes
/// "any of the negations" when negated; `anyof` is the mirror. The second
/// component is the negation handed to each test of the group.
pub open spec fn polarity(all: bool, not: bool) -> (bool, bool) {
    (all != not, not)
}

/// The group mode for `allof` (`all`) or `anyof` under a pending negation.
pub fn group_polarity(all: bool, not: bool) -> (r: (bool, bool))
    ensures
        r == polarity(all, not),
{
    if all {
        if !not { (true, false) } else { (false, true) }
    } else if !not {
        (false, false)
    } else {
        (true, true)
    }
}

/// Whether a token can start a test.
fn is_test_start(t: Option<&Token>) -> (r: bool)
    ensures
        r == (t is Some && starts_test(*t.unwrap())),
{
    match t {
        Some(Token::Not) | Some(Token::AnyOf) | Some(Token::AllOf) => true,
        Some(Token::True) | Some(Token::False) => true,
        Some(Token::Test { .. }) | Some(Token::Unknown(_)) => true,
        Some(Token::InvalidExpression(_)) => true,
        _ => false,
    }
}

/// One open `allof` / `anyof` group.
#[derive(Debug, Clone, Copy)]
pub struct Block {
    /// All tests must hold (`allof`), rather than one (`anyof`).
    pub is_all: bool,
    /// Negation handed to each test of the group.
    pub is_not: bool,
    /// Redundant parentheses opened inside the group.
    pub p_count: u32,
    /// Where the group's jumps start in the list of open jumps.
    pub jmp_base: usize,
}

/// The compiler's state between two tokens: the instructions so far, the
/// enclosing groups, the innermost group, the open jumps, and the negation
/// pending for the next test.
pub struct ParseState {
    pub instrs: Seq<Instruction>,
    pub stack: Seq<Block>,
    pub block: Block,
    pub pending: Seq<usize>,
    pub is_not: bool,
}

/// The state a compilation starts from.
pub open spec fn initial_state(instrs: Seq<Instruction>) -> ParseState {
    ParseState {
        instrs,
        stack: Seq::empty(),
        block: Block { is_all: false, is_not: false, p_count: 0, jmp_base: 0 },
        pending: Seq::empty(),
        is_not: false,
    }
}

/// Points the jump at `i` to `t`.
pub open spec fn retarget(s: Seq<Instruction>, i: int, t: usize) -> Seq<Instruction> {
    match s[i] {
        Instruction::Jz(_) => s.update(i, Instruction::Jz(t)),
        Instruction::Jnz(_) => s.update(i, Instruction::Jnz(t)),
        _ => s,
    }
}

/// Points the jumps at the indices `js` to `t`.
pub open spec fn patch(s: Seq<Instruction>, js: Seq<usize>, t: usize) -> Seq<Instruction>
    decreases js.len(),
{
    if js.len() == 0 {
        s
    } else {
        retarget(patch(s, js.drop_last(), t), js.last() as int, t)
    }
}

/// Consumes `k` closing parentheses: the tokens left, or the error and the
/// tokens left after it.
pub open spec fn close_parens(p: Seq<TokenInfo>, k: nat) -> Result<
    Seq<TokenInfo>,
    (CompileError, Seq<TokenInfo>),
>
    decreases k,
{
    if k == 0 {
        Ok(p)
    } else if p.len() == 0 {
        Err((CompileError { line_num: 0, line_pos: 0, error_type: ErrorType::UnexpectedEndOfInput }, p))
    } else if p.last().token is ParenthesisClose {
        close_parens(p.drop_last(), (k - 1) as nat)
    } else {
        Err((err_at(p.last(), ErrorType::ExpectedParenthesisClose), p.drop_last()))
    }
}

/// The outcome of compiling a test expression: the result, the
/// instructions, and the tokens left.
pub type Outcome = (Result<(), CompileError>, Seq<Instruction>, Seq<TokenInfo>);

/// The test a token names, the negation to apply to it, and the tokens
/// left after it; or the error it gives; `None` for a registered plugin
/// test, whose arguments become a list that is not spelled out here.
pub open spec fn read_test(
    st: ParseState,
    t: TokenInfo,
    rest: Seq<TokenInfo>,
    caps: Seq<Capability>,
    plugins: Seq<String>,
) -> Option<Result<(Test, bool, Seq<TokenInfo>), ErrorType>> {
    match t.token {
        Token::True => Some(Ok(if !st.is_not { (Test::True, false, rest) } else { (Test::False, false, rest) })),
        Token::False => Some(Ok(if !st.is_not { (Test::False, false, rest) } else { (Test::True, false, rest) })),
        Token::Test { test, capability } => match capability {
            Some(c) => if caps.contains(c) {
                Some(Ok((test, st.is_not, rest)))
            } else {
                Some(Err(ErrorType::UndeclaredCapability(c)))
            },
            None => Some(Ok((test, st.is_not, rest))),
        },
        Token::InvalidExpression(m) => if !caps.contains(Capability::Eval) {
            Some(Err(ErrorType::UndeclaredCapability(Capability::Eval)))
        } else {
            Some(Err(ErrorType::InvalidExpression(m)))
        },
        Token::Unknown(name) => if is_plugin_name(plugins, name) {
            if !caps.contains(Capability::Plugins) {
                Some(Err(ErrorType::UndeclaredCapability(Capability::Plugins)))
            } else {
                None
            }
        } else {
            Some(Ok((
                Test::Invalid(Invalid { name, line_num: t.line_num, line_pos: t.line_pos }),
                st.is_not,
                rest.subrange(0, rest.len() - trailing_args(rest)),
            )))
        },
        _ => Some(Err(ErrorType::ExpectedTestName)),
    }
}

/// What compiling the pending tokens `p` (next token last) from state `st`
/// gives, token by token as the combinator compiler works: `not` flips the
/// pending negation; `allof` / `anyof` open a group whose mode and
/// negation follow `polarity`; a `,` between two tests of a group emits the
/// group's short-circuit jump (`Jz` for all-of, `Jnz` for any-of); a `(`
/// that opens no group is a redundant parenthesis, closed again by a `)`
/// or right after the next test; the `)` that closes a group points its
/// jumps at the end of the stream; each test is emitted with the pending
/// negation applied; the expression ends when the outermost test or group
/// is complete, and `Jz(UNPATCHED)` is appended. Errors leave the
/// instructions as they were. `None` where a registered plugin test is met.
pub open spec fn compile_spec(
    st: ParseState,
    p: Seq<TokenInfo>,
    caps: Seq<Capability>,
    plugins: Seq<String>,
    max_nested: usize,
) -> Option<Outcome>
    decreases p.len(), 1nat,
{
    if p.len() == 0 {
        Some((Err(CompileError { line_num: 0, line_pos: 0, error_type: ErrorType::UnexpectedEndOfInput }), st.instrs, p))
    } else {
        let t = p.last();
        let rest = p.drop_last();
        match t.token {
            Token::Comma => if st.stack.len() > 0 && st.instrs.len() > 0 && st.instrs.last() is Test
                && rest.len() > 0 && starts_test(rest.last().token) {
                compile_spec(
                    ParseState {
                        instrs: st.instrs.push(
                            if st.block.is_all { Instruction::Jz(UNPATCHED) } else { Instruction::Jnz(UNPATCHED) },
                        ),
                        pending: st.pending.push(st.instrs.len() as usize),
                        is_not: st.block.is_not,
                        ..st
                    },
                    rest, caps, plugins, max_nested,
                )
            } else {
                Some((Err(err_at(t, ErrorType::ExpectedTestName)), st.instrs, rest))
            },
            Token::ParenthesisOpen => if st.block.p_count == u32::MAX {
                Some((Err(err_at(t, ErrorType::TooManyNestedTests)), st.instrs, rest))
            } else {
                compile_spec(
                    ParseState { block: Block { p_count: (st.block.p_count + 1) as u32, ..st.block }, ..st },
                    rest, caps, plugins, max_nested,
                )
            },
            Token::ParenthesisClose => if st.block.p_count > 0 {
                compile_spec(
                    ParseState { block: Block { p_count: (st.block.p_count - 1) as u32, ..st.block }, ..st },
                    rest, caps, plugins, max_nested,
                )
            } else if st.stack.len() > 0 {
                let instrs = patch(
                    st.instrs,
                    st.pending.subrange(st.block.jmp_base as int, st.pending.len() as int),
                    st.instrs.len() as usize,
                );
                let outer = st.stack.last();
                if st.stack.len() == 1 {
                    Some((Ok(()), instrs.push(Instruction::Jz(UNPATCHED)), rest))
                } else {
                    compile_spec(
                        ParseState {
                            instrs,
                            stack: st.stack.drop_last(),
                            block: outer,
                            pending: st.pending.subrange(0, st.block.jmp_base as int),
                            is_not: outer.is_not,
                        },
                        rest, caps, plugins, max_nested,
                    )
                }
            } else {
                Some((Err(err_at(t, ErrorType::ExpectedTestName)), st.instrs, rest))
            },
            Token::Not => if rest.len() > 0 && starts_test(rest.last().token) {
                compile_spec(ParseState { is_not: !st.is_not, ..st }, rest, caps, plugins, max_nested)
            } else {
                Some((Err(err_at(t, ErrorType::ExpectedTestName)), st.instrs, rest))
            },
            Token::AnyOf | Token::AllOf => if st.stack.len() < max_nested {
                if rest.len() == 0 {
                    Some((Err(CompileError { line_num: 0, line_pos: 0, error_type: ErrorType::UnexpectedEndOfInput }), st.instrs, rest))
                } else if rest.last().token is ParenthesisOpen {
                    let pol = polarity(t.token is AllOf, st.is_not);
                    compile_spec(
                        ParseState {
                            stack: st.stack.push(st.block),
                            block: Block { is_all: pol.0, is_not: pol.1, p_count: 0, jmp_base: st.pending.len() as usize },
                            is_not: pol.1,
                            ..st
                        },
                        rest.drop_last(), caps, plugins, max_nested,
                    )
                } else {
                    Some((Err(err_at(rest.last(), ErrorType::ExpectedParenthesisOpen)), st.instrs, rest.drop_last()))
                }
            } else {
                Some((Err(err_at(t, ErrorType::TooManyNestedTests)), st.instrs, rest))
            },
            _ => match read_test(st, t, rest, caps, plugins) {
                None => None,
                Some(Err(e)) => Some((Err(err_at(t, e)), st.instrs, rest)),
                Some(Ok((test, neg, after))) => finish_leaf(
                    st, test, neg, close_parens(after, st.block.p_count as nat), p.len(), caps, plugins, max_nested,
                ),
            },
        }
    }
}

/// Whether a compilation from `instrs` of the pending tokens `p` that
/// returned `r`, leaving `out` as the instructions and `left` as the tokens
/// pending, did what `compile_spec` says, wherever it says anything.
pub open spec fn compiled_as(
    instrs: Seq<Instruction>,
    p: Seq<TokenInfo>,
    caps: Seq<Capability>,
    plugins: Seq<String>,
    max_nested: usize,
    r: Result<(), CompileError>,
    out: Seq<Instruction>,
    left: Seq<TokenInfo>,
) -> bool {
    let goal = compile_spec(initial_state(instrs), p, caps, plugins, max_nested);
    goal is Some ==> goal == Some((r, out, left))
}

/// What compiling gives once a test is read: `cp` is the outcome of closing
/// the redundant parentheses around it; on success the test is emitted with
/// negation `neg` applied, and compiling goes on (or ends, outside any
/// group). `bound` is the number of tokens pending before the test.
pub open spec fn finish_leaf(
    st: ParseState,
    test: Test,
    neg: bool,
    cp: Result<Seq<TokenInfo>, (CompileError, Seq<TokenInfo>)>,
    bound: nat,
    caps: Seq<Capability>,
    plugins: Seq<String>,
    max_nested: usize,
) -> Option<Outcome>
    decreases bound, 0nat,
{
    match cp {
        Err((e, left)) => Some((Err(e), st.instrs, left)),
        Ok(left) => {
            let instrs = st.instrs.push(Instruction::Test(if neg { test.negated() } else { test }));
            if st.stack.len() == 0 {
                Some((Ok(()), instrs.push(Instruction::Jz(UNPATCHED)), left))
            } else if left.len() < bound {
                compile_spec(
                    ParseState { instrs, block: Block { p_count: 0, ..st.block }, is_not: neg, ..st },
                    left, caps, plugins, max_nested,
                )
            } else {
                None
            }
        },
    }
}

/// The state of a script compilation: the tokens left, the instructions
/// emitted so far, the declared capabilities and the registered plugin tests.
pub struct CompilerState {
    pub tokens: TokenStream,
    pub instructions: Vec<Instruction>,
    pub capabilities: Vec<Capability>,
    pub plugins: Vec<String>,
    pub max_nested_tests: usize,
}

fn error_at(t: &TokenInfo, e: ErrorType) -> (r: CompileError)
    ensures
        r == (CompileError { line_num: t.line_num, line_pos: t.line_pos, error_type: e }),
{
    CompileError { line_num: t.line_num, line_pos: t.line_pos, error_type: e }
}

fn end_of_input() -> (r: CompileError)
    ensures
        r == (CompileError { line_num: 0, line_pos: 0, error_type: ErrorType::UnexpectedEndOfInput }),
{
    CompileError { line_num: 0, line_pos: 0, error_type: ErrorType::UnexpectedEndOfInput }
}

impl CompilerState {
    /// Whether the script declared a capability.
    pub fn is_declared(&self, c: Capability) -> (r: bool)
        ensures
            r == self.capabilities@.contains(c),
    {
        let mut i: usize = 0;
        while i < self.capabilities.len()
            invariant
                i <= self.capabilities@.len(),
                forall|j: int| 0 <= j < i ==> self.capabilities@[j] != c,
            decreases self.capabilities@.len() - i,
        {
            if self.capabilities[i] == c {
                return true;
            }
            i = i + 1;
        }
        false
    }

    /// Whether a plugin test of this name is registered.
    pub fn is_plugin(&self, name: &String) -> (r: bool)
        ensures
            r == exists|j: int| 0 <= j < self.plugins@.len() && self.plugins@[j]@ == name@,
    {
        let mut i: usize = 0;
        while i < self.plugins.len()
            invariant
                i <= self.plugins@.len(),
                forall|j: int| 0 <= j < i ==> self.plugins@[j]@ != name@,
            decreases self.plugins@.len() - i,
        {
            if self.plugins[i] == *name {
                return true;
            }
            i = i + 1;
        }
        false
    }

    /// Consumes the arguments that follow a test name.
    fn take_arguments(&mut self) -> (r: Vec<Vec<u8>>)
        ensures
            final(self).tokens.pending() == old(self).tokens.pending().subrange(
                0,
                old(self).tokens.pending().len() - trailing_args(old(self).tokens.pending()),
            ),
            final(self).tokens.pending().len() <= old(self).tokens.pending().len(),
            final(self).instructions == old(self).instructions,
            final(self).capabilities == old(self).capabilities,
            final(self).plugins == old(self).plugins,
            final(self).max_nested_tests == old(self).max_nested_tests,
    {
        let mut args: Vec<Vec<u8>> = Vec::new();
        let ghost o = self.tokens.pending();
        let ghost mut k: int = 0;
        assert(o.subrange(0, o.len() as int) =~= o);
        loop
            invariant
                o == old(self).tokens.pending(),
                0 <= k <= o.len(),
                self.tokens.pending() == o.subrange(0, o.len() - k),
                trailing_args(o) == k + trailing_args(self.tokens.pending()),
                self.instructions == old(self).instructions,
                self.capabilities == old(self).capabilities,
                self.plugins == old(self).plugins,
                self.max_nested_tests == old(self).max_nested_tests,
            ensures
                trailing_args(self.tokens.pending()) == 0,
            decreases self.tokens.pending().len(),
        {
            let is_arg = match self.tokens.peek() {
                Some(Token::Argument(_)) => true,
                _ => false,
            };
            if !is_arg {
                assert(trailing_args(self.tokens.pending()) == 0);
                break;
            }
            let ghost cur = self.tokens.pending();
            assert(trailing_args(cur) == 1 + trailing_args(cur.drop_last()));
            match self.tokens.next() {
                Some(TokenInfo { token: Token::Argument(a), .. }) => args.push(a),
                _ => {},
            }
            proof {
                assert(self.tokens.pending() =~= o.subrange(0, o.len() - (k + 1)));
                k = k + 1;
            }
        }
        args
    }

    /// Consumes the next token, which must be a closing parenthesis.
    fn expect_close(&mut self) -> (r: Result<(), CompileError>)
        ensures
            final(self).tokens.pending().len() < old(self).tokens.pending().len() || (
            old(self).tokens.pending().len() == 0 && r is Err),
            old(self).tokens.pending().len() == 0 ==> r == Err::<(), CompileError>(
                CompileError { line_num: 0, line_pos: 0, error_type: ErrorType::UnexpectedEndOfInput },
            ) && final(self).tokens.pending() == old(self).tokens.pending(),
            old(self).tokens.pending().len() > 0 ==> final(self).tokens.pending() == old(
                self,
            ).tokens.pending().drop_last() && r == if old(self).tokens.pending().last().token is ParenthesisClose {
                Ok::<(), CompileError>(())
            } else {
                Err(err_at(old(self).tokens.pending().last(), ErrorType::ExpectedParenthesisClose))
            },
            final(self).instructions == old(self).instructions,
            final(self).capabilities == old(self).capabilities,
            final(self).plugins == old(self).plugins,
            final(self).max_nested_tests == old(self).max_nested_tests,
    {
        match self.tokens.next() {
            Some(t) => match t.token {
                Token::ParenthesisClose => Ok(()),
                _ => Err(error_at(&t, ErrorType::ExpectedParenthesisClose)),
            },
            None => Err(end_of_input()),
        }
    }

    /// Consumes the next token, which must be an opening parenthesis.
    fn expect_open(&mut self) -> (r: Result<(), CompileError>)
        ensures
            final(self).tokens.pending().len() < old(self).tokens.pending().len() || (
            old(self).tokens.pending().len() == 0 && r is Err),
            old(self).tokens.pending().len() == 0 ==> r == Err::<(), CompileError>(
                CompileError { line_num: 0, line_pos: 0, error_type: ErrorType::UnexpectedEndOfInput },
            ) && final(self).tokens.pending() == old(self).tokens.pending(),
            old(self).tokens.pending().len() > 0 ==> final(self).tokens.pending() == old(
                self,
            ).tokens.pending().drop_last() && r == if old(self).tokens.pending().last().token is ParenthesisOpen {
                Ok::<(), CompileError>(())
            } else {
                Err(err_at(old(self).tokens.pending().last(), ErrorType::ExpectedParenthesisOpen))
            },
            final(self).instructions == old(self).instructions,
            final(self).capabilities == old(self).capabilities,
            final(self).plugins == old(self).plugins,
            final(self).max_nested_tests == old(self).max_nested_tests,
    {
        match self.tokens.next() {
            Some(t) => match t.token {
                Token::ParenthesisOpen => Ok(()),
                _ => Err(error_at(&t, ErrorType::ExpectedParenthesisOpen)),
            },
            None => Err(end_of_input()),
        }
    }
}


impl CompilerState {
    /// Compiles one test expression, appending a chain that ends with the
    /// jump `Jz(UNPATCHED)`, which the caller points at its own failure
    /// branch.
    ///
    /// What it returns, the instructions it leaves and the tokens it leaves
    /// pending are exactly what `compile_spec` gives (`compiled_as`), for
    /// every input up to the first registered plugin test. Besides: on
    /// success every other jump of the chain is patched, points forward and
    /// follows a test; instructions before the chain are kept; a single test
    /// after `not`s compiles to that test, negated for an odd count; and the
    /// errors at the first test (`first_error`) come with their position.
    #[verifier::rlimit(100)]
    #[verifier::spinoff_prover]
    pub fn parse_test(&mut self) -> (r: Result<(), CompileError>)
        requires
            old(self).instructions@.len() + old(self).tokens.pending().len() + 1 < UNPATCHED,
        ensures
            final(self).instructions@.len() >= old(self).instructions@.len(),
            forall|i: int|
                0 <= i < old(self).instructions@.len() ==> final(self).instructions@[i] == old(
                    self,
                ).instructions@[i],
            final(self).capabilities == old(self).capabilities,
            final(self).plugins == old(self).plugins,
            final(self).max_nested_tests == old(self).max_nested_tests,
            r is Ok ==> chain_closed(final(self).instructions@, old(self).instructions@.len() as int),
            r is Ok ==> jumps_follow_tests(
                final(self).instructions@,
                old(self).instructions@.len() as int,
                final(self).instructions@.len() - 1,
            ),
            single_test_input(
                old(self).tokens.pending(),
                old(self).capabilities@,
                old(self).plugins@,
            ) ==> r is Ok && final(self).instructions@ == old(self).instructions@.push(
                Instruction::Test(single_test(old(self).tokens.pending())),
            ).push(Instruction::Jz(UNPATCHED)) && final(self).tokens.pending() == old(
                self,
            ).tokens.pending().subrange(
                0,
                old(self).tokens.pending().len() - single_test_len(old(self).tokens.pending()),
            ),
            first_error(
                old(self).tokens.pending(),
                old(self).capabilities@,
                old(self).plugins@,
                old(self).max_nested_tests,
            ) is Some ==> r == Err::<(), CompileError>(
                first_error(
                    old(self).tokens.pending(),
                    old(self).capabilities@,
                    old(self).plugins@,
                    old(self).max_nested_tests,
                )->Some_0,
            ) && final(self).instructions@ == old(self).instructions@,
            compiled_as(
                old(self).instructions@,
                old(self).tokens.pending(),
                old(self).capabilities@,
                old(self).plugins@,
                old(self).max_nested_tests,
                r,
                final(self).instructions@,
                final(self).tokens.pending(),
            ),
    {
        let ghost start = self.instructions@.len() as int;
        let ghost bound = self.instructions@.len() + self.tokens.pending().len();
        let mut block_stack: Vec<Block> = Vec::new();
        let mut block = Block { is_all: false, is_not: false, p_count: 0, jmp_base: 0 };
        let mut pending: Vec<usize> = Vec::new();
        let mut is_not = false;
        let ghost orig = self.tokens.pending();
        let ghost n = leading_nots(orig);
        let ghost unit = single_test_input(orig, self.capabilities@, self.plugins@);
        let ghost fe = first_error(orig, self.capabilities@, self.plugins@, self.max_nested_tests);
        let ghost simple = unit || fe is Some;
        let ghost goal = compile_spec(initial_state(self.instructions@), orig, self.capabilities@, self.plugins@, self.max_nested_tests);
        assert(block_stack@ =~= Seq::<Block>::empty());
        assert(pending@ =~= Seq::<usize>::empty());
        let ghost mut c: int = 0;
        proof {
            lemma_leading_nots_len(orig);
            assert(orig.subrange(0, orig.len() as int) =~= orig);
        }

        loop
            invariant_except_break
                goal is Some ==> compile_spec(
                    ParseState { instrs: self.instructions@, stack: block_stack@, block, pending: pending@, is_not },
                    self.tokens.pending(),
                    old(self).capabilities@, old(self).plugins@, old(self).max_nested_tests,
                ) == goal,
                simple ==> 0 <= c <= n && self.tokens.pending() == orig.subrange(0, orig.len() - c)
                    && block_stack@.len() == 0 && block.p_count == 0
                    && self.instructions@ == old(self).instructions@ && is_not == (c % 2 == 1),
                simple && c == n ==> orig.len() == 0 || (n < orig.len() && (n > 0 ==> starts_test(
                    orig[orig.len() - 1 - n].token,
                ))),
            invariant
                orig == old(self).tokens.pending(),
                n == leading_nots(orig),
                n <= orig.len(),
                unit == single_test_input(orig, old(self).capabilities@, old(self).plugins@),
                fe == first_error(orig, old(self).capabilities@, old(self).plugins@, old(self).max_nested_tests),
                simple == (unit || fe is Some),
                goal == compile_spec(initial_state(old(self).instructions@), orig, old(self).capabilities@, old(self).plugins@, old(self).max_nested_tests),
                start <= self.instructions@.len(),
                forall|i: int|
                    0 <= i < start ==> self.instructions@[i] == old(self).instructions@[i],
                start == old(self).instructions@.len(),
                bound == old(self).instructions@.len() + old(self).tokens.pending().len(),
                bound + 1 < UNPATCHED,
                self.instructions@.len() + self.tokens.pending().len() <= bound,
                self.capabilities == old(self).capabilities,
                self.plugins == old(self).plugins,
                self.max_nested_tests == old(self).max_nested_tests,
                jumps_tracked(self.instructions@, start, pending@),
                jumps_follow_tests(self.instructions@, start, self.instructions@.len() as int),
                block.jmp_base <= pending@.len(),
                forall|k: int| 0 <= k < block_stack@.len() ==> #[trigger] block_stack@[k].jmp_base <= block.jmp_base,
                forall|k1: int, k2: int|
                    0 <= k1 <= k2 < block_stack@.len() ==> #[trigger] block_stack@[k1].jmp_base
                        <= #[trigger] block_stack@[k2].jmp_base,
                block_stack@.len() == 0 ==> pending@.len() == 0,
                block_stack@.len() == 1 ==> block.jmp_base == 0,
                block_stack@.len() >= 2 ==> block_stack@[1].jmp_base == 0,
            ensures
                block_stack@.len() == 0,
                fe is None,
                goal is Some ==> goal == Some((Ok::<(), CompileError>(()), self.instructions@.push(Instruction::Jz(UNPATCHED)), self.tokens.pending())),
                unit ==> self.instructions@ == old(self).instructions@.push(
                    Instruction::Test(single_test(orig)),
                ) && self.tokens.pending() == orig.subrange(0, orig.len() - single_test_len(orig)),
            decreases self.tokens.pending().len(),
        {
            let ghost st0 = ParseState { instrs: self.instructions@, stack: block_stack@, block, pending: pending@, is_not };
            let ghost p0 = self.tokens.pending();
            proof {
                if simple && c < n {
                    lemma_leading_nots(orig, c);
                }
            }
            let token_info = match self.tokens.next() {
                Some(t) => t,
                None => {
                    assert(self.tokens.pending() =~= p0);
                    return Err(end_of_input());
                },
            };
            proof {
                if simple {
                    assert(token_info == orig[orig.len() - 1 - c]);
                    if c + 1 < n {
                        lemma_leading_nots(orig, c + 1);
                    }
                    if c + 1 <= n {
                        assert(self.tokens.pending() =~= orig.subrange(0, orig.len() - (c + 1)));
                        if c + 1 < orig.len() {
                            assert(self.tokens.pending().last() == orig[orig.len() - 1 - (c + 1)]);
                        }
                    }
                }
            }
            let test: Test = match token_info.token {
                Token::Comma => {
                    let after_test = self.instructions.len() > 0 && match &self.instructions[self.instructions.len() - 1] {
                        Instruction::Test(_) => true,
                        _ => false,
                    };
                    if block_stack.len() > 0 && after_test && is_test_start(self.tokens.peek()) {
                        is_not = block.is_not;
                        let pos = self.instructions.len();
                        let ghost s0 = self.instructions@;
                        let ghost p0 = pending@;
                        pending.push(pos);
                        if block.is_all {
                            self.instructions.push(Instruction::Jz(UNPATCHED));
                        } else {
                            self.instructions.push(Instruction::Jnz(UNPATCHED));
                        }
                        assert(pending@[pending@.len() - 1] == pos);
                        assert(jumps_follow_tests(self.instructions@, start, self.instructions@.len() as int)) by {
                            assert forall|i: int|
                                start <= i < self.instructions@.len() && jump_target(#[trigger] self.instructions@[i]) is Some
                                implies i >= 1 && self.instructions@[i - 1] is Test by {
                                if i < pos {
                                    assert(self.instructions@[i] == s0[i]);
                                    assert(self.instructions@[i - 1] == s0[i - 1]);
                                }
                            }
                        }
                        assert(jumps_tracked(self.instructions@, start, pending@)) by {
                            assert forall|i: int|
                                start <= i < self.instructions@.len() implies match jump_target(
                                    #[trigger] self.instructions@[i],
                                ) {
                                    Some(t) => if t == UNPATCHED {
                                        exists|j: int| 0 <= j < pending@.len() && pending@[j] == i
                                    } else {
                                        i < t <= self.instructions@.len()
                                    },
                                    None => true,
                                } by {
                                if i == pos {
                                    assert(pending@[pending@.len() - 1] == i);
                                } else {
                                    assert(self.instructions@[i] == s0[i]);
                                    if jump_target(s0[i]) == Some(UNPATCHED) {
                                        let j = choose|j: int| 0 <= j < p0.len() && p0[j] == i;
                                        assert(pending@[j] == i);
                                    }
                                }
                            }
                        }
                        continue;
                    } else {
                        return Err(error_at(&token_info, ErrorType::ExpectedTestName));
                    }
                },
                Token::ParenthesisOpen => {
                    if block.p_count == u32::MAX {
                        return Err(error_at(&token_info, ErrorType::TooManyNestedTests));
                    }
                    block.p_count = block.p_count + 1;
                    continue;
                },
                Token::ParenthesisClose => {
                    if block.p_count > 0 {
                        block.p_count = block.p_count - 1;
                        continue;
                    } else if block_stack.len() > 0 {
                        let ghost st0 = block_stack@;
                        let prev_block = block_stack.pop().unwrap();
                        assert(prev_block == st0[st0.len() - 1]);
                        assert(prev_block.jmp_base <= block.jmp_base);
                        assert forall|k: int| 0 <= k < block_stack@.len() implies #[trigger] block_stack@[k].jmp_base
                            <= prev_block.jmp_base by {
                            assert(block_stack@[k] == st0[k]);
                            assert(st0[k].jmp_base <= st0[st0.len() - 1].jmp_base);
                        }
                        assert forall|k1: int, k2: int|
                            0 <= k1 <= k2 < block_stack@.len() implies #[trigger] block_stack@[k1].jmp_base
                                <= #[trigger] block_stack@[k2].jmp_base by {
                            assert(block_stack@[k1] == st0[k1] && block_stack@[k2] == st0[k2]);
                        }
                        assert(block_stack@.len() >= 1 ==> block_stack@[0] == st0[0]);
                        assert(block_stack@.len() >= 2 ==> block_stack@[1] == st0[1]);
                        close_group(&mut self.instructions, &mut pending, block.jmp_base, Ghost(start));
                        block = prev_block;
                        is_not = block.is_not;
                        if block_stack.len() == 0 {
                            break;
                        } else {
                            continue;
                        }
                    } else {
                        return Err(error_at(&token_info, ErrorType::ExpectedTestName));
                    }
                },
                Token::Not => {
                    if !is_test_start(self.tokens.peek()) {
                        return Err(error_at(&token_info, ErrorType::ExpectedTestName));
                    }
                    is_not = !is_not;
                    proof {
                        c = c + 1;
                    }
                    continue;
                },
                Token::AnyOf | Token::AllOf => {
                    if block_stack.len() < self.max_nested_tests {
                        let is_all_word = match token_info.token {
                            Token::AllOf => true,
                            _ => false,
                        };
                        self.expect_open()?;
                        block_stack.push(block);
                        let (is_all, block_is_not) = group_polarity(is_all_word, is_not);
                        block = Block { is_all, is_not: block_is_not, p_count: 0, jmp_base: pending.len() };
                        is_not = block_is_not;
                        continue;
                    } else {
                        return Err(error_at(&token_info, ErrorType::TooManyNestedTests));
                    }
                },
                Token::True => {
                    if !is_not {
                        Test::True
                    } else {
                        is_not = false;
                        Test::False
                    }
                },
                Token::False => {
                    if !is_not {
                        Test::False
                    } else {
                        is_not = false;
                        Test::True
                    }
                },
                Token::Test { test, capability } => {
                    match capability {
                        Some(c) => {
                            if !self.is_declared(c) {
                                return Err(
                                    CompileError {
                                        line_num: token_info.line_num,
                                        line_pos: token_info.line_pos,
                                        error_type: ErrorType::UndeclaredCapability(c),
                                    },
                                );
                            }
                        },
                        None => {},
                    }
                    test
                },
                Token::InvalidExpression(message) => {
                    if !self.is_declared(Capability::Eval) {
                        return Err(
                            CompileError {
                                line_num: token_info.line_num,
                                line_pos: token_info.line_pos,
                                error_type: ErrorType::UndeclaredCapability(Capability::Eval),
                            },
                        );
                    }
                    return Err(
                        CompileError {
                            line_num: token_info.line_num,
                            line_pos: token_info.line_pos,
                            error_type: ErrorType::InvalidExpression(message),
                        },
                    );
                },
                Token::Unknown(name) => {
                    if self.is_plugin(&name) {
                        if !self.is_declared(Capability::Plugins) {
                            return Err(
                                CompileError {
                                    line_num: token_info.line_num,
                                    line_pos: token_info.line_pos,
                                    error_type: ErrorType::UndeclaredCapability(Capability::Plugins),
                                },
                            );
                        }
                        let arguments = self.take_arguments();
                        Test::Leaf(
                            LeafTest {
                                kind: TestKind::Plugin,
                                keys: arguments,
                                sources: Vec::new(),
                                match_type: MatchType::Is,
                                comparator: Comparator::Octet,
                                empty_is_absent: false,
                                is_not: false,
                            },
                        )
                    } else {
                        let ghost before_args = self.tokens.pending();
                        self.take_arguments();
                        proof {
                            if simple {
                                assert(c == n);
                                assert(before_args =~= orig.subrange(0, orig.len() - 1 - n));
                                lemma_trailing_args_len(before_args);
                                assert(self.tokens.pending() =~= orig.subrange(
                                    0,
                                    orig.len() - single_test_len(orig),
                                ));
                            }
                        }
                        Test::Invalid(
                            Invalid {
                                name,
                                line_num: token_info.line_num,
                                line_pos: token_info.line_pos,
                            },
                        )
                    }
                },
                _ => {
                    return Err(error_at(&token_info, ErrorType::ExpectedTestName));
                },
            };

            assert(goal is Some ==> goal == finish_leaf(
                st0,
                test,
                is_not,
                close_parens(self.tokens.pending(), block.p_count as nat),
                p0.len(),
                old(self).capabilities@, old(self).plugins@, old(self).max_nested_tests,
            ));
            let ghost left = self.tokens.pending().len();
            let ghost leaf_now = unit;
            proof {
                if simple {
                    assert(c == n);
                    assert(unit);
                    if !(head_of(orig).token is Unknown) {
                        assert(self.tokens.pending() =~= orig.subrange(
                            0,
                            orig.len() - single_test_len(orig),
                        ));
                    }
                }
            }
            while block.p_count > 0
                invariant
                    self.tokens.pending().len() <= left,
                    left < p0.len(),
                    goal == compile_spec(initial_state(old(self).instructions@), orig, old(self).capabilities@, old(self).plugins@, old(self).max_nested_tests),
                    goal is Some ==> goal == finish_leaf(
                        st0,
                        test,
                        is_not,
                        close_parens(self.tokens.pending(), block.p_count as nat),
                        p0.len(),
                        old(self).capabilities@, old(self).plugins@, old(self).max_nested_tests,
                    ),
                    self.instructions@ == st0.instrs,
                    block_stack@ == st0.stack,
                    pending@ == st0.pending,
                    block.is_all == st0.block.is_all,
                    block.is_not == st0.block.is_not,
                    block.jmp_base == st0.block.jmp_base,
                    orig == old(self).tokens.pending(),
                    n == leading_nots(orig),
                    leaf_now == unit,
                    unit == single_test_input(orig, old(self).capabilities@, old(self).plugins@),
                    fe == first_error(orig, old(self).capabilities@, old(self).plugins@, old(self).max_nested_tests),
                    unit ==> fe is None,
                    fe is None,
                    leaf_now ==> block.p_count == 0 && block_stack@.len() == 0
                        && self.instructions@ == old(self).instructions@
                        && (if is_not { test.negated() } else { test }) == single_test(orig)
                        && self.tokens.pending() == orig.subrange(0, orig.len() - single_test_len(orig)),
                    start <= self.instructions@.len(),
                    forall|i: int|
                        0 <= i < start ==> self.instructions@[i] == old(self).instructions@[i],
                    start == old(self).instructions@.len(),
                    self.instructions@.len() + self.tokens.pending().len() < bound,
                    self.capabilities == old(self).capabilities,
                    self.plugins == old(self).plugins,
                    self.max_nested_tests == old(self).max_nested_tests,
                    jumps_tracked(self.instructions@, start, pending@),
                    jumps_follow_tests(self.instructions@, start, self.instructions@.len() as int),
                    block.jmp_base <= pending@.len(),
                    forall|k: int| 0 <= k < block_stack@.len() ==> #[trigger] block_stack@[k].jmp_base <= block.jmp_base,
                    forall|k1: int, k2: int|
                        0 <= k1 <= k2 < block_stack@.len() ==> #[trigger] block_stack@[k1].jmp_base
                            <= #[trigger] block_stack@[k2].jmp_base,
                    block_stack@.len() == 0 ==> pending@.len() == 0,
                    block_stack@.len() == 1 ==> block.jmp_base == 0,
                    block_stack@.len() >= 2 ==> block_stack@[1].jmp_base == 0,
                decreases block.p_count,
            {
                self.expect_close()?;
                block.p_count = block.p_count - 1;
            }

            let ghost before = self.instructions@;
            if !is_not {
                self.instructions.push(Instruction::Test(test));
            } else {
                self.instructions.push(Instruction::Test(test.set_not()));
            }
            assert(jumps_tracked(self.instructions@, start, pending@)) by {
                assert forall|i: int|
                    start <= i < self.instructions@.len() implies match jump_target(
                        #[trigger] self.instructions@[i],
                    ) {
                        Some(t) => if t == UNPATCHED {
                            exists|j: int| 0 <= j < pending@.len() && pending@[j] == i
                        } else {
                            i < t <= self.instructions@.len()
                        },
                        None => true,
                    } by {
                    if i < before.len() {
                        assert(self.instructions@[i] == before[i]);
                    }
                }
            }
            assert(jumps_follow_tests(self.instructions@, start, self.instructions@.len() as int)) by {
                assert forall|i: int|
                    start <= i < self.instructions@.len() && jump_target(#[trigger] self.instructions@[i]) is Some
                    implies i >= 1 && self.instructions@[i - 1] is Test by {
                    assert(self.instructions@[i] == before[i]);
                    assert(self.instructions@[i - 1] == before[i - 1]);
                }
            }

            if block_stack.len() == 0 {
                break;
            }
        }

        assert(pending@.len() == 0);
        let ghost before = self.instructions@;
        self.instructions.push(Instruction::Jz(UNPATCHED));
        assert forall|i: int|
            start <= i < self.instructions@.len() - 1 implies match jump_target(
                #[trigger] self.instructions@[i],
            ) {
                Some(t) => t != UNPATCHED && i < t && t < self.instructions@.len(),
                None => true,
            } by {
            assert(self.instructions@[i] == before[i]);
        }
        assert forall|i: int|
            start <= i < self.instructions@.len() - 1 && jump_target(#[trigger] self.instructions@[i]) is Some
            implies i >= 1 && self.instructions@[i - 1] is Test by {
            assert(self.instructions@[i] == before[i]);
            assert(self.instructions@[i - 1] == before[i - 1]);
        }
        Ok(())
    }
}

} // verus!
