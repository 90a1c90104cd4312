use vstd::prelude::*;
use crate::bytes::NUMBER_LIMIT;
use crate::compiler::{Instruction, UNPATCHED};
use crate::leaf::Test;
use crate::matching::{test_value, Context};

verus! {

/// Whether a jump from `pc` to `t` is one this runner takes: forward, to a
/// known target within a stream of length `len` or to its end.
pub open spec fn forward(pc: int, t: usize, len: int) -> bool {
    t != UNPATCHED && pc < t <= len
}

/// The value of running a chain from `pc`, where `last` is the value of the
/// last test: a taken jump to `UNPATCHED` (or backwards) means false, and
/// running off the end means true.
pub open spec fn chain_value(s: Seq<Instruction>, pc: int, last: bool, ctx: Context) -> bool
    decreases s.len() - pc,
{
    if pc < 0 || pc >= s.len() {
        true
    } else {
        match s[pc] {
            Instruction::Test(t) => chain_value(s, pc + 1, test_value(t, ctx), ctx),
            Instruction::Jz(t) => if last {
                chain_value(s, pc + 1, last, ctx)
            } else if forward(pc, t, s.len() as int) {
                chain_value(s, t as int, last, ctx)
            } else {
                false
            },
            Instruction::Jnz(t) => if !last {
                chain_value(s, pc + 1, last, ctx)
            } else if forward(pc, t, s.len() as int) {
                chain_value(s, t as int, last, ctx)
            } else {
                false
            },
        }
    }
}

/// How many tests running a chain from `pc` evaluates.
pub open spec fn chain_tests(s: Seq<Instruction>, pc: int, last: bool, ctx: Context) -> nat
    decreases s.len() - pc,
{
    if pc < 0 || pc >= s.len() {
        0
    } else {
        match s[pc] {
            Instruction::Test(t) => 1 + chain_tests(s, pc + 1, test_value(t, ctx), ctx),
            Instruction::Jz(t) => if last {
                chain_tests(s, pc + 1, last, ctx)
            } else if forward(pc, t, s.len() as int) {
                chain_tests(s, t as int, last, ctx)
            } else {
                0
            },
            Instruction::Jnz(t) => if !last {
                chain_tests(s, pc + 1, last, ctx)
            } else if forward(pc, t, s.len() as int) {
                chain_tests(s, t as int, last, ctx)
            } else {
                0
            },
        }
    }
}

/// Whether every leaf test of a stream has a source list of workable size.
pub open spec fn sources_bounded(s: Seq<Instruction>) -> bool {
    forall|i: int|
        0 <= i < s.len() ==> match #[trigger] s[i] {
            Instruction::Test(Test::Leaf(l)) => l.sources@.len() < NUMBER_LIMIT,
            _ => true,
        }
}

/// Runs a compiled chain from `start` against a message: returns whether the
/// test expression holds and how many tests were evaluated. Evaluation
/// stops as soon as a jump is taken out of a group, so a test that cannot
/// change the outcome is never evaluated.
pub fn run_chain(
    instructions: &Vec<Instruction>,
    start: usize,
    ctx: &Context,
    captures: &mut Vec<Vec<u8>>,
) -> (r: (bool, usize))
    requires
        sources_bounded(instructions@),
    ensures
        r.0 == chain_value(instructions@, start as int, false, *ctx),
        r.1 as int == chain_tests(instructions@, start as int, false, *ctx),
{
    let ghost s = instructions@;
    let mut pc: usize = start;
    let mut last: bool = false;
    let mut count: usize = 0;
    while pc < instructions.len()
        invariant
            s == instructions@,
            sources_bounded(s),
            count <= pc,
            chain_value(s, start as int, false, *ctx) == chain_value(s, pc as int, last, *ctx),
            chain_tests(s, start as int, false, *ctx) == count + chain_tests(
                s,
                pc as int,
                last,
                *ctx,
            ),
        decreases instructions@.len() - pc,
    {
        match &instructions[pc] {
            Instruction::Test(t) => {
                last = t.check(ctx, captures);
                count = count + 1;
                pc = pc + 1;
            },
            Instruction::Jz(t) => {
                if last {
                    pc = pc + 1;
                } else if *t != UNPATCHED && *t > pc && *t <= instructions.len() {
                    pc = *t;
                } else {
                    return (false, count);
                }
            },
            Instruction::Jnz(t) => {
                if !last {
                    pc = pc + 1;
                } else if *t != UNPATCHED && *t > pc && *t <= instructions.len() {
                    pc = *t;
                } else {
                    return (false, count);
                }
            },
        }
    }
    (true, count)
}

} // verus!
