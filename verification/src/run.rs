//! What a command stream leaves in its buffers, and why a warm-up changes none of it.
//!
//! The meaning of a command is a function of what it reads. `ffn7::meaning` and `output31::meaning` give
//! it for the commands of the kernels.

use vstd::prelude::*;

use crate::context::{
    flows, unread, writes, writes_once, written, Buffer, Command, Operands,
};
use crate::ffn7::order::law_feedforward_warm_up;
use crate::ffn7::{feedforward_log, normalize_add_gate_log};
use crate::output31::project_normalize_add_log;
use crate::qkv::warm_up_command;

verus! {

/// `x` and `y` hold the same in every buffer that `command` reads.
pub open spec fn same_inputs<V>(
    command: Command,
    x: spec_fn(Buffer) -> V,
    y: spec_fn(Buffer) -> V,
) -> bool {
    forall|b: Buffer| command.reads(b) ==> #[trigger] x(b) == y(b)
}

/// `step` gives what a command writes, and it looks at nothing but the buffers that the command reads.
pub open spec fn local<V>(step: spec_fn(Command, spec_fn(Buffer) -> V) -> V) -> bool {
    forall|command: Command, x: spec_fn(Buffer) -> V, y: spec_fn(Buffer) -> V|
        same_inputs(command, x, y) ==> #[trigger] step(command, x) == #[trigger] step(command, y)
}

/// What the buffers hold after `log`, run on `memory` in the order of issue.
pub open spec fn run<V>(
    step: spec_fn(Command, spec_fn(Buffer) -> V) -> V,
    memory: spec_fn(Buffer) -> V,
    log: Seq<Command>,
) -> spec_fn(Buffer) -> V
    decreases log.len(),
{
    if log.len() == 0 {
        memory
    } else {
        let before = run(step, memory, log.drop_last());
        let command = log.last();
        |b: Buffer| if b == command.target { step(command, before) } else { before(b) }
    }
}

/// What a buffer holds: numbers or four-bit codes, element `e` of slice `s`. Device memory is one slice.
pub struct Cells<N> {
    pub numbers: spec_fn(int, int) -> N,
    pub codes: spec_fn(int, int) -> u8,
}

impl<N> Cells<N> {
    /// Number `e` of slice `s`.
    pub open spec fn at(self, s: int, e: int) -> N {
        (self.numbers)(s, e)
    }

    /// Code `e` of slice `s`.
    pub open spec fn code(self, s: int, e: int) -> u8 {
        (self.codes)(s, e)
    }

    /// The first `n` numbers of slice `s`.
    pub open spec fn row(self, s: int, n: nat) -> Seq<N> {
        Seq::new(n, |e: int| self.at(s, e))
    }

    /// The first `n` codes of slice `s`.
    pub open spec fn code_row(self, s: int, n: nat) -> Seq<u8> {
        Seq::new(n, |e: int| self.code(s, e))
    }
}

/// A buffer of numbers.
pub open spec fn numbers<N>(f: spec_fn(int, int) -> N) -> Cells<N> {
    Cells { numbers: f, codes: |s: int, e: int| 0u8 }
}

/// A buffer of codes.
pub open spec fn codes<N>(f: spec_fn(int, int) -> u8) -> Cells<N> {
    Cells { numbers: |s: int, e: int| arbitrary(), codes: f }
}

/// The numbers `0 .. n` in device memory.
pub open spec fn listed<N>(v: Cells<N>, n: nat) -> Seq<N> {
    v.row(0, n)
}

/// The `n` numbers of slice `s` from `from` on.
pub open spec fn stretch<N>(v: Cells<N>, s: int, from: int, n: nat) -> Seq<N> {
    Seq::new(n, |i: int| v.at(s, from + i))
}

/// Word `e` of slice `s` where `a` holds the first `n` words and `b` the others.
pub open spec fn side_by_side<N>(a: Cells<N>, b: Cells<N>, n: int, s: int, e: int) -> N {
    if e < n {
        a.at(s, e)
    } else {
        b.at(s, e - n)
    }
}

/// What the operands hold.
pub open spec fn operand_values<V>(operands: Operands, memory: spec_fn(Buffer) -> V) -> Seq<V> {
    match operands {
        Operands::Nothing => seq![],
        Operands::One(a) => seq![memory(a)],
        Operands::Two(a, b) => seq![memory(a), memory(b)],
        Operands::Four(a, b, c, d) => seq![memory(a), memory(b), memory(c), memory(d)],
    }
}

/// The step of commands whose meaning is `value`, a function of what the source and the operands hold.
pub open spec fn step_of<V>(value: spec_fn(Command, V, Seq<V>) -> V) -> spec_fn(
    Command,
    spec_fn(Buffer) -> V,
) -> V {
    |command: Command, memory: spec_fn(Buffer) -> V|
        value(command, memory(command.source), operand_values(command.operands, memory))
}

/// Such a step looks at nothing but the buffers that the command reads.
pub proof fn law_step_local<V>(value: spec_fn(Command, V, Seq<V>) -> V)
    ensures
        local(step_of(value)),
{
    let step = step_of(value);
    assert forall|command: Command, x: spec_fn(Buffer) -> V, y: spec_fn(Buffer) -> V|
        same_inputs(command, x, y) implies #[trigger] step(command, x) == #[trigger] step(
        command,
        y,
    ) by {
        assert(command.reads(command.source));
        assert(x(command.source) == y(command.source));
        match command.operands {
            Operands::Nothing => {},
            Operands::One(a) => {
                assert(command.reads(a) && x(a) == y(a));
            },
            Operands::Two(a, b) => {
                assert(command.reads(a) && x(a) == y(a));
                assert(command.reads(b) && x(b) == y(b));
            },
            Operands::Four(a, b, c, d) => {
                assert(command.reads(a) && x(a) == y(a));
                assert(command.reads(b) && x(b) == y(b));
                assert(command.reads(c) && x(c) == y(c));
                assert(command.reads(d) && x(d) == y(d));
            },
        }
        assert(operand_values(command.operands, x) =~= operand_values(command.operands, y));
    }
}

/// Every target holds what its command gives on the same memory.
pub open spec fn settled<V>(
    step: spec_fn(Command, spec_fn(Buffer) -> V) -> V,
    memory: spec_fn(Buffer) -> V,
    log: Seq<Command>,
) -> bool {
    forall|i: int|
        0 <= i < log.len() ==> memory((#[trigger] log[i]).target) == step(log[i], memory)
}

/// `log` writes nothing that was ready before it.
pub open spec fn keeps(ready: spec_fn(Buffer) -> bool, log: Seq<Command>) -> bool {
    forall|b: Buffer| #[trigger] ready(b) ==> !writes(log, b)
}

/// What is not written from position `k` on stays as it was there.
proof fn lemma_unwritten<V>(
    step: spec_fn(Command, spec_fn(Buffer) -> V) -> V,
    memory: spec_fn(Buffer) -> V,
    log: Seq<Command>,
    k: int,
    b: Buffer,
)
    requires
        0 <= k <= log.len(),
        forall|j: int| k <= j < log.len() ==> (#[trigger] log[j]).target != b,
    ensures
        run(step, memory, log)(b) == run(step, memory, log.take(k))(b),
    decreases log.len(),
{
    if k < log.len() {
        let front = log.drop_last();
        assert(log.last() == log[log.len() - 1]);
        assert forall|j: int| k <= j < front.len() implies (#[trigger] front[j]).target != b by {
            assert(front[j] == log[j]);
        }
        lemma_unwritten(step, memory, front, k, b);
        assert(front.take(k) =~= log.take(k));
    } else {
        assert(log.take(k) =~= log);
    }
}

/// A stream that finds what it reads and overwrites nothing leaves a memory on which each of its
/// commands, run again, would change nothing. What it does not write stays.
pub proof fn law_settled<V>(
    step: spec_fn(Command, spec_fn(Buffer) -> V) -> V,
    memory: spec_fn(Buffer) -> V,
    log: Seq<Command>,
    ready: spec_fn(Buffer) -> bool,
)
    requires
        local(step),
        flows(ready, log),
        writes_once(log),
        keeps(ready, log),
    ensures
        settled(step, run(step, memory, log), log),
        forall|b: Buffer| !writes(log, b) ==> #[trigger] run(step, memory, log)(b) == memory(b),
{
    let after = run(step, memory, log);
    assert forall|i: int| 0 <= i < log.len() implies after((#[trigger] log[i]).target) == step(
        log[i],
        after,
    ) by {
        let command = log[i];
        let before = run(step, memory, log.take(i));
        assert(log.take(i + 1).drop_last() =~= log.take(i));
        assert(log.take(i + 1).last() == command);
        lemma_unwritten(step, memory, log, i + 1, command.target);
        assert(after(command.target) == step(command, before));
        assert forall|b: Buffer| command.reads(b) implies #[trigger] before(b) == after(b) by {
            assert(ready(b) || written(log, i, b));
            assert forall|j: int| i <= j < log.len() implies (#[trigger] log[j]).target != b by {
                if ready(b) {
                    assert(!writes(log, b));
                }
            }
            lemma_unwritten(step, memory, log, i, b);
        }
        assert(same_inputs(command, before, after));
        assert(step(command, before) == step(command, after));
    }
    assert forall|b: Buffer| !writes(log, b) implies #[trigger] after(b) == memory(b) by {
        lemma_unwritten(step, memory, log, 0, b);
        assert(log.take(0).len() == 0);
    }
}

/// What is settled for a stream is settled for both of its parts.
pub proof fn law_settled_parts<V>(
    step: spec_fn(Command, spec_fn(Buffer) -> V) -> V,
    memory: spec_fn(Buffer) -> V,
    a: Seq<Command>,
    b: Seq<Command>,
)
    requires
        settled(step, memory, a + b),
    ensures
        settled(step, memory, a),
        settled(step, memory, b),
{
    assert forall|i: int| 0 <= i < a.len() implies memory((#[trigger] a[i]).target) == step(
        a[i],
        memory,
    ) by {
        assert((a + b)[i] == a[i]);
    }
    assert forall|i: int| 0 <= i < b.len() implies memory((#[trigger] b[i]).target) == step(
        b[i],
        memory,
    ) by {
        assert((a + b)[a.len() + i] == b[i]);
    }
}

/// The kernels that this library streams.
#[derive(Clone, Copy, Debug, PartialEq, Eq, Structural)]
pub enum Kernel {
    WarmUp,
    FeedForward,
    PostNorm,
    OutputProjection,
}

/// The commands that a kernel adds.
pub open spec fn kernel_log(kernel: Kernel) -> Seq<Command> {
    match kernel {
        Kernel::WarmUp => seq![warm_up_command()],
        Kernel::FeedForward => feedforward_log(),
        Kernel::PostNorm => normalize_add_gate_log(),
        Kernel::OutputProjection => project_normalize_add_log(),
    }
}

/// The commands of kernels that are called one after the other.
pub open spec fn stream(kernels: Seq<Kernel>) -> Seq<Command>
    decreases kernels.len(),
{
    if kernels.len() == 0 {
        Seq::empty()
    } else {
        stream(kernels.drop_last()) + kernel_log(kernels.last())
    }
}

/// The kernels without the warm-ups among them.
pub open spec fn without_warm_ups(kernels: Seq<Kernel>) -> Seq<Kernel>
    decreases kernels.len(),
{
    if kernels.len() == 0 {
        kernels
    } else if kernels.last() == Kernel::WarmUp {
        without_warm_ups(kernels.drop_last())
    } else {
        without_warm_ups(kernels.drop_last()).push(kernels.last())
    }
}

/// Two streams, one behind the other: the second runs on what the first has left.
pub proof fn law_run_joined<V>(
    step: spec_fn(Command, spec_fn(Buffer) -> V) -> V,
    memory: spec_fn(Buffer) -> V,
    a: Seq<Command>,
    b: Seq<Command>,
)
    ensures
        run(step, memory, a + b) == run(step, run(step, memory, a), b),
    decreases b.len(),
{
    if b.len() == 0 {
        assert(a + b =~= a);
    } else {
        assert((a + b).drop_last() =~= a + b.drop_last());
        law_run_joined(step, memory, a, b.drop_last());
    }
}

/// A buffer that no command of `log` reads has no influence on what the others hold afterwards.
pub proof fn law_unread_buffer<V>(
    step: spec_fn(Command, spec_fn(Buffer) -> V) -> V,
    x: spec_fn(Buffer) -> V,
    y: spec_fn(Buffer) -> V,
    log: Seq<Command>,
    hidden: Buffer,
)
    requires
        local(step),
        unread(log, hidden),
        forall|b: Buffer| b != hidden ==> #[trigger] x(b) == y(b),
    ensures
        forall|b: Buffer|
            b != hidden ==> #[trigger] run(step, x, log)(b) == run(step, y, log)(b),
    decreases log.len(),
{
    if log.len() > 0 {
        let front = log.drop_last();
        assert(unread(front, hidden)) by {
            assert forall|i: int| 0 <= i < front.len() implies !(#[trigger] front[i]).reads(
                hidden,
            ) by {
                assert(front[i] == log[i]);
            }
        }
        law_unread_buffer(step, x, y, front, hidden);
        let command = log.last();
        assert(command == log[log.len() - 1]);
        assert(same_inputs(command, run(step, x, front), run(step, y, front)));
        assert(step(command, run(step, x, front)) == step(command, run(step, y, front)));
    }
}

/// No kernel reads what a warm-up writes.
pub proof fn law_discarded_unread(kernel: Kernel)
    ensures
        unread(kernel_log(kernel), Buffer::Discarded),
{
    law_feedforward_warm_up();
}

/// The warm-ups: kernels in any sequence, with warm-ups before, between and behind them, leave in every
/// buffer what they leave without. Only the buffer that a warm-up writes can differ.
pub proof fn law_warm_ups_change_nothing<V>(
    step: spec_fn(Command, spec_fn(Buffer) -> V) -> V,
    memory: spec_fn(Buffer) -> V,
    kernels: Seq<Kernel>,
)
    requires
        local(step),
    ensures
        forall|b: Buffer|
            b != Buffer::Discarded ==> #[trigger] run(step, memory, stream(kernels))(b) == run(
                step,
                memory,
                stream(without_warm_ups(kernels)),
            )(b),
    decreases kernels.len(),
{
    if kernels.len() > 0 {
        let front = kernels.drop_last();
        let last = kernels.last();
        let kept = without_warm_ups(front);
        law_warm_ups_change_nothing(step, memory, front);
        law_run_joined(step, memory, stream(front), kernel_log(last));
        let x = run(step, memory, stream(front));
        let y = run(step, memory, stream(kept));
        if last == Kernel::WarmUp {
            let log = kernel_log(last);
            assert(log.drop_last() =~= Seq::<Command>::empty());
            assert(run(step, x, log.drop_last()) == x);
            assert forall|b: Buffer| b != Buffer::Discarded implies #[trigger] run(step, x, log)(b)
                == x(b) by {}
        } else {
            assert(kept.push(last).drop_last() =~= kept);
            law_run_joined(step, memory, stream(kept), kernel_log(last));
            law_discarded_unread(last);
            law_unread_buffer(step, x, y, kernel_log(last), Buffer::Discarded);
        }
    }
}

} // verus!
