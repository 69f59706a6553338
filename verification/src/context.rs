//! The command stream of a kernel.
//!
//! A kernel issues commands to three units. A unit runs its own commands in the order of issue; a
//! command of another unit waits only for the buffers that it reads. The order of the stream is
//! therefore part of what a kernel does, and every kernel states the commands that it adds.

use vstd::prelude::*;

verus! {

/// The units that run commands.
#[derive(Clone, Copy, Debug, PartialEq, Eq, Structural)]
pub enum Unit {
    /// The tensor DMA.
    Tdma,
    /// The main context of the tensor unit.
    Main,
    /// The sub context of the tensor unit.
    Sub,
}

/// The weight matrices of the feed-forward block.
#[derive(Clone, Copy, Debug, PartialEq, Eq, Structural)]
pub enum Matrix {
    Up,
    Gate,
    Down,
}

/// The places in a layer where a kernel normalizes or splits an activation.
#[derive(Clone, Copy, Debug, PartialEq, Eq, Structural)]
pub enum Stage {
    /// The hidden state before the feed-forward block.
    Pre,
    /// The gated activation inside the block.
    Gated,
    /// The hidden state after the block.
    Post,
    /// The attention output.
    Attention,
}

/// What a command reads or writes.
///
/// The payload of a tiled buffer is the slot, the term or the first row of the tile.
#[derive(Clone, Copy, Debug, PartialEq, Eq, Structural)]
pub enum Buffer {
    // Arguments of a kernel, in device memory.
    Hidden,
    Attention,
    Residual,
    NormWeight,
    PostNormWeight,
    ChannelScale,
    LayerScalar,
    Weight(Matrix),
    BlockScale(Matrix),
    GlobalScale(Matrix),
    OutputWeight,
    // The value that the first command of a kernel reads, and what nobody reads again.
    Fresh,
    Discarded,
    // Normalization.
    Pool(usize),
    PoolVrf(usize),
    MeanSquare(Stage),
    Rms(Stage),
    RmsVrf(Stage),
    InvRms,
    InvRmsVrf,
    Normalized,
    NormWeightDm,
    NormWeightVrf(Stage),
    ResidualVrf,
    ScalarDm,
    ScalarVrf,
    // An activation as two terms.
    Term(Stage, usize),
    TermVrf(Stage),
    Spread,
    Gathered(Stage),
    ActivationTrf(Stage),
    // Block-scaled products.
    Packed(Matrix, usize),
    BlockSums(Matrix, usize),
    ScaleF8(Matrix),
    Scale(Matrix),
    ScaleTrf(Matrix, usize),
    Product(Matrix, usize),
    Grouped(Matrix),
    // The gated activation.
    FactorDm,
    Factor,
    FactorVrf,
    Gelu,
    GeluVrf,
    Gated,
    // The two clusters' halves of the down projection.
    Paired,
    Meeting,
    Halves,
    GlobalDm(Matrix),
    GlobalVrf(Matrix),
    // The attention output projection.
    Columns,
    WeightTile(usize),
    Projected(usize),
    Hop,
    Tail,
    // What a kernel hands on.
    Block,
    Output,
}

/// What a command reads besides its main source.
#[derive(Clone, Copy, Debug, PartialEq, Eq, Structural)]
pub enum Operands {
    Nothing,
    One(Buffer),
    Two(Buffer, Buffer),
    Four(Buffer, Buffer, Buffer, Buffer),
}

/// One command: `unit` reads `source` and `operands` and writes `target`.
#[derive(Clone, Copy, Debug, PartialEq, Eq, Structural)]
pub struct Command {
    pub unit: Unit,
    pub source: Buffer,
    pub operands: Operands,
    pub target: Buffer,
}

impl Command {
    /// The command reads `b`.
    pub open spec fn reads(self, b: Buffer) -> bool {
        ||| self.source == b
        ||| match self.operands {
            Operands::Nothing => false,
            Operands::One(x) => x == b,
            Operands::Two(x, y) => x == b || y == b,
            Operands::Four(x, y, z, w) => x == b || y == b || z == b || w == b,
        }
    }
}

/// A command without further operands.
pub open spec fn plain(unit: Unit, source: Buffer, target: Buffer) -> Command {
    Command { unit, source, operands: Operands::Nothing, target }
}

/// A command with operands.
pub open spec fn using(unit: Unit, source: Buffer, operands: Operands, target: Buffer) -> Command {
    Command { unit, source, operands, target }
}

/// A command stream.
pub struct Context {
    pub issued: Vec<Command>,
}

impl Context {
    /// The stream.
    pub open spec fn log(self) -> Seq<Command> {
        self.issued@
    }

    /// An empty stream.
    pub fn new() -> (r: Context)
        ensures
            r.log() == Seq::<Command>::empty(),
    {
        Context { issued: Vec::new() }
    }

    /// Issues a command without further operands.
    pub fn issue(&mut self, unit: Unit, source: Buffer, target: Buffer)
        ensures
            final(self).log() == old(self).log().push(plain(unit, source, target)),
    {
        self.issued.push(Command { unit, source, operands: Operands::Nothing, target });
    }

    /// Issues a command with operands.
    pub fn issue_with(&mut self, unit: Unit, source: Buffer, operands: Operands, target: Buffer)
        ensures
            final(self).log() == old(self).log().push(using(unit, source, operands, target)),
    {
        self.issued.push(Command { unit, source, operands, target });
    }
}

/// One of the first `n` commands writes `b`.
pub open spec fn written(log: Seq<Command>, n: int, b: Buffer) -> bool {
    exists|j: int| 0 <= j < n && (#[trigger] log[j]).target == b
}

/// One of the commands writes `b`.
#[verifier::inline]
pub open spec fn writes(log: Seq<Command>, b: Buffer) -> bool {
    written(log, log.len() as int, b)
}

/// Every command finds what it reads: a buffer of `ready`, or the target of an earlier command.
pub open spec fn flows(ready: spec_fn(Buffer) -> bool, log: Seq<Command>) -> bool {
    forall|i: int, b: Buffer|
        0 <= i < log.len() && #[trigger] log[i].reads(b) ==> ready(b) || written(log, i, b)
}

/// No buffer is written twice.
pub open spec fn writes_once(log: Seq<Command>) -> bool {
    forall|i: int, j: int|
        0 <= i < j < log.len() ==> (#[trigger] log[i]).target != (#[trigger] log[j]).target
}

/// No command reads `b`.
pub open spec fn unread(log: Seq<Command>, b: Buffer) -> bool {
    forall|i: int| 0 <= i < log.len() ==> !(#[trigger] log[i]).reads(b)
}

/// `first` is issued before `second`.
pub open spec fn issued_before(log: Seq<Command>, first: Command, second: Command) -> bool {
    exists|i: int, j: int|
        0 <= i < j < log.len() && #[trigger] log[i] == first && #[trigger] log[j] == second
}

/// What the commands write, in the order of issue.
pub open spec fn issue_order(log: Seq<Command>) -> Seq<Buffer> {
    Seq::new(log.len(), |i: int| log[i].target)
}

/// What the first `n` commands write that `unit` runs, in the order in which it runs them.
pub open spec fn targets_up_to(log: Seq<Command>, unit: Unit, n: nat) -> Seq<Buffer>
    decreases n,
{
    if n == 0 {
        Seq::empty()
    } else {
        let before = targets_up_to(log, unit, (n - 1) as nat);
        if log[n - 1].unit == unit {
            before.push(log[n - 1].target)
        } else {
            before
        }
    }
}

/// What `unit` writes, in the order in which it runs its commands.
pub open spec fn targets_of(log: Seq<Command>, unit: Unit) -> Seq<Buffer> {
    targets_up_to(log, unit, log.len())
}

/// What is ready after `log`.
pub open spec fn ready_after(ready: spec_fn(Buffer) -> bool, log: Seq<Command>) -> spec_fn(
    Buffer,
) -> bool {
    |b: Buffer| ready(b) || writes(log, b)
}

/// A kernel begins with nothing but its arguments, in device memory, and fresh tensors.
pub open spec fn given(b: Buffer) -> bool {
    match b {
        Buffer::Hidden => true,
        Buffer::Attention => true,
        Buffer::Residual => true,
        Buffer::NormWeight => true,
        Buffer::PostNormWeight => true,
        Buffer::ChannelScale => true,
        Buffer::LayerScalar => true,
        Buffer::Weight(_) => true,
        Buffer::BlockScale(_) => true,
        Buffer::GlobalScale(_) => true,
        Buffer::OutputWeight => true,
        Buffer::Fresh => true,
        _ => false,
    }
}

/// Two streams are issued one after the other.
pub proof fn lemma_issue_order_joined(a: Seq<Command>, b: Seq<Command>)
    ensures
        issue_order(a + b) == issue_order(a) + issue_order(b),
{
    assert(issue_order(a + b) =~= issue_order(a) + issue_order(b));
}

/// A unit runs its commands of two streams one stream after the other.
pub proof fn lemma_targets_joined(a: Seq<Command>, b: Seq<Command>, unit: Unit)
    ensures
        targets_of(a + b, unit) == targets_of(a, unit) + targets_of(b, unit),
{
    lemma_targets_front(a, b, unit, a.len());
    lemma_targets_back(a, b, unit, b.len());
}

proof fn lemma_targets_front(a: Seq<Command>, b: Seq<Command>, unit: Unit, n: nat)
    requires
        n <= a.len(),
    ensures
        targets_up_to(a + b, unit, n) == targets_up_to(a, unit, n),
    decreases n,
{
    if n > 0 {
        lemma_targets_front(a, b, unit, (n - 1) as nat);
        assert((a + b)[n - 1] == a[n - 1]);
    }
}

proof fn lemma_targets_back(a: Seq<Command>, b: Seq<Command>, unit: Unit, n: nat)
    requires
        n <= b.len(),
    ensures
        targets_up_to(a + b, unit, a.len() + n) == targets_of(a, unit) + targets_up_to(b, unit, n),
    decreases n,
{
    lemma_targets_front(a, b, unit, a.len());
    if n == 0 {
        assert(targets_of(a, unit) + Seq::<Buffer>::empty() =~= targets_of(a, unit));
    } else {
        lemma_targets_back(a, b, unit, (n - 1) as nat);
        assert((a + b)[a.len() + n - 1] == b[n - 1]);
        let before = targets_up_to(b, unit, (n - 1) as nat);
        let x = b[n - 1].target;
        assert((targets_of(a, unit) + before).push(x) =~= targets_of(a, unit) + before.push(x));
    }
}

/// A stream that flows, followed by one that flows from there, flows.
pub proof fn lemma_flows_joined(ready: spec_fn(Buffer) -> bool, a: Seq<Command>, b: Seq<Command>)
    requires
        flows(ready, a),
        flows(ready_after(ready, a), b),
    ensures
        flows(ready, a + b),
        forall|x: Buffer| writes(a, x) ==> #[trigger] writes(a + b, x),
        forall|x: Buffer| writes(b, x) ==> #[trigger] writes(a + b, x),
{
    let both = a + b;
    assert forall|x: Buffer| writes(a, x) implies #[trigger] writes(both, x) by {
        let j = choose|j: int| 0 <= j < a.len() && (#[trigger] a[j]).target == x;
        assert(both[j].target == x);
    }
    assert forall|x: Buffer| writes(b, x) implies #[trigger] writes(both, x) by {
        let j = choose|j: int| 0 <= j < b.len() && (#[trigger] b[j]).target == x;
        assert(both[a.len() + j].target == x);
    }
    assert forall|i: int, x: Buffer|
        0 <= i < both.len() && #[trigger] both[i].reads(x) implies ready(x) || written(
        both,
        i,
        x,
    ) by {
        if i < a.len() {
            assert(a[i].reads(x));
            if written(a, i, x) {
                let j = choose|j: int| 0 <= j < i && (#[trigger] a[j]).target == x;
                assert(both[j].target == x);
            }
        } else {
            let k = i - a.len();
            assert(b[k].reads(x));
            assert(ready_after(ready, a)(x) || written(b, k, x));
            if writes(a, x) {
                let j = choose|j: int| 0 <= j < a.len() && (#[trigger] a[j]).target == x;
                assert(both[j].target == x);
            }
            if written(b, k, x) {
                let j = choose|j: int| 0 <= j < k && (#[trigger] b[j]).target == x;
                assert(both[a.len() + j].target == x);
            }
        }
    }
}

} // verus!
