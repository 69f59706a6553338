//! The order of the commands of the output projection.

use vstd::prelude::*;

use crate::context::{
    flows, given, issue_order, issued_before, plain, targets_of, targets_up_to, using, writes,
    writes_once, written, Buffer, Command, Context, Operands, Stage, Unit,
};
use crate::output31::{contract_command, project_normalize_add_log};

verus! {

/// The load of slot `slot` of the pool, from `source`.
pub open spec fn load_command(source: Buffer, slot: usize) -> Command {
    plain(Unit::Tdma, source, Buffer::Pool(slot))
}

/// The read of slot `slot` of the pool.
pub open spec fn read_command(slot: usize) -> Command {
    plain(Unit::Sub, Buffer::Pool(slot), Buffer::PoolVrf(slot))
}

/// The store of the projected rows to device memory.
pub open spec fn store_command() -> Command {
    using(
        Unit::Tdma,
        Buffer::Projected(0),
        Operands::One(Buffer::Projected(104)),
        Buffer::Hop,
    )
}

/// The reload of the projected rows.
pub open spec fn reload_command() -> Command {
    plain(Unit::Tdma, Buffer::Hop, Buffer::Tail)
}

/// The command stream of `project_normalize_add`, for a device that performs it.
pub fn project_normalize_add_stream() -> (r: Vec<Command>)
    ensures
        r@ == project_normalize_add_log(),
{
    let mut ctx: Context = Context::new();
    ctx.issue(Unit::Tdma, Buffer::OutputWeight, Buffer::WeightTile(0));
    ctx.issue(Unit::Tdma, Buffer::OutputWeight, Buffer::WeightTile(104));
    ctx.issue(Unit::Tdma, Buffer::Attention, Buffer::Columns);
    ctx.issue(Unit::Main, Buffer::Columns, Buffer::Term(Stage::Attention, 0));
    ctx.issue(Unit::Sub, Buffer::Term(Stage::Attention, 0), Buffer::TermVrf(Stage::Attention));
    ctx.issue_with(
        Unit::Main,
        Buffer::Columns,
        Operands::One(Buffer::TermVrf(Stage::Attention)),
        Buffer::Term(Stage::Attention, 1),
    );
    ctx.issue_with(
        Unit::Sub,
        Buffer::Term(Stage::Attention, 0),
        Operands::One(Buffer::Term(Stage::Attention, 1)),
        Buffer::ActivationTrf(Stage::Attention),
    );
    ctx.issue_with(
        Unit::Main,
        Buffer::WeightTile(0),
        Operands::One(Buffer::ActivationTrf(Stage::Attention)),
        Buffer::Projected(0),
    );
    ctx.issue_with(
        Unit::Main,
        Buffer::WeightTile(104),
        Operands::One(Buffer::ActivationTrf(Stage::Attention)),
        Buffer::Projected(104),
    );
    ctx.issue(Unit::Tdma, Buffer::Residual, Buffer::Pool(0));
    ctx.issue(Unit::Sub, Buffer::Pool(0), Buffer::PoolVrf(0));
    ctx.issue_with(
        Unit::Tdma,
        Buffer::Projected(0),
        Operands::One(Buffer::Projected(104)),
        Buffer::Hop,
    );
    ctx.issue(Unit::Tdma, Buffer::ChannelScale, Buffer::Pool(1));
    ctx.issue(Unit::Sub, Buffer::Pool(1), Buffer::PoolVrf(1));
    ctx.issue(Unit::Tdma, Buffer::NormWeight, Buffer::Pool(2));
    ctx.issue(Unit::Sub, Buffer::Pool(2), Buffer::PoolVrf(2));
    ctx.issue(Unit::Tdma, Buffer::Hop, Buffer::Tail);
    ctx.issue_with(
        Unit::Main,
        Buffer::Tail,
        Operands::One(Buffer::PoolVrf(1)),
        Buffer::MeanSquare(Stage::Attention),
    );
    ctx.issue(Unit::Main, Buffer::MeanSquare(Stage::Attention), Buffer::InvRms);
    ctx.issue(Unit::Sub, Buffer::InvRms, Buffer::InvRmsVrf);
    ctx.issue_with(
        Unit::Main,
        Buffer::Tail,
        Operands::Four(
            Buffer::PoolVrf(1),
            Buffer::PoolVrf(2),
            Buffer::InvRmsVrf,
            Buffer::PoolVrf(0),
        ),
        Buffer::Output,
    );
    ctx.issue(Unit::Tdma, Buffer::Output, Buffer::Residual);
    assert(ctx.log() =~= project_normalize_add_log());
    ctx.issued
}

/// What each command of the stream writes.
proof fn lemma_targets()
    ensures
        project_normalize_add_log().len() == 22,
        ({
            let log = project_normalize_add_log();
            &&& log[0].target == Buffer::WeightTile(0)
            &&& log[1].target == Buffer::WeightTile(104)
            &&& log[2].target == Buffer::Columns
            &&& log[3].target == Buffer::Term(Stage::Attention, 0)
            &&& log[4].target == Buffer::TermVrf(Stage::Attention)
            &&& log[5].target == Buffer::Term(Stage::Attention, 1)
            &&& log[6].target == Buffer::ActivationTrf(Stage::Attention)
            &&& log[7].target == Buffer::Projected(0)
            &&& log[8].target == Buffer::Projected(104)
            &&& log[9].target == Buffer::Pool(0)
            &&& log[10].target == Buffer::PoolVrf(0)
            &&& log[11].target == Buffer::Hop
            &&& log[12].target == Buffer::Pool(1)
            &&& log[13].target == Buffer::PoolVrf(1)
            &&& log[14].target == Buffer::Pool(2)
            &&& log[15].target == Buffer::PoolVrf(2)
            &&& log[16].target == Buffer::Tail
            &&& log[17].target == Buffer::MeanSquare(Stage::Attention)
            &&& log[18].target == Buffer::InvRms
            &&& log[19].target == Buffer::InvRmsVrf
            &&& log[20].target == Buffer::Output
            &&& log[21].target == Buffer::Residual
        }),
{
}

/// Every command finds what it reads, an argument of the kernel or the result of an earlier command,
/// and the last command stores the rows where the residual was.
pub proof fn law_output_flows()
    ensures
        flows(|b: Buffer| given(b), project_normalize_add_log()),
        project_normalize_add_log().last() == plain(Unit::Tdma, Buffer::Output, Buffer::Residual),
{
    lemma_targets();
}

/// No command overwrites what another one has written.
pub proof fn law_output_writes_once()
    ensures
        writes_once(project_normalize_add_log()),
{
    lemma_targets();
}

/// Up to the store at the end the stream overwrites nothing, neither an argument nor what one of its
/// commands has written, and every command finds what it reads.
pub proof fn law_output_keeps_arguments()
    ensures
        flows(|b: Buffer| given(b), project_normalize_add_log().drop_last()),
        writes_once(project_normalize_add_log().drop_last()),
        forall|b: Buffer|
            #[trigger] given(b) ==> !writes(project_normalize_add_log().drop_last(), b),
{
    let log = project_normalize_add_log();
    let front = log.drop_last();
    lemma_targets();
    law_output_flows();
    law_output_writes_once();
    assert forall|i: int, b: Buffer| 0 <= i < front.len() && #[trigger] front[i].reads(b) implies (
    |b: Buffer| given(b))(b) || written(front, i, b) by {
        assert(front[i] == log[i]);
        assert(log[i].reads(b));
        if written(log, i, b) {
            let j = choose|j: int| 0 <= j < i && (#[trigger] log[j]).target == b;
            assert(front[j].target == b);
        }
    }
}

/// The slots of the pool take turns: each is read before the next one is loaded.
pub proof fn law_pool_takes_turns()
    ensures
        issued_before(
            project_normalize_add_log(),
            load_command(Buffer::Residual, 0),
            read_command(0),
        ),
        issued_before(
            project_normalize_add_log(),
            read_command(0),
            load_command(Buffer::ChannelScale, 1),
        ),
        issued_before(
            project_normalize_add_log(),
            load_command(Buffer::ChannelScale, 1),
            read_command(1),
        ),
        issued_before(
            project_normalize_add_log(),
            read_command(1),
            load_command(Buffer::NormWeight, 2),
        ),
        issued_before(
            project_normalize_add_log(),
            load_command(Buffer::NormWeight, 2),
            read_command(2),
        ),
{
    let log = project_normalize_add_log();
    lemma_targets();
    assert(log[9] == load_command(Buffer::Residual, 0) && log[10] == read_command(0));
    assert(log[12] == load_command(Buffer::ChannelScale, 1) && log[13] == read_command(1));
    assert(log[14] == load_command(Buffer::NormWeight, 2) && log[15] == read_command(2));
}

/// The pool is opened while the projection is still alive: its first load comes before the store of
/// the projected rows, which is the last command that reads them. The other two loads lie between
/// that store and the reload.
pub proof fn law_pool_opens_early()
    ensures
        issued_before(
            project_normalize_add_log(),
            load_command(Buffer::Residual, 0),
            store_command(),
        ),
        forall|i: int|
            11 < i < project_normalize_add_log().len() ==> !(
            #[trigger] project_normalize_add_log()[i]).reads(Buffer::Projected(0))
                && !project_normalize_add_log()[i].reads(Buffer::Projected(104)),
        project_normalize_add_log()[11] == store_command(),
        issued_before(
            project_normalize_add_log(),
            store_command(),
            load_command(Buffer::ChannelScale, 1),
        ),
        issued_before(
            project_normalize_add_log(),
            load_command(Buffer::NormWeight, 2),
            reload_command(),
        ),
{
    let log = project_normalize_add_log();
    lemma_targets();
    assert(log[9] == load_command(Buffer::Residual, 0));
    assert(log[11] == store_command());
    assert(log[12] == load_command(Buffer::ChannelScale, 1));
    assert(log[14] == load_command(Buffer::NormWeight, 2));
    assert(log[16] == reload_command());
}

/// The large tile is contracted first, and its contraction does not wait for the small one: it reads
/// nothing of the small tile, which is loaded after it.
pub proof fn law_large_tile_first()
    ensures
        issued_before(
            project_normalize_add_log(),
            plain(Unit::Tdma, Buffer::OutputWeight, Buffer::WeightTile(0)),
            plain(Unit::Tdma, Buffer::OutputWeight, Buffer::WeightTile(104)),
        ),
        issued_before(project_normalize_add_log(), contract_command(0), contract_command(104)),
        !contract_command(0).reads(Buffer::WeightTile(104)),
{
    let log = project_normalize_add_log();
    lemma_targets();
    assert(log[0] == plain(Unit::Tdma, Buffer::OutputWeight, Buffer::WeightTile(0)));
    assert(log[1] == plain(Unit::Tdma, Buffer::OutputWeight, Buffer::WeightTile(104)));
    assert(log[7] == contract_command(0));
    assert(log[8] == contract_command(104));
}

/// The order in which the commands of the output projection are issued, and that in which each unit
/// runs its part of them.
pub proof fn law_output_queues()
    ensures
        issue_order(project_normalize_add_log()) == seq![
            Buffer::WeightTile(0),
            Buffer::WeightTile(104),
            Buffer::Columns,
            Buffer::Term(Stage::Attention, 0),
            Buffer::TermVrf(Stage::Attention),
            Buffer::Term(Stage::Attention, 1),
            Buffer::ActivationTrf(Stage::Attention),
            Buffer::Projected(0),
            Buffer::Projected(104),
            Buffer::Pool(0),
            Buffer::PoolVrf(0),
            Buffer::Hop,
            Buffer::Pool(1),
            Buffer::PoolVrf(1),
            Buffer::Pool(2),
            Buffer::PoolVrf(2),
            Buffer::Tail,
            Buffer::MeanSquare(Stage::Attention),
            Buffer::InvRms,
            Buffer::InvRmsVrf,
            Buffer::Output,
            Buffer::Residual,
        ],
        targets_of(project_normalize_add_log(), Unit::Tdma) == seq![
            Buffer::WeightTile(0),
            Buffer::WeightTile(104),
            Buffer::Columns,
            Buffer::Pool(0),
            Buffer::Hop,
            Buffer::Pool(1),
            Buffer::Pool(2),
            Buffer::Tail,
            Buffer::Residual,
        ],
        targets_of(project_normalize_add_log(), Unit::Main) == seq![
            Buffer::Term(Stage::Attention, 0),
            Buffer::Term(Stage::Attention, 1),
            Buffer::Projected(0),
            Buffer::Projected(104),
            Buffer::MeanSquare(Stage::Attention),
            Buffer::InvRms,
            Buffer::Output,
        ],
        targets_of(project_normalize_add_log(), Unit::Sub) == seq![
            Buffer::TermVrf(Stage::Attention),
            Buffer::ActivationTrf(Stage::Attention),
            Buffer::PoolVrf(0),
            Buffer::PoolVrf(1),
            Buffer::PoolVrf(2),
            Buffer::InvRmsVrf,
        ],
{
    let log = project_normalize_add_log();
    lemma_targets();
    assert(log[0].unit == Unit::Tdma);
    assert(log[1].unit == Unit::Tdma);
    assert(log[2].unit == Unit::Tdma);
    assert(log[3].unit == Unit::Main);
    assert(log[4].unit == Unit::Sub);
    assert(log[5].unit == Unit::Main);
    assert(log[6].unit == Unit::Sub);
    assert(log[7].unit == Unit::Main);
    assert(log[8].unit == Unit::Main);
    assert(log[9].unit == Unit::Tdma);
    assert(log[10].unit == Unit::Sub);
    assert(log[11].unit == Unit::Tdma);
    assert(log[12].unit == Unit::Tdma);
    assert(log[13].unit == Unit::Sub);
    assert(log[14].unit == Unit::Tdma);
    assert(log[15].unit == Unit::Sub);
    assert(log[16].unit == Unit::Tdma);
    assert(log[17].unit == Unit::Main);
    assert(log[18].unit == Unit::Main);
    assert(log[19].unit == Unit::Sub);
    assert(log[20].unit == Unit::Main);
    assert(log[21].unit == Unit::Tdma);
    assert(issue_order(log) =~= seq![
        Buffer::WeightTile(0),
        Buffer::WeightTile(104),
        Buffer::Columns,
        Buffer::Term(Stage::Attention, 0),
        Buffer::TermVrf(Stage::Attention),
        Buffer::Term(Stage::Attention, 1),
        Buffer::ActivationTrf(Stage::Attention),
        Buffer::Projected(0),
        Buffer::Projected(104),
        Buffer::Pool(0),
        Buffer::PoolVrf(0),
        Buffer::Hop,
        Buffer::Pool(1),
        Buffer::PoolVrf(1),
        Buffer::Pool(2),
        Buffer::PoolVrf(2),
        Buffer::Tail,
        Buffer::MeanSquare(Stage::Attention),
        Buffer::InvRms,
        Buffer::InvRmsVrf,
        Buffer::Output,
        Buffer::Residual,
    ]);
    reveal_with_fuel(targets_up_to, 23);
    assert(targets_of(log, Unit::Tdma) =~= seq![
        Buffer::WeightTile(0),
        Buffer::WeightTile(104),
        Buffer::Columns,
        Buffer::Pool(0),
        Buffer::Hop,
        Buffer::Pool(1),
        Buffer::Pool(2),
        Buffer::Tail,
        Buffer::Residual,
    ]);
    assert(targets_of(log, Unit::Main) =~= seq![
        Buffer::Term(Stage::Attention, 0),
        Buffer::Term(Stage::Attention, 1),
        Buffer::Projected(0),
        Buffer::Projected(104),
        Buffer::MeanSquare(Stage::Attention),
        Buffer::InvRms,
        Buffer::Output,
    ]);
    assert(targets_of(log, Unit::Sub) =~= seq![
        Buffer::TermVrf(Stage::Attention),
        Buffer::ActivationTrf(Stage::Attention),
        Buffer::PoolVrf(0),
        Buffer::PoolVrf(1),
        Buffer::PoolVrf(2),
        Buffer::InvRmsVrf,
    ]);
}

} // verus!
