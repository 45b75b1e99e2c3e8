use vstd::prelude::*;

use crate::components::EntityState;
use crate::resources::{
    all_in_bounds, append_all, append_record, apply_all, apply_move, moved, undo_group, CommandView, EntityId,
    MoveCause, MoveRecord,
};
use crate::systems::{records, resolve_record, undo_tick};
use crate::utils::{is_unit_delta, lemma_wrap_inverse, neg_delta};

verus! {

/// A move keeps every entity on the board.
pub proof fn lemma_apply_move_in_bounds(w: Seq<EntityState>, ents: Seq<EntityId>, d: (i16, i16))
    requires
        all_in_bounds(w),
    ensures
        all_in_bounds(apply_move(w, ents, d)),
{
    let w2 = apply_move(w, ents, d);
    assert forall|i: int| 0 <= i < w2.len() implies (#[trigger] w2[i]).wf() by {
        assert(w[i].wf());
    }
}

/// Moving the same entities by a unit step and then by the opposite step
/// leaves the store as it was.
pub proof fn lemma_apply_move_inverse(w: Seq<EntityState>, ents: Seq<EntityId>, d: (i16, i16))
    requires
        all_in_bounds(w),
        is_unit_delta(d),
    ensures
        apply_move(apply_move(w, ents, d), ents, neg_delta(d)) == w,
{
    let w2 = apply_move(apply_move(w, ents, d), ents, neg_delta(d));
    assert forall|i: int| 0 <= i < w.len() implies w2[i] == w[i] by {
        if ents.contains(i as EntityId) {
            assert(w[i].wf());
            lemma_wrap_inverse(w[i].position.tuple(), d);
            assert(moved(moved(w[i], d), neg_delta(d)).position == w[i].position);
        }
    }
    assert(w2 =~= w);
}

/// Applying records in turn keeps every entity on the board.
pub proof fn lemma_apply_all_in_bounds(w: Seq<EntityState>, rs: Seq<MoveRecord>)
    requires
        all_in_bounds(w),
    ensures
        all_in_bounds(apply_all(w, rs)),
    decreases rs.len(),
{
    if rs.len() > 0 {
        lemma_apply_all_in_bounds(w, rs.drop_last());
        lemma_apply_move_in_bounds(apply_all(w, rs.drop_last()), rs.last().entities, rs.last().delta);
    }
}

/// Reversing, last first, records of unit steps that were applied in turn
/// gives back the store they were applied to.
pub proof fn lemma_undo_group_after_apply_all(w: Seq<EntityState>, rs: Seq<MoveRecord>)
    requires
        all_in_bounds(w),
        forall|k: int| 0 <= k < rs.len() ==> is_unit_delta(#[trigger] rs[k].delta),
    ensures
        undo_group(apply_all(w, rs), rs) == w,
    decreases rs.len(),
{
    if rs.len() > 0 {
        let prev = rs.drop_last();
        let r = rs.last();
        assert(is_unit_delta(rs[rs.len() - 1].delta));
        lemma_apply_all_in_bounds(w, prev);
        lemma_apply_move_inverse(apply_all(w, prev), r.entities, r.delta);
        assert forall|k: int| 0 <= k < prev.len() implies is_unit_delta(#[trigger] prev[k].delta) by {
            assert(prev[k] == rs[k]);
        }
        lemma_undo_group_after_apply_all(w, prev);
    }
}

/// Each request of a queue gives one record, with the request's cause and
/// step.
pub proof fn lemma_records_follow_requests(w: Seq<EntityState>, cmds: Seq<CommandView>)
    ensures
        records(w, cmds).len() == cmds.len(),
        forall|k: int|
            0 <= k < cmds.len() ==> (#[trigger] records(w, cmds)[k]).cause == cmds[k].cause
                && records(w, cmds)[k].delta == cmds[k].delta,
    decreases cmds.len(),
{
    if cmds.len() > 0 {
        lemma_records_follow_requests(w, cmds.drop_last());
        let prev = records(w, cmds.drop_last());
        assert forall|k: int| 0 <= k < cmds.len() implies (#[trigger] records(w, cmds)[k]).cause
            == cmds[k].cause && records(w, cmds)[k].delta == cmds[k].delta by {
            if k < cmds.len() - 1 {
                assert(records(w, cmds)[k] == prev[k]);
                assert(cmds.drop_last()[k] == cmds[k]);
            } else {
                assert(records(w, cmds)[k] == resolve_record(apply_all(w, prev), cmds.last()));
            }
        }
    }
}

/// The records open a tick entry with their first one and only there.
pub open spec fn opens_one_entry(h: Seq<Seq<MoveRecord>>, rs: Seq<MoveRecord>) -> bool {
    &&& rs.len() > 0
    &&& (rs[0].cause == MoveCause::UserMove || h.len() == 0)
    &&& forall|k: int| 0 < k < rs.len() ==> (#[trigger] rs[k]).cause != MoveCause::UserMove
}

proof fn lemma_append_all_one_entry(h: Seq<Seq<MoveRecord>>, rs: Seq<MoveRecord>)
    requires
        opens_one_entry(h, rs),
    ensures
        append_all(h, rs) == h.push(rs),
    decreases rs.len(),
{
    let prev = rs.drop_last();
    if rs.len() == 1 {
        assert(append_all(h, prev) == h);
        assert(seq![rs[0]] =~= rs);
    } else {
        assert forall|k: int| 0 < k < prev.len() implies (#[trigger] prev[k]).cause
            != MoveCause::UserMove by {
            assert(prev[k] == rs[k]);
        }
        lemma_append_all_one_entry(h, prev);
        assert(rs.last().cause != MoveCause::UserMove);
        let h1 = h.push(prev);
        assert(append_record(h1, rs.last()) =~= h.push(rs)) by {
            assert(h1.last().push(rs.last()) =~= rs);
        }
    }
}

/// The requests open a tick entry with their first one and only there: the
/// first comes from the player or meets an empty history, no later one comes
/// from the player.
pub open spec fn tick_opens_one_entry(h: Seq<Seq<MoveRecord>>, cmds: Seq<CommandView>) -> bool {
    &&& cmds.len() > 0
    &&& (cmds[0].cause == MoveCause::UserMove || h.len() == 0)
    &&& forall|k: int| 0 < k < cmds.len() ==> (#[trigger] cmds[k]).cause != MoveCause::UserMove
}

/// History grouping: a tick whose first request comes from the player, and
/// no other one, is recorded as one new tick entry that holds every record of
/// the tick, in the order of resolution.
pub proof fn lemma_tick_adds_one_entry(
    w: Seq<EntityState>,
    cmds: Seq<CommandView>,
    h: Seq<Seq<MoveRecord>>,
)
    requires
        tick_opens_one_entry(h, cmds),
    ensures
        append_all(h, records(w, cmds)) == h.push(records(w, cmds)),
{
    lemma_records_follow_requests(w, cmds);
    let rs = records(w, cmds);
    assert(rs[0].cause == cmds[0].cause);
    assert forall|k: int| 0 < k < rs.len() implies (#[trigger] rs[k]).cause
        != MoveCause::UserMove by {
        assert(rs[k].cause == cmds[k].cause);
    }
    lemma_append_all_one_entry(h, rs);
}

/// Undo exactness: after a tick that opened one entry, an undo puts every
/// entity back on the cell it held before the tick and gives back the
/// history as it was, one entry shorter than after the tick.
pub proof fn lemma_undo_restores_tick(
    w: Seq<EntityState>,
    cmds: Seq<CommandView>,
    h: Seq<Seq<MoveRecord>>,
)
    requires
        all_in_bounds(w),
        forall|k: int| 0 <= k < cmds.len() ==> is_unit_delta(#[trigger] cmds[k].delta),
        tick_opens_one_entry(h, cmds),
    ensures
        undo_tick(apply_all(w, records(w, cmds)), append_all(h, records(w, cmds))) == (w, h),
        append_all(h, records(w, cmds)).len() == h.len() + 1,
{
    let rs = records(w, cmds);
    lemma_tick_adds_one_entry(w, cmds, h);
    lemma_records_follow_requests(w, cmds);
    assert forall|k: int| 0 <= k < rs.len() implies is_unit_delta(#[trigger] rs[k].delta) by {
        assert(rs[k].delta == cmds[k].delta);
    }
    lemma_undo_group_after_apply_all(w, rs);
    assert(h.push(rs).drop_last() =~= h);
}

/// Determinism: the same store and the same queue of requests give the same
/// records, the same store after resolution and the same history.
pub proof fn lemma_resolution_deterministic(
    w1: Seq<EntityState>,
    w2: Seq<EntityState>,
    cmds1: Seq<CommandView>,
    cmds2: Seq<CommandView>,
    h1: Seq<Seq<MoveRecord>>,
    h2: Seq<Seq<MoveRecord>>,
)
    requires
        w1 == w2,
        cmds1 == cmds2,
        h1 == h2,
    ensures
        records(w1, cmds1) == records(w2, cmds2),
        apply_all(w1, records(w1, cmds1)) == apply_all(w2, records(w2, cmds2)),
        append_all(h1, records(w1, cmds1)) == append_all(h2, records(w2, cmds2)),
{
}

} // verus!
