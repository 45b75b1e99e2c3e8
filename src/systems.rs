use vstd::prelude::*;

use crate::components::{Dir, EntityState, Orientation, Position, PositionTuple};
use crate::constants::{LEVEL_CELLS, LEVEL_X_MAX, LEVEL_Y_MAX};
use crate::resources::{
    all_in_bounds, append_all, append_record, apply_all, apply_move, grouped, moved, participants_in,
    records_wf, undo_group, valid_participants, ActualMove, CommandView, EntityId, MoveCause,
    MoveCommand, MoveCommands, MoveHistory, MoveRecord, World,
};
use crate::utils::{add_delta, in_bounds, is_unit_delta, same_cell, wrap};

verus! {

/// The movable entity that stands on `p` among the first `n` entities of the
/// store; where several do, the one with the largest identifier.
pub open spec fn movable_at(w: Seq<EntityState>, n: int, p: PositionTuple) -> Option<EntityId>
    decreases n,
{
    if n <= 0 {
        None
    } else if w[n - 1].movable && w[n - 1].position.tuple() == p {
        Some((n - 1) as EntityId)
    } else {
        movable_at(w, n - 1, p)
    }
}

/// The movable entity that stands on `p`, if any.
pub open spec fn occupant(w: Seq<EntityState>, p: PositionTuple) -> Option<EntityId> {
    movable_at(w, w.len() as int, p)
}

/// Some entity that is immovable and not movable stands on `p`.
pub open spec fn blocked(w: Seq<EntityState>, p: PositionTuple) -> bool {
    exists|i: int| 0 <= i < w.len() && (#[trigger] w[i]).blocks() && w[i].position.tuple() == p
}

/// How many cells a chain walk may visit: past that it has come round the
/// whole board.
pub open spec fn walk_fuel() -> nat {
    LEVEL_CELLS as nat
}

/// The movable entities met walking from `p` by steps of `d`, up to the
/// first cell that holds none, visiting at most `fuel` cells.
pub open spec fn chain(w: Seq<EntityState>, p: PositionTuple, d: (i16, i16), fuel: nat) -> Seq<
    EntityId,
>
    decreases fuel,
{
    if fuel == 0 {
        seq![]
    } else {
        match occupant(w, p) {
            None => seq![],
            Some(e) => seq![e] + chain(w, wrap(p, d), d, (fuel - 1) as nat),
        }
    }
}

/// The cell where that walk stops.
pub open spec fn landing(w: Seq<EntityState>, p: PositionTuple, d: (i16, i16), fuel: nat) -> PositionTuple
    decreases fuel,
{
    if fuel == 0 {
        p
    } else {
        match occupant(w, p) {
            None => p,
            Some(_) => landing(w, wrap(p, d), d, (fuel - 1) as nat),
        }
    }
}

/// `acc` followed by the entities of `c` that it does not hold yet, each
/// once, in the order of `c`.
pub open spec fn add_new(acc: Seq<EntityId>, c: Seq<EntityId>) -> Seq<EntityId>
    decreases c.len(),
{
    if c.len() == 0 {
        acc
    } else {
        let a = add_new(acc, c.drop_last());
        if a.contains(c.last()) {
            a
        } else {
            a.push(c.last())
        }
    }
}

/// The entities that a request with the given surviving participants moves:
/// for each participant in turn, its chain from where it stands now, unless
/// an immovable entity stands where the chain would land.
pub open spec fn entities_to_move(
    w: Seq<EntityState>,
    parts: Seq<(EntityId, PositionTuple)>,
    d: (i16, i16),
) -> Seq<EntityId>
    decreases parts.len(),
{
    if parts.len() == 0 {
        seq![]
    } else {
        let acc = entities_to_move(w, parts.drop_last(), d);
        let p = w[parts.last().0 as int].position.tuple();
        if blocked(w, landing(w, p, d, walk_fuel())) {
            acc
        } else {
            add_new(acc, chain(w, p, d, walk_fuel()))
        }
    }
}

/// The record of one request resolved against the store `w`.
pub open spec fn resolve_record(w: Seq<EntityState>, c: CommandView) -> MoveRecord {
    MoveRecord {
        entities: entities_to_move(w, valid_participants(c, w), c.delta),
        cause: c.cause,
        delta: c.delta,
    }
}

/// Index of a cell of the board in a row-major table (rows of `LEVEL_X_MAX`
/// cells).
pub open spec fn cell_index(p: PositionTuple) -> int {
    p.1 as int * 10 + p.0 as int
}

/// `grid` maps every cell of the board to its movable occupant in `w`.
pub open spec fn is_movable_grid(w: Seq<EntityState>, grid: Seq<Option<EntityId>>) -> bool {
    &&& grid.len() == LEVEL_CELLS
    &&& forall|p: PositionTuple| #[trigger]
        in_bounds(p) ==> grid[cell_index(p)] == occupant(w, p)
    &&& forall|c: int| 0 <= c < grid.len() && (#[trigger] grid[c]) is Some ==> grid[c]->0 < w.len()
}

fn cell_of(p: PositionTuple) -> (r: usize)
    requires
        in_bounds(p),
    ensures
        r == cell_index(p),
        r < LEVEL_CELLS,
{
    // A row holds LEVEL_X_MAX cells.
    p.1 as usize * 10 + p.0 as usize
}

proof fn lemma_cell_index_injective(p: PositionTuple, q: PositionTuple)
    requires
        in_bounds(p),
        in_bounds(q),
        p != q,
    ensures
        cell_index(p) != cell_index(q),
        0 <= cell_index(p) < LEVEL_CELLS,
{
}

/// Builds afresh, from the live store, the table from cell to the movable
/// entity standing on it.
fn movable_grid(world: &World) -> (grid: Vec<Option<EntityId>>)
    requires
        world.wf(),
    ensures
        is_movable_grid(world.entities@, grid@),
{
    let ghost w = world.entities@;
    let mut grid: Vec<Option<EntityId>> = Vec::new();
    let mut c: usize = 0;
    while c < LEVEL_CELLS
        invariant
            c <= LEVEL_CELLS,
            grid@.len() == c,
            forall|k: int| 0 <= k < c ==> grid@[k] is None,
        decreases LEVEL_CELLS - c,
    {
        grid.push(None);
        c = c + 1;
    }
    let mut i: usize = 0;
    while i < world.entities.len()
        invariant
            w == world.entities@,
            all_in_bounds(w),
            i <= w.len(),
            grid@.len() == LEVEL_CELLS,
            forall|p: PositionTuple|
                in_bounds(p) ==> grid@[cell_index(p)] == #[trigger] movable_at(w, i as int, p),
            forall|k: int| 0 <= k < grid@.len() && (#[trigger] grid@[k]) is Some ==> grid@[k]->0 < i,
        decreases w.len() - i,
    {
        let e = world.entities[i];
        let ghost before = grid@;
        if e.movable {
            let pos = e.position.to_tuple();
            assert(w[i as int].wf());
            let c = cell_of(pos);
            grid[c] = Some(i);
        }
        assert forall|p: PositionTuple| in_bounds(p) implies grid@[cell_index(p)]
            == #[trigger] movable_at(w, i + 1, p) by {
            assert(before[cell_index(p)] == movable_at(w, i as int, p));
            if e.movable && p != e.position.tuple() {
                assert(w[i as int].wf());
                lemma_cell_index_injective(p, e.position.tuple());
            }
        }
        i = i + 1;
    }
    assert forall|p: PositionTuple| #[trigger] in_bounds(p) implies grid@[cell_index(p)] == occupant(
        w,
        p,
    ) by {
        assert(grid@[cell_index(p)] == movable_at(w, w.len() as int, p));
    }
    grid
}

/// Whether an immovable, not movable, entity stands on `p`.
fn is_blocked(world: &World, p: PositionTuple) -> (r: bool)
    ensures
        r == blocked(world.entities@, p),
{
    let mut i: usize = 0;
    while i < world.entities.len()
        invariant
            i <= world.entities@.len(),
            forall|j: int|
                0 <= j < i ==> !((#[trigger] world.entities@[j]).blocks()
                    && world.entities@[j].position.tuple() == p),
        decreases world.entities@.len() - i,
    {
        let e = world.entities[i];
        if e.immovable && !e.movable && same_cell(e.position.to_tuple(), p) {
            assert(world.entities@[i as int].blocks());
            return true;
        }
        i = i + 1;
    }
    false
}

/// Walks from `start` by steps of `delta` while the cell holds a movable
/// entity; returns the entities met and the cell where the walk stopped.
fn walk_chain(
    world: &World,
    grid: &Vec<Option<EntityId>>,
    start: PositionTuple,
    delta: (i16, i16),
) -> (r: (Vec<EntityId>, PositionTuple))
    requires
        is_movable_grid(world.entities@, grid@),
        in_bounds(start),
    ensures
        r.0@ == chain(world.entities@, start, delta, walk_fuel()),
        r.1 == landing(world.entities@, start, delta, walk_fuel()),
        forall|k: int| 0 <= k < r.0@.len() ==> #[trigger] r.0@[k] < world.entities@.len(),
{
    let ghost w = world.entities@;
    let mut tmp_to_move: Vec<EntityId> = Vec::new();
    let mut current_pos = start;
    let mut steps: usize = 0;
    loop
        invariant
            w == world.entities@,
            is_movable_grid(w, grid@),
            in_bounds(current_pos),
            steps <= LEVEL_CELLS,
            chain(w, start, delta, walk_fuel()) == tmp_to_move@ + chain(
                w,
                current_pos,
                delta,
                (walk_fuel() - steps) as nat,
            ),
            landing(w, start, delta, walk_fuel()) == landing(
                w,
                current_pos,
                delta,
                (walk_fuel() - steps) as nat,
            ),
            forall|k: int| 0 <= k < tmp_to_move@.len() ==> #[trigger] tmp_to_move@[k] < w.len(),
        ensures
            chain(w, start, delta, walk_fuel()) == tmp_to_move@,
            landing(w, start, delta, walk_fuel()) == current_pos,
            forall|k: int| 0 <= k < tmp_to_move@.len() ==> #[trigger] tmp_to_move@[k] < w.len(),
        decreases LEVEL_CELLS - steps,
    {
        if steps >= LEVEL_CELLS {
            assert(tmp_to_move@ + seq![] =~= tmp_to_move@);
            break ;
        }
        let c = cell_of(current_pos);
        assert(grid@[c as int] == occupant(w, current_pos));
        match grid[c] {
            None => {
                assert(tmp_to_move@ + seq![] =~= tmp_to_move@);
                break ;
            },
            Some(entity) => {
                let ghost rest = chain(
                    w,
                    wrap(current_pos, delta),
                    delta,
                    (walk_fuel() - steps - 1) as nat,
                );
                assert(tmp_to_move@ + (seq![entity] + rest) =~= tmp_to_move@.push(entity) + rest);
                tmp_to_move.push(entity);
                current_pos = add_delta(current_pos, delta);
                steps = steps + 1;
            },
        }
    }
    (tmp_to_move, current_pos)
}

/// `marks` tells, for each identifier below its length, whether `to_move`
/// holds it; `to_move` holds each entity once.
pub open spec fn marked_set(to_move: Seq<EntityId>, marks: Seq<bool>) -> bool {
    &&& to_move.no_duplicates()
    &&& forall|k: int| 0 <= k < to_move.len() ==> #[trigger] to_move[k] < marks.len()
    &&& forall|e: EntityId| e < marks.len() ==> (#[trigger] marks[e as int] <==> to_move.contains(e))
}

/// Adds to `to_move` the entities of `chain` that it does not hold yet.
fn merge_new(to_move: &mut Vec<EntityId>, marks: &mut Vec<bool>, chain: &Vec<EntityId>)
    requires
        marked_set(old(to_move)@, old(marks)@),
        forall|k: int| 0 <= k < chain@.len() ==> #[trigger] chain@[k] < old(marks)@.len(),
    ensures
        final(to_move)@ == add_new(old(to_move)@, chain@),
        marked_set(final(to_move)@, final(marks)@),
        final(marks)@.len() == old(marks)@.len(),
{
    let ghost acc = to_move@;
    let mut j: usize = 0;
    while j < chain.len()
        invariant
            j <= chain@.len(),
            marks@.len() == old(marks)@.len(),
            forall|k: int| 0 <= k < chain@.len() ==> #[trigger] chain@[k] < marks@.len(),
            marked_set(to_move@, marks@),
            to_move@ == add_new(acc, chain@.subrange(0, j as int)),
        decreases chain@.len() - j,
    {
        let entity = chain[j];
        assert(chain@.subrange(0, j + 1).drop_last() =~= chain@.subrange(0, j as int));
        assert(chain@.subrange(0, j + 1).last() == entity);
        if !marks[entity] {
            let ghost before = to_move@;
            to_move.push(entity);
            marks[entity] = true;
            assert(to_move@[before.len() as int] == entity);
            assert forall|e: EntityId| e < marks@.len() implies (#[trigger] marks@[e as int]
                <==> to_move@.contains(e)) by {
                if to_move@.contains(e) {
                    let k = choose|k: int| 0 <= k < to_move@.len() && to_move@[k] == e;
                    if k < before.len() {
                        assert(before[k] == e);
                    }
                }
                if e != entity && before.contains(e) {
                    let k = choose|k: int| 0 <= k < before.len() && before[k] == e;
                    assert(to_move@[k] == e);
                }
            }
        }
        j = j + 1;
    }
    assert(chain@.subrange(0, chain@.len() as int) =~= chain@);
}

/// The records of a queue of requests resolved in order, each against the
/// store as the records before it left it.
pub open spec fn records(w: Seq<EntityState>, cmds: Seq<CommandView>) -> Seq<MoveRecord>
    decreases cmds.len(),
{
    if cmds.len() == 0 {
        seq![]
    } else {
        let prev = records(w, cmds.drop_last());
        prev.push(resolve_record(apply_all(w, prev), cmds.last()))
    }
}

/// Moves each listed entity once by `delta`.
fn move_entities(world: &mut World, entities: &Vec<EntityId>, delta: (i16, i16))
    requires
        old(world).wf(),
        entities@.no_duplicates(),
        forall|k: int| 0 <= k < entities@.len() ==> #[trigger] entities@[k] < old(world).entities@.len(),
    ensures
        final(world).entities@ == apply_move(old(world).entities@, entities@, delta),
        final(world).wf(),
{
    let ghost w0 = world.entities@;
    let ghost s = entities@;
    let n = world.entities.len();
    let mut k: usize = 0;
    while k < entities.len()
        invariant
            w0.len() == n,
            s == entities@,
            s.no_duplicates(),
            forall|j: int| 0 <= j < s.len() ==> #[trigger] s[j] < w0.len(),
            k <= s.len(),
            world.entities@ == apply_move(w0, s.subrange(0, k as int), delta),
            world.wf(),
        decreases s.len() - k,
    {
        let entity = entities[k];
        let ghost a = s.subrange(0, k as int);
        let ghost b = s.subrange(0, k + 1);
        assert(!a.contains(entity)) by {
            if a.contains(entity) {
                let j = choose|j: int| 0 <= j < a.len() && #[trigger] a[j] == entity;
                assert(s[j] == s[k as int]);
            }
        }
        assert(world.entities@[entity as int] == w0[entity as int]);
        let new_pos = add_delta(world.entities[entity].position.to_tuple(), delta);
        let old_state = world.entities[entity];
        world.entities[entity] = EntityState {
            position: Position::from_tuple(new_pos),
            ..old_state
        };
        assert(world.entities@[entity as int] == moved(w0[entity as int], delta));
        assert forall|e: EntityId| #[trigger] b.contains(e) <==> (a.contains(e) || e == entity) by {
            if b.contains(e) {
                let j = choose|j: int| 0 <= j < b.len() && #[trigger] b[j] == e;
                if j < k {
                    assert(a[j] == e);
                }
            }
            if a.contains(e) {
                let j = choose|j: int| 0 <= j < a.len() && #[trigger] a[j] == e;
                assert(b[j] == e);
            }
            if e == entity {
                assert(b[k as int] == e);
            }
        }
        assert forall|i: int| 0 <= i < w0.len() implies world.entities@[i] == apply_move(
            w0,
            b,
            delta,
        )[i] by {
            if i != entity as int {
                assert(b.contains(i as EntityId) == a.contains(i as EntityId));
            }
        }
        assert(world.entities@ =~= apply_move(w0, b, delta));
        k = k + 1;
    }
    assert(s.subrange(0, s.len() as int) =~= s);
}

/// Resolves one request against the live store: filters its participants,
/// finds each surviving participant's chain, moves every entity of the
/// unblocked chains once, and returns the record of what moved.
pub fn resolve_command(command: MoveCommand, world: &mut World) -> (r: ActualMove)
    requires
        old(world).wf(),
        command.wf(old(world).entities@.len()),
    ensures
        r@ == resolve_record(old(world).entities@, command@),
        final(world).entities@ == apply_move(old(world).entities@, r@.entities, r@.delta),
        final(world).wf(),
        r@.wf(old(world).entities@.len()),
{
    let ghost w = world.entities@;
    let mut command = command;
    command.keep_still_valid(world);
    let ghost parts = command.entities@;
    let movables = movable_grid(world);

    let mut marks: Vec<bool> = Vec::new();
    while marks.len() < world.entities.len()
        invariant
            marks@.len() <= w.len(),
            w == world.entities@,
            forall|e: int| 0 <= e < marks@.len() ==> !(#[trigger] marks@[e]),
        decreases w.len() - marks@.len(),
    {
        marks.push(false);
    }
    let mut to_move: Vec<EntityId> = Vec::new();
    let mut i: usize = 0;
    while i < command.entities.len()
        invariant
            w == world.entities@,
            world.wf(),
            parts == command.entities@,
            participants_in(parts, w.len()),
            is_movable_grid(w, movables@),
            i <= parts.len(),
            marks@.len() == w.len(),
            marked_set(to_move@, marks@),
            to_move@ == entities_to_move(w, parts.subrange(0, i as int), command.delta),
        decreases parts.len() - i,
    {
        let (entity, _) = command.entities[i];
        assert(parts[i as int].0 < w.len());
        let current_pos = world.entities[entity].position.to_tuple();
        assert(w[entity as int].wf());
        let (tmp_to_move, landing_pos) = walk_chain(world, &movables, current_pos, command.delta);
        assert(parts.subrange(0, i + 1).drop_last() =~= parts.subrange(0, i as int));
        assert(parts.subrange(0, i + 1).last() == parts[i as int]);
        if !is_blocked(world, landing_pos) {
            merge_new(&mut to_move, &mut marks, &tmp_to_move);
        }
        i = i + 1;
    }
    assert(parts.subrange(0, parts.len() as int) =~= parts);
    move_entities(world, &to_move, command.delta);
    ActualMove { entities: to_move, cause: command.cause, delta: command.delta }
}

proof fn lemma_append_record_wf(h: Seq<Seq<MoveRecord>>, r: MoveRecord, n: nat)
    requires
        grouped(h),
        records_wf(h, n),
        r.wf(n),
    ensures
        grouped(append_record(h, r)),
        records_wf(append_record(h, r), n),
{
    let h2 = append_record(h, r);
    if r.cause == MoveCause::UserMove || h.len() == 0 {
        assert forall|i: int, j: int| 0 <= i < h2.len() && 0 <= j < h2[i].len() implies (
        #[trigger] h2[i][j]).wf(n) by {
            if i < h.len() {
                assert(h2[i] == h[i]);
            }
        }
    } else {
        assert forall|i: int, j: int| 0 <= i < h2.len() && 0 <= j < h2[i].len() implies (
        #[trigger] h2[i][j]).wf(n) by {
            if i < h.len() - 1 {
                assert(h2[i] == h[i]);
            } else if j < h.last().len() {
                assert(h2[i][j] == h[i][j]);
            }
        }
        assert forall|i: int, j: int| 0 <= i < h2.len() && 0 < j < h2[i].len() implies (
        #[trigger] h2[i][j]).cause != MoveCause::UserMove by {
            if i < h.len() - 1 {
                assert(h2[i] == h[i]);
            } else if j < h.last().len() {
                assert(h2[i][j] == h[i][j]);
            }
        }
        assert forall|i: int| 0 < i < h2.len() implies (#[trigger] h2[i])[0].cause
            == MoveCause::UserMove by {
            if i < h.len() - 1 {
                assert(h2[i] == h[i]);
            } else {
                assert(h2[i][0] == h[i][0]);
            }
        }
    }
}

/// Resolves every pending request of the tick, in the order they were made,
/// records each outcome in the history under the grouping rule, and empties
/// the queue.
pub fn process_move(
    move_commands: &mut MoveCommands,
    move_history: &mut MoveHistory,
    world: &mut World,
)
    requires
        old(world).wf(),
        old(move_commands).wf(old(world).entities@.len()),
        old(move_history).wf(old(world).entities@.len()),
    ensures
        final(world).entities@ == apply_all(
            old(world).entities@,
            records(old(world).entities@, old(move_commands)@),
        ),
        final(move_history)@ == append_all(
            old(move_history)@,
            records(old(world).entities@, old(move_commands)@),
        ),
        final(move_commands)@.len() == 0,
        final(world).wf(),
        final(world).entities@.len() == old(world).entities@.len(),
        final(move_history).wf(old(world).entities@.len()),
{
    let ghost w0 = world.entities@;
    let ghost h0 = move_history@;
    let ghost cs = move_commands@;
    let ghost n = w0.len();
    let len0 = move_commands.commands.len();
    assert(cs.len() == len0);
    let mut k: usize = 0;
    while move_commands.commands.len() > 0
        invariant
            cs.len() == len0,
            k <= cs.len(),
            move_commands@ == cs.subrange(k as int, cs.len() as int),
            move_commands.wf(n),
            world.wf(),
            world.entities@.len() == n,
            world.entities@ == apply_all(w0, records(w0, cs.subrange(0, k as int))),
            move_history@ == append_all(h0, records(w0, cs.subrange(0, k as int))),
            move_history.wf(n),
        decreases move_commands.commands@.len(),
    {
        let ghost before = move_commands.commands@;
        let ghost before_view = move_commands@;
        assert(before.map_values(|c: MoveCommand| c@).len() == before.len());
        assert(k < cs.len());
        let command = move_commands.commands.remove(0);
        assert(move_commands.commands@ =~= before.subrange(1, before.len() as int));
        assert(command == before[0]);
        assert(command@ == cs[k as int]) by {
            assert(before.map_values(|c: MoveCommand| c@)[0] == before[0]@);
            assert(before.map_values(|c: MoveCommand| c@)[0] == cs.subrange(
                k as int,
                cs.len() as int,
            )[0]);
        }
        assert(before[0].wf(n));
        let ghost prev = records(w0, cs.subrange(0, k as int));
        let actual_move = resolve_command(command, world);
        proof {
            lemma_append_record_wf(move_history@, actual_move@, n);
        }
        move_history.record(actual_move);
        proof {
            assert(cs.subrange(0, k + 1).drop_last() =~= cs.subrange(0, k as int));
            assert(records(w0, cs.subrange(0, k + 1)).drop_last() =~= prev);
            assert forall|j: int| 0 <= j < move_commands@.len() implies move_commands@[j]
                == before_view[j + 1] by {
                assert(move_commands.commands@[j] == before[j + 1]);
            }
            assert(move_commands@ =~= cs.subrange(k + 1, cs.len() as int));
        }
        k = k + 1;
    }
    assert(cs.subrange(0, cs.len() as int) =~= cs);
}

/// The store and history after an undo: the last tick entry leaves the
/// history and its records are reversed, the last one first. An empty
/// history changes nothing.
pub open spec fn undo_tick(w: Seq<EntityState>, h: Seq<Seq<MoveRecord>>) -> (
    Seq<EntityState>,
    Seq<Seq<MoveRecord>>,
) {
    if h.len() == 0 {
        (w, h)
    } else {
        (undo_group(w, h.last()), h.drop_last())
    }
}

/// On the undo signal, removes the last tick entry from the history and
/// reverses each of its records, the last one first.
pub fn undo(move_history: &mut MoveHistory, undo_pressed: bool, world: &mut World)
    requires
        old(world).wf(),
        old(move_history).wf(old(world).entities@.len()),
    ensures
        undo_pressed ==> (final(world).entities@, final(move_history)@) == undo_tick(
            old(world).entities@,
            old(move_history)@,
        ),
        !undo_pressed ==> final(world).entities@ == old(world).entities@ && final(move_history)@
            == old(move_history)@,
        old(move_history)@.len() == 0 ==> final(world).entities@ == old(world).entities@
            && final(move_history)@ == old(move_history)@,
        final(world).wf(),
        final(world).entities@.len() == old(world).entities@.len(),
        final(move_history).wf(old(world).entities@.len()),
{
    if !undo_pressed {
        return ;
    }
    let ghost w0 = world.entities@;
    let ghost h0 = move_history@;
    let ghost n = w0.len();
    let ghost moves0 = move_history.moves@;
    match move_history.moves.pop() {
        None => {},
        Some(last_game_loop_move) => {
            let ghost g = h0.last();
            assert(last_game_loop_move@.map_values(|a: ActualMove| a@) == g);
            assert(move_history@ =~= h0.drop_last()) by {
                assert(move_history.moves@ =~= moves0.drop_last());
            }
            let mut i: usize = last_game_loop_move.len();
            assert(g.subrange(0, i as int) =~= g);
            while i > 0
                invariant
                    i <= g.len(),
                    g.len() == last_game_loop_move@.len(),
                    forall|j: int|
                        0 <= j < g.len() ==> #[trigger] last_game_loop_move@[j]@ == g[j],
                    forall|j: int| 0 <= j < g.len() ==> (#[trigger] g[j]).wf(n),
                    world.wf(),
                    world.entities@.len() == n,
                    undo_group(w0, g) == undo_group(world.entities@, g.subrange(0, i as int)),
                decreases i,
            {
                i = i - 1;
                let last_move = &last_game_loop_move[i];
                assert(last_game_loop_move@[i as int]@ == g[i as int]);
                assert(last_move.entities@ == g[i as int].entities);
                assert(last_move.delta == g[i as int].delta);
                assert(g[i as int].wf(n));
                let delta = last_move.undo_delta();
                assert(g.subrange(0, i + 1).drop_last() =~= g.subrange(0, i as int));
                move_entities(world, &last_move.entities, delta);
            }
        },
    }
}

/// The requests' entries of the player-controlled entities among the first
/// `n` entities of the store, each with the cell it stands on.
pub open spec fn player_entries(w: Seq<EntityState>, n: int) -> Seq<(EntityId, PositionTuple)>
    decreases n,
{
    if n <= 0 {
        seq![]
    } else {
        let r = player_entries(w, n - 1);
        if w[n - 1].player_controlled {
            r.push(((n - 1) as EntityId, w[n - 1].position.tuple()))
        } else {
            r
        }
    }
}

/// The player's request for a step in direction `d`.
pub open spec fn player_request(w: Seq<EntityState>, d: Dir) -> CommandView {
    CommandView {
        entities: player_entries(w, w.len() as int),
        cause: MoveCause::UserMove,
        delta: d.delta(),
    }
}

/// On a decoded direction, queues one request that moves every
/// player-controlled entity by that direction's step.
pub fn move_good_level_wall(intent: Option<Dir>, world: &World, move_commands: &mut MoveCommands)
    requires
        old(move_commands).wf(world.entities@.len()),
    ensures
        intent is None ==> final(move_commands)@ == old(move_commands)@,
        intent is Some ==> final(move_commands)@ == old(move_commands)@.push(
            player_request(world.entities@, intent->0),
        ),
        final(move_commands).wf(world.entities@.len()),
{
    let dir = match intent {
        Some(dir) => dir,
        None => {
            return ;
        },
    };
    let delta = dir.to_delta();
    let ghost w = world.entities@;
    let mut entities: Vec<(EntityId, PositionTuple)> = Vec::new();
    let mut i: usize = 0;
    while i < world.entities.len()
        invariant
            w == world.entities@,
            i <= w.len(),
            entities@ == player_entries(w, i as int),
            participants_in(entities@, w.len()),
        decreases w.len() - i,
    {
        if world.entities[i].player_controlled {
            entities.push((i, world.entities[i].position.to_tuple()));
        }
        i = i + 1;
    }
    move_commands.push(MoveCommand { entities, cause: MoveCause::UserMove, delta });
}

/// The trigger requests for the trigger `f` over the first `m` entities: one
/// for each movable entity standing on its cell.
pub open spec fn requests_on(w: Seq<EntityState>, f: int, m: int) -> Seq<CommandView>
    decreases m,
{
    if m <= 0 {
        seq![]
    } else {
        let r = requests_on(w, f, m - 1);
        if w[m - 1].movable && w[m - 1].position == w[f].position {
            r.push(
                CommandView {
                    entities: seq![((m - 1) as EntityId, w[m - 1].position.tuple())],
                    cause: MoveCause::FunnelMove(w[f].position.tuple()),
                    delta: (w[f].trigger->0).0.delta(),
                },
            )
        } else {
            r
        }
    }
}

/// The trigger requests of the first `n` entities, trigger by trigger.
pub open spec fn trigger_requests(w: Seq<EntityState>, n: int) -> Seq<CommandView>
    decreases n,
{
    if n <= 0 {
        seq![]
    } else {
        let r = trigger_requests(w, n - 1);
        if w[n - 1].trigger is Some {
            r + requests_on(w, n - 1, w.len() as int)
        } else {
            r
        }
    }
}

/// Queues, for every trigger and every movable entity on its cell, a request
/// that pushes that entity in the trigger's direction.
pub fn funnel_move(world: &World, move_commands: &mut MoveCommands)
    requires
        old(move_commands).wf(world.entities@.len()),
    ensures
        final(move_commands)@ == old(move_commands)@ + trigger_requests(
            world.entities@,
            world.entities@.len() as int,
        ),
        final(move_commands).wf(world.entities@.len()),
{
    let ghost w = world.entities@;
    let ghost n = w.len();
    let ghost start = move_commands@;
    let mut f: usize = 0;
    while f < world.entities.len()
        invariant
            w == world.entities@,
            n == w.len(),
            f <= n,
            move_commands@ == start + trigger_requests(w, f as int),
            move_commands.wf(n),
        decreases n - f,
    {
        let funnel = world.entities[f];
        let ghost mid = move_commands@;
        match funnel.trigger {
            None => {},
            Some(direction) => {
                let funnel_pos = funnel.position.to_tuple();
                let delta = direction.to_delta();
                let mut m: usize = 0;
                while m < world.entities.len()
                    invariant
                        w == world.entities@,
                        n == w.len(),
                        f < n,
                        m <= n,
                        funnel == w[f as int],
                        funnel.trigger == Some(direction),
                        funnel_pos == funnel.position.tuple(),
                        delta == direction.0.delta(),
                        is_unit_delta(delta),
                        move_commands@ == mid + requests_on(w, f as int, m as int),
                        move_commands.wf(n),
                    decreases n - m,
                {
                    let movable = world.entities[m];
                    if movable.movable && movable.position == funnel.position {
                        let movable_pos = movable.position.to_tuple();
                        let entities = vec![(m, movable_pos)];
                        assert(entities@ =~= seq![(m, movable_pos)]);
                        move_commands.push(
                            MoveCommand {
                                entities,
                                cause: MoveCause::FunnelMove(funnel_pos),
                                delta,
                            },
                        );
                        assert(move_commands@ =~= mid + requests_on(w, f as int, m + 1));
                    } else {
                        assert(requests_on(w, f as int, m + 1) == requests_on(w, f as int, m as int));
                    }
                    m = m + 1;
                }
                assert(move_commands@ =~= start + trigger_requests(w, f + 1));
            },
        }
        f = f + 1;
    }
}

/// A player-controlled wall: movable and moved by the player.
pub open spec fn good_level_wall(position: Position) -> EntityState {
    EntityState {
        position,
        movable: true,
        immovable: false,
        player_controlled: true,
        trigger: None,
    }
}

/// A fixed wall that blocks chains.
pub open spec fn bad_level_wall(position: Position) -> EntityState {
    EntityState {
        position,
        movable: false,
        immovable: true,
        player_controlled: false,
        trigger: None,
    }
}

/// A box: movable, pushed by others.
pub open spec fn box_block(position: Position) -> EntityState {
    EntityState {
        position,
        movable: true,
        immovable: false,
        player_controlled: false,
        trigger: None,
    }
}

/// A funnel: a trigger that pushes in its direction whatever stands on it.
pub open spec fn funnel(position: Position, direction: Orientation) -> EntityState {
    EntityState {
        position,
        movable: false,
        immovable: false,
        player_controlled: false,
        trigger: Some(direction),
    }
}

/// Adds a player-controlled wall on `position`.
pub fn spawn_good_level_wall(world: &mut World, position: Position) -> (id: EntityId)
    requires
        old(world).wf(),
        in_bounds(position.tuple()),
    ensures
        final(world).entities@ == old(world).entities@.push(good_level_wall(position)),
        id == old(world).entities@.len(),
        final(world).wf(),
{
    world.spawn(
        EntityState {
            position,
            movable: true,
            immovable: false,
            player_controlled: true,
            trigger: None,
        },
    )
}

/// Adds a fixed wall on `position`.
pub fn spawn_bad_level_wall(world: &mut World, position: Position) -> (id: EntityId)
    requires
        old(world).wf(),
        in_bounds(position.tuple()),
    ensures
        final(world).entities@ == old(world).entities@.push(bad_level_wall(position)),
        id == old(world).entities@.len(),
        final(world).wf(),
{
    world.spawn(
        EntityState {
            position,
            movable: false,
            immovable: true,
            player_controlled: false,
            trigger: None,
        },
    )
}

/// Adds a box on `position`.
pub fn spawn_box(world: &mut World, position: Position) -> (id: EntityId)
    requires
        old(world).wf(),
        in_bounds(position.tuple()),
    ensures
        final(world).entities@ == old(world).entities@.push(box_block(position)),
        id == old(world).entities@.len(),
        final(world).wf(),
{
    world.spawn(
        EntityState {
            position,
            movable: true,
            immovable: false,
            player_controlled: false,
            trigger: None,
        },
    )
}

/// Adds a funnel on `position` that pushes towards `direction`.
pub fn spawn_funnel(world: &mut World, position: Position, direction: Orientation) -> (id: EntityId)
    requires
        old(world).wf(),
        in_bounds(position.tuple()),
    ensures
        final(world).entities@ == old(world).entities@.push(funnel(position, direction)),
        id == old(world).entities@.len(),
        final(world).wf(),
{
    world.spawn(
        EntityState {
            position,
            movable: false,
            immovable: false,
            player_controlled: false,
            trigger: Some(direction),
        },
    )
}

/// The entities of the starting level.
pub open spec fn level_entities() -> Seq<EntityState> {
    seq![
        good_level_wall(Position { x: 5, y: 5 }),
        good_level_wall(Position { x: 0, y: 0 }),
        bad_level_wall(Position { x: 3, y: 6 }),
        box_block(Position { x: 4, y: 6 }),
        funnel(Position { x: 5, y: 6 }, Orientation(Dir::Down)),
        funnel(Position { x: 5, y: 5 }, Orientation(Dir::Right)),
        funnel(Position { x: 3, y: 5 }, Orientation(Dir::Up)),
    ]
}

/// Adds the entities of the starting level to the store.
pub fn setup(world: &mut World)
    requires
        old(world).wf(),
    ensures
        final(world).entities@ == old(world).entities@ + level_entities(),
        final(world).wf(),
{
    let good_level_wall_pos = Position { x: LEVEL_X_MAX / 2, y: LEVEL_Y_MAX / 2 };

    spawn_good_level_wall(world, good_level_wall_pos);
    spawn_good_level_wall(world, Position { x: 0, y: 0 });

    spawn_bad_level_wall(world, Position { x: 3, y: 6 });

    spawn_box(world, Position { x: 4, y: 6 });

    spawn_funnel(world, Position { x: 5, y: 6 }, Orientation(Dir::Down));
    spawn_funnel(world, Position { x: 5, y: 5 }, Orientation(Dir::Right));
    spawn_funnel(world, Position { x: 3, y: 5 }, Orientation(Dir::Up));
    assert(world.entities@ =~= old(world).entities@ + level_entities());
}

} // verus!
