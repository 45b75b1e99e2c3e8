use vstd::prelude::*;

use crate::components::{EntityState, Position, PositionTuple};
use crate::utils::{is_unit_delta, neg_delta, same_cell, wrap};

verus! {

/// Index of an entity in the position store.
pub type EntityId = usize;

/// Why a move was asked for: the player, or the trigger standing on the
/// given cell.
#[derive(Debug, Clone, Copy, PartialEq, Eq)]
pub enum MoveCause {
    UserMove,
    FunnelMove(PositionTuple),
}

/// A request to move: each participant with the cell it stood on when the
/// request was made.
pub struct MoveCommand {
    pub entities: Vec<(EntityId, PositionTuple)>,
    pub cause: MoveCause,
    pub delta: (i16, i16),
}

/// The mathematical content of a `MoveCommand`.
pub struct CommandView {
    pub entities: Seq<(EntityId, PositionTuple)>,
    pub cause: MoveCause,
    pub delta: (i16, i16),
}

impl View for MoveCommand {
    type V = CommandView;

    open spec fn view(&self) -> CommandView {
        CommandView { entities: self.entities@, cause: self.cause, delta: self.delta }
    }
}

/// The participants of a trigger's request that still stand on its cell: the
/// snapshot is the trigger's cell and the entity has not left it since.
pub open spec fn still_at(
    s: Seq<(EntityId, PositionTuple)>,
    origin: PositionTuple,
    w: Seq<EntityState>,
) -> Seq<(EntityId, PositionTuple)>
    decreases s.len(),
{
    if s.len() == 0 {
        s
    } else {
        let rest = still_at(s.drop_last(), origin, w);
        let e = s.last();
        if e.1 == origin && w[e.0 as int].position.tuple() == origin {
            rest.push(e)
        } else {
            rest
        }
    }
}

/// The participants of a request that survive the validity filter: all of
/// them for the player, only those still on the trigger's cell otherwise.
pub open spec fn valid_participants(c: CommandView, w: Seq<EntityState>) -> Seq<
    (EntityId, PositionTuple),
> {
    match c.cause {
        MoveCause::UserMove => c.entities,
        MoveCause::FunnelMove(origin) => still_at(c.entities, origin, w),
    }
}

/// Every participant names an entity of a store of `n` entities.
pub open spec fn participants_in(s: Seq<(EntityId, PositionTuple)>, n: nat) -> bool {
    forall|i: int| 0 <= i < s.len() ==> (#[trigger] s[i]).0 < n
}

impl MoveCommand {
    /// A request over a store of `n` entities, with a unit step.
    pub open spec fn wf(&self, n: nat) -> bool {
        participants_in(self.entities@, n) && is_unit_delta(self.delta)
    }

    /// Drops the participants that a trigger's request may no longer act on.
    pub fn keep_still_valid(&mut self, world: &World)
        requires
            participants_in(old(self).entities@, world.entities@.len()),
        ensures
            final(self).cause == old(self).cause,
            final(self).delta == old(self).delta,
            final(self).entities@ == valid_participants(old(self)@, world.entities@),
            participants_in(final(self).entities@, world.entities@.len()),
    {
        match self.cause {
            MoveCause::UserMove => {},
            MoveCause::FunnelMove(funnel_pos) => {
                let ghost s = self.entities@;
                let ghost w = world.entities@;
                let mut kept: Vec<(EntityId, PositionTuple)> = Vec::new();
                let mut i: usize = 0;
                while i < self.entities.len()
                    invariant
                        s == self.entities@,
                        w == world.entities@,
                        participants_in(s, w.len()),
                        i <= s.len(),
                        kept@ == still_at(s.subrange(0, i as int), funnel_pos, w),
                        participants_in(kept@, w.len()),
                    decreases s.len() - i,
                {
                    let (entity, pos) = self.entities[i];
                    assert(s.subrange(0, i + 1).drop_last() =~= s.subrange(0, i as int));
                    if same_cell(pos, funnel_pos) && same_cell(
                        world.entities[entity].position.to_tuple(),
                        funnel_pos,
                    ) {
                        kept.push((entity, pos));
                    }
                    i = i + 1;
                }
                assert(s.subrange(0, s.len() as int) =~= s);
                self.entities = kept;
            },
        }
    }
}

/// What a resolved request moved.
#[derive(Debug, PartialEq, Eq)]
pub struct ActualMove {
    pub entities: Vec<EntityId>,
    pub cause: MoveCause,
    pub delta: (i16, i16),
}

/// The mathematical content of an `ActualMove`.
pub struct MoveRecord {
    pub entities: Seq<EntityId>,
    pub cause: MoveCause,
    pub delta: (i16, i16),
}

impl View for ActualMove {
    type V = MoveRecord;

    open spec fn view(&self) -> MoveRecord {
        MoveRecord { entities: self.entities@, cause: self.cause, delta: self.delta }
    }
}

impl MoveRecord {
    /// A record over a store of `n` entities: each moved entity once, and a
    /// unit step.
    pub open spec fn wf(self, n: nat) -> bool {
        &&& self.entities.no_duplicates()
        &&& forall|i: int| 0 <= i < self.entities.len() ==> #[trigger] self.entities[i] < n
        &&& is_unit_delta(self.delta)
    }
}

impl ActualMove {
    /// The step that reverses this move.
    pub fn undo_delta(&self) -> (r: (i16, i16))
        requires
            self.delta.0 > i16::MIN,
            self.delta.1 > i16::MIN,
        ensures
            r == neg_delta(self.delta),
    {
        (-self.delta.0, -self.delta.1)
    }
}

/// An entity after a move by `d`.
pub open spec fn moved(e: EntityState, d: (i16, i16)) -> EntityState {
    let p = wrap(e.position.tuple(), d);
    EntityState { position: Position { x: p.0, y: p.1 }, ..e }
}

/// The store after moving each listed entity once by `d`; the others stay.
pub open spec fn apply_move(w: Seq<EntityState>, ents: Seq<EntityId>, d: (i16, i16)) -> Seq<
    EntityState,
> {
    Seq::new(w.len(), |i: int| if ents.contains(i as EntityId) { moved(w[i], d) } else { w[i] })
}

/// The store after each record in turn.
pub open spec fn apply_all(w: Seq<EntityState>, rs: Seq<MoveRecord>) -> Seq<EntityState>
    decreases rs.len(),
{
    if rs.len() == 0 {
        w
    } else {
        let r = rs.last();
        apply_move(apply_all(w, rs.drop_last()), r.entities, r.delta)
    }
}

/// The store after reversing each record of a group, the last one first.
pub open spec fn undo_group(w: Seq<EntityState>, g: Seq<MoveRecord>) -> Seq<EntityState>
    decreases g.len(),
{
    if g.len() == 0 {
        w
    } else {
        let r = g.last();
        undo_group(apply_move(w, r.entities, neg_delta(r.delta)), g.drop_last())
    }
}

/// The history after one more record: it opens a new tick entry when it was
/// caused by the player or when the history is empty, and joins the last
/// entry otherwise.
pub open spec fn append_record(h: Seq<Seq<MoveRecord>>, r: MoveRecord) -> Seq<Seq<MoveRecord>> {
    if r.cause == MoveCause::UserMove || h.len() == 0 {
        h.push(seq![r])
    } else {
        h.update(h.len() - 1, h.last().push(r))
    }
}

/// The history after each record in turn.
pub open spec fn append_all(h: Seq<Seq<MoveRecord>>, rs: Seq<MoveRecord>) -> Seq<Seq<MoveRecord>>
    decreases rs.len(),
{
    if rs.len() == 0 {
        h
    } else {
        append_record(append_all(h, rs.drop_last()), rs.last())
    }
}

/// The pending requests of the tick, in the order they were made.
pub struct MoveCommands {
    pub commands: Vec<MoveCommand>,
}

impl View for MoveCommands {
    type V = Seq<CommandView>;

    open spec fn view(&self) -> Seq<CommandView> {
        self.commands@.map_values(|c: MoveCommand| c@)
    }
}

impl MoveCommands {
    pub open spec fn wf(&self, n: nat) -> bool {
        forall|i: int| 0 <= i < self.commands@.len() ==> (#[trigger] self.commands@[i]).wf(n)
    }

    pub fn new() -> (r: MoveCommands)
        ensures
            r@.len() == 0,
    {
        MoveCommands { commands: Vec::new() }
    }

    /// Queues a request behind the others.
    pub fn push(&mut self, command: MoveCommand)
        ensures
            final(self)@ == old(self)@.push(command@),
            forall|n: nat| old(self).wf(n) && command.wf(n) ==> #[trigger] final(self).wf(n),
    {
        let ghost c = command@;
        self.commands.push(command);
        assert(self@ =~= old(self)@.push(c));
    }
}

/// The resolved moves, one entry per tick, each entry in resolution order.
pub struct MoveHistory {
    pub moves: Vec<Vec<ActualMove>>,
}

impl View for MoveHistory {
    type V = Seq<Seq<MoveRecord>>;

    open spec fn view(&self) -> Seq<Seq<MoveRecord>> {
        self.moves@.map_values(|g: Vec<ActualMove>| g@.map_values(|a: ActualMove| a@))
    }
}

/// Each entry holds at least one record, only the first record of an entry
/// may come from the player, and every entry after the first opens with one.
pub open spec fn grouped(h: Seq<Seq<MoveRecord>>) -> bool {
    &&& forall|i: int| 0 <= i < h.len() ==> (#[trigger] h[i]).len() > 0
    &&& forall|i: int| 0 < i < h.len() ==> (#[trigger] h[i])[0].cause == MoveCause::UserMove
    &&& forall|i: int, j: int|
        0 <= i < h.len() && 0 < j < h[i].len() ==> (#[trigger] h[i][j]).cause
            != MoveCause::UserMove
}

/// Every record of the history is well formed over a store of `n` entities.
pub open spec fn records_wf(h: Seq<Seq<MoveRecord>>, n: nat) -> bool {
    forall|i: int, j: int| 0 <= i < h.len() && 0 <= j < h[i].len() ==> (#[trigger] h[i][j]).wf(n)
}

impl MoveHistory {
    pub open spec fn wf(&self, n: nat) -> bool {
        grouped(self@) && records_wf(self@, n)
    }

    pub fn new() -> (r: MoveHistory)
        ensures
            r@.len() == 0,
            r.wf(0),
    {
        MoveHistory { moves: Vec::new() }
    }

    /// The last record of the last tick entry.
    pub fn last_actual_move(&self) -> (r: Option<&ActualMove>)
        ensures
            r is None <==> (self@.len() == 0 || self@.last().len() == 0),
            r is Some ==> r->0@ == self@.last().last(),
    {
        if self.moves.len() == 0 {
            return None;
        }
        let last_game_loop_move = &self.moves[self.moves.len() - 1];
        if last_game_loop_move.len() == 0 {
            None
        } else {
            Some(&last_game_loop_move[last_game_loop_move.len() - 1])
        }
    }

    /// The cause of the last record of the last tick entry.
    pub fn last_move_cause(&self) -> (r: Option<MoveCause>)
        ensures
            r is None <==> (self@.len() == 0 || self@.last().len() == 0),
            r is Some ==> r->0 == self@.last().last().cause,
    {
        match self.last_actual_move() {
            Some(last_actual_move) => Some(last_actual_move.cause),
            None => None,
        }
    }

    /// Appends a resolved move, opening a new tick entry where the grouping
    /// rule asks for one.
    pub fn record(&mut self, actual_move: ActualMove)
        ensures
            final(self)@ == append_record(old(self)@, actual_move@),
    {
        let opens = match actual_move.cause {
            MoveCause::UserMove => true,
            MoveCause::FunnelMove(_) => false,
        };
        let ghost r = actual_move@;
        if opens || self.moves.len() == 0 {
            let group = vec![actual_move];
            assert(group@.map_values(|a: ActualMove| a@) =~= seq![r]);
            self.moves.push(group);
            assert(self@ =~= append_record(old(self)@, r));
        } else {
            let mut last = self.moves.pop().unwrap();
            last.push(actual_move);
            self.moves.push(last);
            proof {
                let h = old(self)@;
                assert(self@[h.len() - 1] =~= h.last().push(r));
                assert(self@ =~= append_record(h, r));
            }
        }
    }
}

/// Every entity of the store stands on the board.
pub open spec fn all_in_bounds(w: Seq<EntityState>) -> bool {
    forall|i: int| 0 <= i < w.len() ==> (#[trigger] w[i]).wf()
}

/// The position store: every entity of the level with its cell and tags. An
/// entity's identifier is its index.
pub struct World {
    pub entities: Vec<EntityState>,
}

impl World {
    /// Every entity stands on the board.
    pub open spec fn wf(&self) -> bool {
        all_in_bounds(self.entities@)
    }

    pub fn new() -> (r: World)
        ensures
            r.entities@.len() == 0,
            r.wf(),
    {
        World { entities: Vec::new() }
    }

    /// Adds an entity; its identifier is returned.
    pub fn spawn(&mut self, entity: EntityState) -> (id: EntityId)
        requires
            old(self).wf(),
            entity.wf(),
        ensures
            final(self).entities@ == old(self).entities@.push(entity),
            id == old(self).entities@.len(),
            final(self).wf(),
    {
        let id = self.entities.len();
        self.entities.push(entity);
        id
    }

    /// The cell of an entity.
    pub fn position(&self, id: EntityId) -> (r: Position)
        requires
            id < self.entities@.len(),
        ensures
            r == self.entities@[id as int].position,
    {
        self.entities[id].position
    }
}

} // verus!
