use torus_push::components::{Dir, EntityState, Orientation, Position};
use torus_push::constants::{LEVEL_X_MAX, LEVEL_Y_MAX};
use torus_push::resources::{ActualMove, MoveCause, MoveCommand, MoveCommands, MoveHistory, World};
use torus_push::systems::{
    funnel_move, move_good_level_wall, process_move, resolve_command, setup, spawn_bad_level_wall,
    spawn_box, spawn_funnel, spawn_good_level_wall, undo,
};
use torus_push::utils::add_delta;

fn pos(x: u16, y: u16) -> Position {
    Position { x, y }
}

fn at(world: &World, id: usize) -> (u16, u16) {
    world.entities[id].position.to_tuple()
}

fn user_command(world: &World, ids: &[usize], delta: (i16, i16)) -> MoveCommand {
    MoveCommand {
        entities: ids.iter().map(|&id| (id, at(world, id))).collect(),
        cause: MoveCause::UserMove,
        delta,
    }
}

fn sorted(mut v: Vec<usize>) -> Vec<usize> {
    v.sort();
    v
}

#[test]
fn add_delta_steps_inside_the_board() {
    assert_eq!(add_delta((3, 3), (1, 0)), (4, 3));
    assert_eq!(add_delta((3, 3), (-1, 0)), (2, 3));
    assert_eq!(add_delta((3, 3), (0, 1)), (3, 4));
    assert_eq!(add_delta((3, 3), (0, -1)), (3, 2));
}

#[test]
fn add_delta_wraps_at_each_edge() {
    assert_eq!(add_delta((9, 4), (1, 0)), (0, 4));
    assert_eq!(add_delta((0, 4), (-1, 0)), (9, 4));
    assert_eq!(add_delta((4, 9), (0, 1)), (4, 0));
    assert_eq!(add_delta((4, 0), (0, -1)), (4, 9));
    assert_eq!(add_delta((0, 0), (-1, -1)), (9, 9));
}

#[test]
fn add_delta_is_total_on_large_inputs() {
    assert_eq!(add_delta((65535, 65535), (32767, 32767)), (0, 0));
    assert_eq!(add_delta((0, 0), (-32768, -32768)), (9, 9));
}

#[test]
fn wrap_then_opposite_step_is_identity() {
    let deltas = [(-1i16, 0i16), (1, 0), (0, 1), (0, -1)];
    for x in 0..LEVEL_X_MAX {
        for y in 0..LEVEL_Y_MAX {
            for d in deltas {
                let there = add_delta((x, y), d);
                assert_eq!(add_delta(there, (-d.0, -d.1)), (x, y));
            }
        }
    }
}

#[test]
fn directions_give_unit_steps() {
    assert_eq!(Dir::Left.to_delta(), (-1, 0));
    assert_eq!(Dir::Right.to_delta(), (1, 0));
    assert_eq!(Dir::Up.to_delta(), (0, 1));
    assert_eq!(Dir::Down.to_delta(), (0, -1));
    assert_eq!(Orientation(Dir::Down).to_delta(), (0, -1));
    assert_eq!(pos(2, 7).to_tuple(), (2, 7));
}

#[test]
fn undo_delta_is_the_opposite_step() {
    let m = ActualMove { entities: vec![], cause: MoveCause::UserMove, delta: (1, 0) };
    assert_eq!(m.undo_delta(), (-1, 0));
    let m = ActualMove { entities: vec![], cause: MoveCause::UserMove, delta: (0, -1) };
    assert_eq!(m.undo_delta(), (0, 1));
}

#[test]
fn single_entity_move() {
    let mut world = World::new();
    let e = spawn_box(&mut world, pos(4, 6));
    let mut commands = MoveCommands::new();
    commands.push(user_command(&world, &[e], (1, 0)));
    let mut history = MoveHistory::new();
    process_move(&mut commands, &mut history, &mut world);
    assert_eq!(at(&world, e), (5, 6));
    assert_eq!(history.moves.len(), 1);
    assert_eq!(history.moves[0][0].entities, vec![e]);
    assert!(commands.commands.is_empty());
}

#[test]
fn chain_push_success() {
    let mut world = World::new();
    let a = spawn_box(&mut world, pos(4, 6));
    let b = spawn_box(&mut world, pos(5, 6));
    let mut commands = MoveCommands::new();
    commands.push(user_command(&world, &[a], (1, 0)));
    let mut history = MoveHistory::new();
    process_move(&mut commands, &mut history, &mut world);
    assert_eq!(at(&world, a), (5, 6));
    assert_eq!(at(&world, b), (6, 6));
    assert_eq!(sorted(history.moves[0][0].entities.clone()), vec![a, b]);
}

#[test]
fn chain_push_blocked() {
    let mut world = World::new();
    let a = spawn_box(&mut world, pos(4, 6));
    let b = spawn_box(&mut world, pos(5, 6));
    spawn_bad_level_wall(&mut world, pos(6, 6));
    let mut commands = MoveCommands::new();
    commands.push(user_command(&world, &[a], (1, 0)));
    let mut history = MoveHistory::new();
    process_move(&mut commands, &mut history, &mut world);
    assert_eq!(at(&world, a), (4, 6));
    assert_eq!(at(&world, b), (5, 6));
    assert_eq!(history.moves.len(), 1);
    assert!(history.moves[0][0].entities.is_empty());
}

#[test]
fn blocked_single_entity_stays() {
    let mut world = World::new();
    let a = spawn_good_level_wall(&mut world, pos(4, 6));
    spawn_bad_level_wall(&mut world, pos(3, 6));
    let mut commands = MoveCommands::new();
    move_good_level_wall(Some(Dir::Left), &world, &mut commands);
    let mut history = MoveHistory::new();
    process_move(&mut commands, &mut history, &mut world);
    assert_eq!(at(&world, a), (4, 6));
    assert!(history.moves[0][0].entities.is_empty());
}

#[test]
fn push_across_the_edge_wraps() {
    let mut world = World::new();
    let a = spawn_good_level_wall(&mut world, pos(8, 2));
    let b = spawn_box(&mut world, pos(9, 2));
    let mut commands = MoveCommands::new();
    move_good_level_wall(Some(Dir::Right), &world, &mut commands);
    let mut history = MoveHistory::new();
    process_move(&mut commands, &mut history, &mut world);
    assert_eq!(at(&world, a), (9, 2));
    assert_eq!(at(&world, b), (0, 2));
}

#[test]
fn full_row_chain_rotates() {
    let mut world = World::new();
    let mut ids = Vec::new();
    for x in 0..LEVEL_X_MAX {
        ids.push(spawn_box(&mut world, pos(x, 3)));
    }
    let mut commands = MoveCommands::new();
    commands.push(user_command(&world, &[ids[0]], (1, 0)));
    let mut history = MoveHistory::new();
    process_move(&mut commands, &mut history, &mut world);
    for (x, &id) in ids.iter().enumerate() {
        assert_eq!(at(&world, id), (((x as u16) + 1) % LEVEL_X_MAX, 3));
    }
    assert_eq!(history.moves[0][0].entities.len(), ids.len());
}

#[test]
fn trigger_invalidation() {
    let mut world = World::new();
    let player = spawn_good_level_wall(&mut world, pos(5, 6));
    spawn_funnel(&mut world, pos(5, 6), Orientation(Dir::Down));
    let mut commands = MoveCommands::new();
    move_good_level_wall(Some(Dir::Right), &world, &mut commands);
    funnel_move(&world, &mut commands);
    assert_eq!(commands.commands.len(), 2);
    assert_eq!(commands.commands[1].cause, MoveCause::FunnelMove((5, 6)));
    let mut history = MoveHistory::new();
    process_move(&mut commands, &mut history, &mut world);
    assert_eq!(at(&world, player), (6, 6));
    assert_eq!(history.moves.len(), 1);
    assert_eq!(history.moves[0].len(), 2);
    assert_eq!(history.moves[0][0].entities, vec![player]);
    assert!(history.moves[0][1].entities.is_empty());
    assert_eq!(history.moves[0][1].cause, MoveCause::FunnelMove((5, 6)));
}

#[test]
fn trigger_pushes_what_stands_on_it() {
    let mut world = World::new();
    let b = spawn_box(&mut world, pos(5, 6));
    spawn_funnel(&mut world, pos(5, 6), Orientation(Dir::Down));
    let mut commands = MoveCommands::new();
    funnel_move(&world, &mut commands);
    assert_eq!(commands.commands.len(), 1);
    assert_eq!(commands.commands[0].entities, vec![(b, (5, 6))]);
    assert_eq!(commands.commands[0].delta, (0, -1));
    let mut history = MoveHistory::new();
    process_move(&mut commands, &mut history, &mut world);
    assert_eq!(at(&world, b), (5, 5));
    assert_eq!(history.moves.len(), 1);
    assert_eq!(history.moves[0][0].cause, MoveCause::FunnelMove((5, 6)));
}

#[test]
fn empty_trigger_makes_no_request() {
    let mut world = World::new();
    spawn_funnel(&mut world, pos(5, 6), Orientation(Dir::Down));
    spawn_bad_level_wall(&mut world, pos(5, 6));
    let mut commands = MoveCommands::new();
    funnel_move(&world, &mut commands);
    assert!(commands.commands.is_empty());
}

#[test]
fn no_intent_makes_no_request() {
    let mut world = World::new();
    spawn_good_level_wall(&mut world, pos(1, 1));
    let mut commands = MoveCommands::new();
    move_good_level_wall(None, &world, &mut commands);
    assert!(commands.commands.is_empty());
}

#[test]
fn player_request_covers_every_player_entity() {
    let mut world = World::new();
    let a = spawn_good_level_wall(&mut world, pos(1, 1));
    spawn_box(&mut world, pos(2, 2));
    let c = spawn_good_level_wall(&mut world, pos(7, 3));
    let mut commands = MoveCommands::new();
    move_good_level_wall(Some(Dir::Up), &world, &mut commands);
    assert_eq!(commands.commands.len(), 1);
    assert_eq!(commands.commands[0].entities, vec![(a, (1, 1)), (c, (7, 3))]);
    assert_eq!(commands.commands[0].cause, MoveCause::UserMove);
    assert_eq!(commands.commands[0].delta, (0, 1));
}

#[test]
fn history_grouping() {
    let mut world = World::new();
    let player = spawn_good_level_wall(&mut world, pos(0, 0));
    let b1 = spawn_box(&mut world, pos(2, 2));
    let b2 = spawn_box(&mut world, pos(7, 7));
    spawn_funnel(&mut world, pos(2, 2), Orientation(Dir::Up));
    spawn_funnel(&mut world, pos(7, 7), Orientation(Dir::Left));
    let mut history = MoveHistory::new();

    let mut commands = MoveCommands::new();
    move_good_level_wall(Some(Dir::Right), &world, &mut commands);
    funnel_move(&world, &mut commands);
    process_move(&mut commands, &mut history, &mut world);

    assert_eq!(history.moves.len(), 1);
    let tick = &history.moves[0];
    assert_eq!(tick.len(), 3);
    assert_eq!(tick[0].cause, MoveCause::UserMove);
    assert_eq!(tick[0].entities, vec![player]);
    assert_eq!(tick[1].cause, MoveCause::FunnelMove((2, 2)));
    assert_eq!(tick[1].entities, vec![b1]);
    assert_eq!(tick[2].cause, MoveCause::FunnelMove((7, 7)));
    assert_eq!(tick[2].entities, vec![b2]);
    assert_eq!(history.last_move_cause(), Some(MoveCause::FunnelMove((7, 7))));
    assert_eq!(history.last_actual_move().map(|m| m.entities.clone()), Some(vec![b2]));

    let mut commands = MoveCommands::new();
    move_good_level_wall(Some(Dir::Up), &world, &mut commands);
    process_move(&mut commands, &mut history, &mut world);
    assert_eq!(history.moves.len(), 2);
    assert_eq!(history.last_move_cause(), Some(MoveCause::UserMove));
}

#[test]
fn trigger_moves_join_the_last_tick() {
    let mut world = World::new();
    spawn_good_level_wall(&mut world, pos(0, 0));
    let b = spawn_box(&mut world, pos(4, 4));
    let mut history = MoveHistory::new();
    let mut commands = MoveCommands::new();
    move_good_level_wall(Some(Dir::Right), &world, &mut commands);
    process_move(&mut commands, &mut history, &mut world);
    commands.push(MoveCommand {
        entities: vec![(b, (4, 4))],
        cause: MoveCause::FunnelMove((4, 4)),
        delta: (0, 1),
    });
    process_move(&mut commands, &mut history, &mut world);
    assert_eq!(history.moves.len(), 1);
    assert_eq!(history.moves[0].len(), 2);
    assert_eq!(at(&world, b), (4, 5));
}

#[test]
fn first_trigger_move_opens_an_entry() {
    let mut world = World::new();
    let b = spawn_box(&mut world, pos(4, 4));
    let mut history = MoveHistory::new();
    assert_eq!(history.last_actual_move(), None);
    assert_eq!(history.last_move_cause(), None);
    let mut commands = MoveCommands::new();
    commands.push(MoveCommand {
        entities: vec![(b, (4, 4))],
        cause: MoveCause::FunnelMove((4, 4)),
        delta: (0, 1),
    });
    process_move(&mut commands, &mut history, &mut world);
    assert_eq!(history.moves.len(), 1);
    assert_eq!(history.last_move_cause(), Some(MoveCause::FunnelMove((4, 4))));
}

#[test]
fn undo_exactness() {
    let mut world = World::new();
    setup(&mut world);
    let before = world.entities.clone();
    let mut history = MoveHistory::new();

    for dir in [Dir::Right, Dir::Down, Dir::Left, Dir::Left, Dir::Up] {
        let mut commands = MoveCommands::new();
        move_good_level_wall(Some(dir), &world, &mut commands);
        funnel_move(&world, &mut commands);
        process_move(&mut commands, &mut history, &mut world);
    }
    assert_eq!(history.moves.len(), 5);

    let snapshot = world.entities.clone();
    let mut commands = MoveCommands::new();
    move_good_level_wall(Some(Dir::Down), &world, &mut commands);
    funnel_move(&world, &mut commands);
    process_move(&mut commands, &mut history, &mut world);
    assert_eq!(history.moves.len(), 6);
    undo(&mut history, true, &mut world);
    assert_eq!(world.entities, snapshot);
    assert_eq!(history.moves.len(), 5);

    for _ in 0..5 {
        undo(&mut history, true, &mut world);
    }
    assert_eq!(world.entities, before);
    assert!(history.moves.is_empty());
}

#[test]
fn undo_with_empty_history_is_a_no_op() {
    let mut world = World::new();
    setup(&mut world);
    let before = world.entities.clone();
    let mut history = MoveHistory::new();
    undo(&mut history, true, &mut world);
    assert_eq!(world.entities, before);
    assert!(history.moves.is_empty());
}

#[test]
fn undo_without_signal_changes_nothing() {
    let mut world = World::new();
    let b = spawn_box(&mut world, pos(1, 1));
    let mut history = MoveHistory::new();
    let mut commands = MoveCommands::new();
    commands.push(user_command(&world, &[b], (0, 1)));
    process_move(&mut commands, &mut history, &mut world);
    undo(&mut history, false, &mut world);
    assert_eq!(at(&world, b), (1, 2));
    assert_eq!(history.moves.len(), 1);
}

#[test]
fn undo_reverses_an_entity_moved_twice_in_one_tick() {
    let mut world = World::new();
    let p = spawn_good_level_wall(&mut world, pos(4, 4));
    spawn_funnel(&mut world, pos(5, 4), Orientation(Dir::Up));
    let mut history = MoveHistory::new();
    let mut commands = MoveCommands::new();
    move_good_level_wall(Some(Dir::Right), &world, &mut commands);
    process_move(&mut commands, &mut history, &mut world);
    assert_eq!(at(&world, p), (5, 4));
    let mut commands = MoveCommands::new();
    funnel_move(&world, &mut commands);
    process_move(&mut commands, &mut history, &mut world);
    assert_eq!(at(&world, p), (5, 5));
    assert_eq!(history.moves.len(), 1);
    undo(&mut history, true, &mut world);
    assert_eq!(at(&world, p), (4, 4));
}

#[test]
fn determinism() {
    let build = || {
        let mut world = World::new();
        setup(&mut world);
        let mut commands = MoveCommands::new();
        move_good_level_wall(Some(Dir::Down), &world, &mut commands);
        funnel_move(&world, &mut commands);
        (world, commands)
    };
    let (mut w1, mut c1) = build();
    let (mut w2, mut c2) = build();
    let mut h1 = MoveHistory::new();
    let mut h2 = MoveHistory::new();
    process_move(&mut c1, &mut h1, &mut w1);
    process_move(&mut c2, &mut h2, &mut w2);
    assert_eq!(w1.entities, w2.entities);
    assert_eq!(h1.moves, h2.moves);
}

#[test]
fn keep_still_valid_drops_entities_that_left_the_trigger() {
    let mut world = World::new();
    let a = spawn_box(&mut world, pos(5, 6));
    let b = spawn_box(&mut world, pos(1, 1));
    let mut command = MoveCommand {
        entities: vec![(a, (5, 6)), (b, (5, 6)), (a, (2, 2))],
        cause: MoveCause::FunnelMove((5, 6)),
        delta: (0, -1),
    };
    command.keep_still_valid(&world);
    assert_eq!(command.entities, vec![(a, (5, 6))]);

    let mut command = MoveCommand {
        entities: vec![(b, (5, 6))],
        cause: MoveCause::UserMove,
        delta: (0, -1),
    };
    command.keep_still_valid(&world);
    assert_eq!(command.entities, vec![(b, (5, 6))]);
}

#[test]
fn resolve_command_reports_the_moved_set() {
    let mut world = World::new();
    let a = spawn_box(&mut world, pos(2, 2));
    let b = spawn_box(&mut world, pos(2, 3));
    let c = spawn_box(&mut world, pos(6, 6));
    let command = MoveCommand {
        entities: vec![(a, (2, 2)), (b, (2, 3)), (c, (6, 6))],
        cause: MoveCause::UserMove,
        delta: (0, 1),
    };
    let m = resolve_command(command, &mut world);
    assert_eq!(m.entities, vec![a, b, c]);
    assert_eq!(at(&world, a), (2, 3));
    assert_eq!(at(&world, b), (2, 4));
    assert_eq!(at(&world, c), (6, 7));
}

#[test]
fn setup_builds_the_level() {
    let mut world = World::new();
    setup(&mut world);
    assert_eq!(world.entities.len(), 7);
    assert_eq!(at(&world, 0), (5, 5));
    assert!(world.entities[0].player_controlled && world.entities[0].movable);
    assert_eq!(at(&world, 2), (3, 6));
    assert!(world.entities[2].immovable && !world.entities[2].movable);
    assert_eq!(
        world.entities[4],
        EntityState {
            position: pos(5, 6),
            movable: false,
            immovable: false,
            player_controlled: false,
            trigger: Some(Orientation(Dir::Down)),
        }
    );
    assert_eq!(world.position(3), pos(4, 6));
}
