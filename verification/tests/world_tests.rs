use hecs::World;
use zombs_engine::engine::components::{Parent, Player, PlayerStats, Zombob};
use zombs_engine::game::{GameOverReport, RunState};
use zombs_engine::engine::world::{
    alive_zombobs, clear_zombob_trees, despawn_all, despawn_entity_subtree, hidden_entities,
    zombob_tree_entities,
};

fn id(e: hecs::Entity) -> u64 {
    e.to_bits().get()
}

#[test]
fn subtree_despawn_removes_root_and_descendants_only() {
    let mut world = World::new();
    let root = world.spawn((Zombob,));
    let arm = world.spawn((Parent { entity: root },));
    let hand = world.spawn((Parent { entity: arm },));
    let other = world.spawn((Player { id: 1 },));
    let other_child = world.spawn((Parent { entity: other },));

    despawn_entity_subtree(&mut world, id(root));

    assert!(!world.contains(root));
    assert!(!world.contains(arm));
    assert!(!world.contains(hand));
    assert!(world.contains(other));
    assert!(world.contains(other_child));
    assert_eq!(world.len(), 2);
}

#[test]
fn subtree_despawn_of_leaf_and_of_dead_root() {
    let mut world = World::new();
    let root = world.spawn((Zombob,));
    let leaf = world.spawn((Parent { entity: root },));
    despawn_entity_subtree(&mut world, id(leaf));
    assert!(world.contains(root));
    assert!(!world.contains(leaf));
    despawn_entity_subtree(&mut world, id(leaf));
    assert_eq!(world.len(), 1);
}

#[test]
fn clearing_zombobs_wipes_their_trees() {
    let mut world = World::new();
    let z1 = world.spawn((Zombob,));
    let z1_part = world.spawn((Parent { entity: z1 },));
    let z2 = world.spawn((Zombob,));
    let z2_part = world.spawn((Parent { entity: z2 },));
    let z2_sub = world.spawn((Parent { entity: z2_part },));
    let player = world.spawn((Player { id: 1 },));
    let gun = world.spawn((Parent { entity: player },));
    let tree = world.spawn(());

    assert_eq!(alive_zombobs(&mut world), 2);
    clear_zombob_trees(&mut world);
    assert_eq!(alive_zombobs(&mut world), 0);
    for e in [z1, z1_part, z2, z2_part, z2_sub] {
        assert!(!world.contains(e));
    }
    for e in [player, gun, tree] {
        assert!(world.contains(e));
    }
}

#[test]
fn hidden_entities_are_player_and_attachments() {
    let mut world = World::new();
    let player = world.spawn((Player { id: 1 },));
    let head = world.spawn((Parent { entity: player },));
    let eye = world.spawn((Parent { entity: head },));
    let zombob = world.spawn((Zombob,));
    let zombob_head = world.spawn((Parent { entity: zombob },));

    let mut hidden = hidden_entities(&mut world);
    hidden.sort();
    let mut expected = vec![id(player), id(head), id(eye)];
    expected.sort();
    assert_eq!(hidden, expected);
    assert!(!hidden.contains(&id(zombob_head)));
}

#[test]
fn despawn_all_skips_dead_and_unknown_ids() {
    let mut world = World::new();
    let a = world.spawn((Zombob,));
    let b = world.spawn((Zombob,));
    let c = world.spawn((Zombob,));
    despawn_all(&mut world, &vec![id(a), id(a), 0, id(c)]);
    assert!(!world.contains(a));
    assert!(world.contains(b));
    assert!(!world.contains(c));
    assert_eq!(alive_zombobs(&mut world), 1);
}

#[test]
fn game_over_reads_kills_from_player_stats() {
    let mut world = World::new();
    let player = world.spawn((Player { id: 1 }, PlayerStats { kills: 7 }));
    let mut run = RunState::new();
    assert_eq!(run.finalize_game_over(&mut world, id(player)), None);
    run.observe_player_health(true);
    assert_eq!(
        run.finalize_game_over(&mut world, id(player)),
        Some(GameOverReport { wave: 1, kills: 7, score: 164 })
    );
    assert_eq!(run.finalize_game_over(&mut world, id(player)), None);

    let mut run2 = RunState::new();
    run2.observe_player_health(true);
    let no_stats = world.spawn((Player { id: 2 },));
    assert_eq!(
        run2.finalize_game_over(&mut world, id(no_stats)),
        Some(GameOverReport { wave: 1, kills: 0, score: 80 })
    );
}

#[test]
fn restart_clears_run_entities_and_kills() {
    let mut world = World::new();
    let player = world.spawn((Player { id: 1 }, PlayerStats { kills: 9 }));
    let player_part = world.spawn((Parent { entity: player },));
    let zombob = world.spawn((Zombob,));
    let zombob_part = world.spawn((Parent { entity: zombob },));
    let bullet = world.spawn(());
    let tree = world.spawn(());

    let mut run = RunState::new();
    run.observe_player_health(true);
    run.wave_step(0, true);
    run.restart_world(&mut world, id(player), &vec![id(bullet)]);

    assert_eq!(run, RunState::new());
    assert!(!world.contains(zombob));
    assert!(!world.contains(zombob_part));
    assert!(!world.contains(bullet));
    assert!(world.contains(player));
    assert!(world.contains(player_part));
    assert!(world.contains(tree));
    assert_eq!(world.get::<&PlayerStats>(player).unwrap().kills, 0);
}

#[test]
fn zombob_trees_are_zombobs_and_everything_below() {
    let mut world = World::new();
    let zombob = world.spawn((Zombob,));
    let head = world.spawn((Parent { entity: zombob },));
    let face = world.spawn((Parent { entity: head },));
    let other = world.spawn((Zombob,));
    let player = world.spawn((Player { id: 1 },));
    let arm = world.spawn((Parent { entity: player },));
    let tree = world.spawn(());

    let mut members = zombob_tree_entities(&mut world);
    members.sort();
    let mut expected = vec![id(zombob), id(head), id(face), id(other)];
    expected.sort();
    assert_eq!(members, expected);
    for e in [player, arm, tree] {
        assert!(!members.contains(&id(e)));
    }
    assert_eq!(world.len(), 7);
}

#[test]
fn restart_wipes_whole_zombob_models() {
    let mut world = World::new();
    let player = world.spawn((Player { id: 1 }, PlayerStats { kills: 3 }));
    let zombob = world.spawn((Zombob,));
    let head = world.spawn((Parent { entity: zombob },));
    let face = world.spawn((Parent { entity: head },));
    let arm = world.spawn((Parent { entity: zombob },));
    let hand = world.spawn((Parent { entity: arm },));
    let flash = world.spawn(());

    let mut run = RunState::new();
    run.restart_world(&mut world, id(player), &vec![id(flash)]);
    for e in [zombob, head, face, arm, hand, flash] {
        assert!(!world.contains(e));
    }
    assert!(world.contains(player));
    assert_eq!(world.len(), 1);
    assert_eq!(world.get::<&PlayerStats>(player).unwrap().kills, 0);
}

#[test]
fn restart_keeps_what_a_listed_entity_cut_off() {
    let mut world = World::new();
    let player = world.spawn((Player { id: 1 }, PlayerStats { kills: 2 }));
    let zombob = world.spawn((Zombob,));
    let flash = world.spawn((Parent { entity: zombob },));
    let cut_off = world.spawn((Parent { entity: flash },));
    let arm = world.spawn((Parent { entity: zombob },));

    let mut run = RunState::new();
    run.restart_world(&mut world, id(player), &vec![id(flash)]);
    assert!(!world.contains(zombob));
    assert!(!world.contains(flash));
    assert!(!world.contains(arm));
    assert!(world.contains(cut_off));
    assert!(world.contains(player));
    assert_eq!(world.len(), 2);
}

#[test]
fn survivors_keep_their_components() {
    let mut world = World::new();
    let zombob = world.spawn((Zombob, 5u32));
    let part = world.spawn((Parent { entity: zombob }, 6u32));
    let player = world.spawn((Player { id: 4 }, PlayerStats { kills: 8 }, 7u32, "gun"));
    let gun = world.spawn((Parent { entity: player }, 9u32));

    despawn_entity_subtree(&mut world, id(zombob));
    assert!(!world.contains(part));
    assert_eq!(*world.get::<&u32>(player).unwrap(), 7);
    assert_eq!(*world.get::<&&str>(player).unwrap(), "gun");
    assert_eq!(world.get::<&Player>(player).unwrap().id, 4);
    assert_eq!(world.get::<&PlayerStats>(player).unwrap().kills, 8);
    assert_eq!(*world.get::<&u32>(gun).unwrap(), 9);
    assert_eq!(world.get::<&Parent>(gun).unwrap().entity, player);
}
