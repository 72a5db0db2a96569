use hecs::World;
use zombs_engine::engine::components::Zombob;
use zombs_engine::engine::world::despawn_all;
use zombs_engine::game::ephemeral_despawn_order;

fn id(e: hecs::Entity) -> u64 {
    e.to_bits().get()
}

#[test]
fn test_projectile_despawn() {
    // Projectiles leave the world when despawned: here the run-scoped despawn of a
    // restart removes every projectile (and flash), and nothing else.
    let mut world = World::new();
    let bullets: Vec<hecs::Entity> = (0..3).map(|_| world.spawn((1u8,))).collect();
    let flash = world.spawn((2u8,));
    let zombob = world.spawn((Zombob,));
    let tree = world.spawn(());

    let projectiles: Vec<u64> = bullets.iter().map(|e| id(*e)).collect();
    let order = ephemeral_despawn_order(&projectiles, &vec![id(flash)], &vec![]);
    assert_eq!(
        order,
        vec![projectiles[2], projectiles[1], projectiles[0], id(flash)]
    );
    despawn_all(&mut world, &order);

    for bullet in &bullets {
        assert!(!world.contains(*bullet));
    }
    assert!(!world.contains(flash));
    assert!(world.contains(zombob));
    assert!(world.contains(tree));
    assert_eq!(world.len(), 2);
}

#[test]
fn ephemeral_despawn_order_groups() {
    let projectiles: Vec<u64> = vec![11, 12, 13];
    let flashes: Vec<u64> = vec![21];
    let debris: Vec<u64> = vec![31, 32];
    let order = ephemeral_despawn_order(&projectiles, &flashes, &debris);
    assert_eq!(order, vec![13, 12, 11, 21, 32, 31]);
}

#[test]
fn ephemeral_despawn_order_empty_groups() {
    let order = ephemeral_despawn_order(&vec![], &vec![5, 6], &vec![]);
    assert_eq!(order, vec![6, 5]);
    let none = ephemeral_despawn_order(&vec![], &vec![], &vec![]);
    assert!(none.is_empty());
}
