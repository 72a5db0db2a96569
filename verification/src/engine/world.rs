use vstd::prelude::*;
use super::components::{Parent, Player, PlayerStats, Zombob};
use super::hierarchy::{
    derived, derived_at, is_descendant_closure, subtree_despawn_order, descendant_closure,
};

verus! {

/// The ECS entity handle.
#[verifier::external_type_specification]
#[verifier::external_body]
pub struct ExEntity(hecs::Entity);

/// The ECS world: entities and their components.
#[verifier::external_type_specification]
#[verifier::external_body]
pub struct ExWorld(hecs::World);

/// What the world records of one live entity: the entity it is attached to (its
/// `Parent` component, if any), whether it carries the `Zombob` and the `Player`
/// markers, its kill count (its `PlayerStats` component, if any), and everything else
/// about its components (which other components it carries, their values, and the `id`
/// of its `Player` marker) as one code: two records have equal codes exactly when their
/// entities agree on all of that.
pub struct EntityRecord {
    pub parent: Option<u64>,
    pub zombob: bool,
    pub player: bool,
    pub kills: Option<u32>,
    pub others: int,
}

/// The live entities of a world, by the 64-bit form of their handles, each with what the
/// world records of it.
pub uninterp spec fn world_entities(world: hecs::World) -> Map<u64, EntityRecord>;

/// Which entity each attached entity hangs from.
pub open spec fn parent_map(world: hecs::World) -> Map<u64, u64> {
    Map::new(
        |e: u64| world_entities(world).contains_key(e) && world_entities(world)[e].parent is Some,
        |e: u64| world_entities(world)[e].parent.unwrap(),
    )
}

/// The live zombobs.
pub open spec fn zombob_set(world: hecs::World) -> Set<u64> {
    Set::new(|e: u64| world_entities(world).contains_key(e) && world_entities(world)[e].zombob)
}

/// The live players.
pub open spec fn player_set(world: hecs::World) -> Set<u64> {
    Set::new(|e: u64| world_entities(world).contains_key(e) && world_entities(world)[e].player)
}

/// `p` is a chain of parent links: each element hangs from the next.
pub open spec fn is_chain(m: Map<u64, u64>, p: Seq<u64>) -> bool {
    &&& p.len() > 0
    &&& forall|i: int|
        #![trigger p[i]]
        0 <= i < p.len() - 1 ==> m.contains_key(p[i]) && m[p[i]] == p[i + 1]
}

/// `x` is `root` or hangs, through a chain of parent links, below `root`.
pub open spec fn in_subtree(m: Map<u64, u64>, root: u64, x: u64) -> bool {
    exists|p: Seq<u64>| #[trigger] is_chain(m, p) && p[0] == x && p.last() == root
}

/// `root` and everything that hangs below it.
pub open spec fn subtree(m: Map<u64, u64>, root: u64) -> Set<u64> {
    Set::new(|x: u64| in_subtree(m, root, x))
}

/// The link list `links` lists exactly the parent links of `m`: one `(child, parent)`
/// pair per attached entity.
pub open spec fn links_represent(links: Seq<(u64, u64)>, m: Map<u64, u64>) -> bool {
    &&& forall|k: int|
        0 <= k < links.len() ==> m.contains_key(#[trigger] links[k].0) && m[links[k].0]
            == links[k].1
    &&& forall|c: u64| m.contains_key(c) ==> exists|k: int| 0 <= k < links.len() && #[trigger] links[k].0 == c
}

/// Reads the parent links of the world: one `(child, parent)` pair per entity that has a
/// `Parent` component, in the world's storage order. The world is only read.
///
/// Calls `hecs::World::query_mut` for `&Parent` and converts each entity handle with
/// `hecs::Entity::to_bits`. Trusted: the pairs are exactly the world's parent links;
/// the order is left unsaid.
#[verifier::external_body]
fn parent_links(world: &mut hecs::World) -> (links: Vec<(u64, u64)>)
    ensures
        *final(world) == *old(world),
        links_represent(links@, parent_map(*old(world))),
{
    world
        .query_mut::<&Parent>()
        .into_iter()
        .map(|(e, p)| (e.to_bits().get(), p.entity.to_bits().get()))
        .collect()
}

/// Reads the ids of the entities carrying marker component `Zombob`. The world is only
/// read.
///
/// Calls `hecs::World::query_mut` for `&Zombob` and converts each handle with
/// `hecs::Entity::to_bits`. Trusted: each zombob is listed once; the order is left
/// unsaid.
#[verifier::external_body]
fn zombob_ids(world: &mut hecs::World) -> (ids: Vec<u64>)
    ensures
        *final(world) == *old(world),
        ids@.no_duplicates(),
        forall|e: u64| ids@.contains(e) <==> zombob_set(*old(world)).contains(e),
{
    world.query_mut::<&Zombob>().into_iter().map(|(e, _)| e.to_bits().get()).collect()
}

/// Reads the ids of the entities carrying marker component `Player`. The world is only
/// read.
///
/// Calls `hecs::World::query_mut` for `&Player` and converts each handle with
/// `hecs::Entity::to_bits`. Trusted: each player is listed once; the order is left
/// unsaid.
#[verifier::external_body]
fn player_ids(world: &mut hecs::World) -> (ids: Vec<u64>)
    ensures
        *final(world) == *old(world),
        ids@.no_duplicates(),
        forall|e: u64| ids@.contains(e) <==> player_set(*old(world)).contains(e),
{
    world.query_mut::<&Player>().into_iter().map(|(e, _)| e.to_bits().get()).collect()
}

/// Reads the kill count of entity `id`: its `PlayerStats`, if it is live and has them.
/// The world is only read.
///
/// Calls `hecs::World::query_one_mut` for `&PlayerStats` on `hecs::Entity::from_bits(id)`.
/// Trusted: the result is the component's `kills` field, or `None` when the entity is
/// not live or has no stats.
#[verifier::external_body]
fn stats_kills(world: &mut hecs::World, id: u64) -> (kills: Option<u32>)
    ensures
        *final(world) == *old(world),
        kills == (if world_entities(*old(world)).contains_key(id) {
            world_entities(*old(world))[id].kills
        } else {
            None::<u32>
        }),
{
    match hecs::Entity::from_bits(id) {
        Some(entity) => match world.query_one_mut::<&PlayerStats>(entity) {
            Ok(stats) => Some(stats.kills),
            Err(_) => None,
        },
        None => None,
    }
}

/// Sets the kill count of entity `id`, when it is live and has `PlayerStats`.
///
/// Calls `hecs::World::query_one_mut` for `&mut PlayerStats` on
/// `hecs::Entity::from_bits(id)` and writes the `kills` field. Trusted: only that
/// entity's kill count changes, and only when it has stats.
#[verifier::external_body]
fn set_kills(world: &mut hecs::World, id: u64, kills: u32)
    ensures
        world_entities(*final(world)) == (if world_entities(*old(world)).contains_key(id)
            && world_entities(*old(world))[id].kills is Some {
            world_entities(*old(world)).insert(
                id,
                EntityRecord { kills: Some(kills), ..world_entities(*old(world))[id] },
            )
        } else {
            world_entities(*old(world))
        }),
{
    if let Some(entity) = hecs::Entity::from_bits(id) {
        if let Ok(stats) = world.query_one_mut::<&mut PlayerStats>(entity) {
            stats.kills = kills;
        }
    }
}

/// The kill count of entity `id`, if it is live and keeps stats. The world is only read.
pub(crate) fn kills_of(world: &mut hecs::World, id: u64) -> (kills: Option<u32>)
    ensures
        *final(world) == *old(world),
        kills == (if world_entities(*old(world)).contains_key(id) {
            world_entities(*old(world))[id].kills
        } else {
            None::<u32>
        }),
{
    stats_kills(world, id)
}

/// Starts the kill count of entity `id` over at zero, when it is live and keeps stats;
/// nothing else changes.
pub(crate) fn reset_kills(world: &mut hecs::World, id: u64)
    ensures
        world_entities(*final(world)) == (if world_entities(*old(world)).contains_key(id)
            && world_entities(*old(world))[id].kills is Some {
            world_entities(*old(world)).insert(
                id,
                EntityRecord { kills: Some(0), ..world_entities(*old(world))[id] },
            )
        } else {
            world_entities(*old(world))
        }),
{
    set_kills(world, id, 0);
}

/// Despawns the entity with id `id`, if it is live, with all its components.
///
/// Calls `hecs::World::despawn` on `hecs::Entity::from_bits(id)`. Trusted: exactly
/// that entity leaves the world, every other entity keeps its components, and the
/// result tells whether it was live.
#[verifier::external_body]
fn despawn(world: &mut hecs::World, id: u64) -> (existed: bool)
    ensures
        existed == world_entities(*old(world)).contains_key(id),
        world_entities(*final(world)) == world_entities(*old(world)).remove(id),
{
    match hecs::Entity::from_bits(id) {
        Some(entity) => world.despawn(entity).is_ok(),
        None => false,
    }
}

/// `x` hangs, through a chain of parent links, below one of `roots` (or is one).
pub open spec fn below_any(m: Map<u64, u64>, roots: Seq<u64>, x: u64) -> bool {
    exists|p: Seq<u64>| #[trigger] is_chain(m, p) && p[0] == x && roots.contains(p.last())
}

/// The descendant closure of `seeds` over a link list for `m` holds exactly what hangs
/// below the seeds in `m`.
proof fn lemma_closure_is_forest(s: Seq<u64>, seeds: Seq<u64>, links: Seq<(u64, u64)>, m: Map<u64, u64>)
    requires
        is_descendant_closure(s, seeds, links),
        links_represent(links, m),
    ensures
        forall|x: u64| s.contains(x) <==> below_any(m, seeds, x),
{
    assert forall|x: u64| s.contains(x) implies below_any(m, seeds, x) by {
        let i = choose|i: int| 0 <= i < s.len() && s[i] == x;
        lemma_derived_below(s, seeds, links, m, i);
    }
    assert forall|x: u64| below_any(m, seeds, x) implies s.contains(x) by {
        let p = choose|p: Seq<u64>| #[trigger] is_chain(m, p) && p[0] == x && seeds.contains(p.last());
        lemma_chain_in_closure(s, seeds, links, m, p);
    }
}

proof fn lemma_derived_below(
    s: Seq<u64>,
    seeds: Seq<u64>,
    links: Seq<(u64, u64)>,
    m: Map<u64, u64>,
    i: int,
)
    requires
        derived(s, seeds, links),
        links_represent(links, m),
        0 <= i < s.len(),
    ensures
        below_any(m, seeds, s[i]),
    decreases i,
{
    assert(derived_at(s, seeds, links, i));
    if seeds.contains(s[i]) {
        let p = seq![s[i]];
        assert(p.last() == s[i]);
        assert(is_chain(m, p));
    } else {
        let (k, j) = choose|k: int, j: int|
            #![trigger links[k], s[j]]
            0 <= k < links.len() && 0 <= j < i && links[k] == (s[i], s[j]);
        lemma_derived_below(s, seeds, links, m, j);
        let q = choose|q: Seq<u64>| #[trigger] is_chain(m, q) && q[0] == s[j] && seeds.contains(q.last());
        let p = seq![s[i]] + q;
        assert(m.contains_key(links[k].0) && m[links[k].0] == links[k].1);
        assert forall|n: int| #![trigger p[n]] 0 <= n < p.len() - 1 implies m.contains_key(p[n])
            && m[p[n]] == p[n + 1] by {
            if n > 0 {
                assert(p[n] == q[n - 1]);
                assert(p[n + 1] == q[n]);
            }
        }
        assert(is_chain(m, p));
        assert(p.last() == q.last());
    }
}

proof fn lemma_chain_in_closure(
    s: Seq<u64>,
    seeds: Seq<u64>,
    links: Seq<(u64, u64)>,
    m: Map<u64, u64>,
    p: Seq<u64>,
)
    requires
        is_descendant_closure(s, seeds, links),
        links_represent(links, m),
        is_chain(m, p),
        seeds.contains(p.last()),
    ensures
        s.contains(p[0]),
    decreases p.len(),
{
    if p.len() == 1 {
        let k = choose|k: int| 0 <= k < seeds.len() && seeds[k] == p.last();
        assert(s.contains(seeds[k]));
    } else {
        let q = p.drop_first();
        assert forall|n: int| #![trigger q[n]] 0 <= n < q.len() - 1 implies m.contains_key(q[n])
            && m[q[n]] == q[n + 1] by {
            assert(q[n] == p[n + 1]);
        }
        assert(is_chain(m, q));
        lemma_chain_in_closure(s, seeds, links, m, q);
        assert(p[1] == q[0]);
        assert(m.contains_key(p[0]) && m[p[0]] == p[1]);
        let k = choose|k: int| 0 <= k < links.len() && #[trigger] links[k].0 == p[0];
        assert(links[k].1 == m[p[0]]);
        assert(s.contains(links[k].1));
    }
}

/// Below a single root, `below_any` is `in_subtree`.
proof fn lemma_below_single(m: Map<u64, u64>, root: u64, x: u64)
    ensures
        below_any(m, seq![root], x) <==> in_subtree(m, root, x),
{
    if below_any(m, seq![root], x) {
        let p = choose|p: Seq<u64>| #[trigger] is_chain(m, p) && p[0] == x && seq![root].contains(p.last());
        assert(p.last() == root);
    }
    if in_subtree(m, root, x) {
        let p = choose|p: Seq<u64>| #[trigger] is_chain(m, p) && p[0] == x && p.last() == root;
        assert(seq![root][0] == p.last());
    }
}

/// Despawns every entity listed in `ids` that is live; nothing else changes.
pub fn despawn_all(world: &mut hecs::World, ids: &Vec<u64>)
    ensures
        world_entities(*final(world)) == world_entities(*old(world)).remove_keys(
            Set::new(|x: u64| ids@.contains(x)),
        ),
{
    let ghost start = world_entities(*old(world));
    let n = ids.len();
    let mut i: usize = 0;
    let ghost mut removed: Set<u64> = Set::empty();
    while i < n
        invariant
            n == ids.len(),
            i <= n,
            world_entities(*world) == start.remove_keys(removed),
            forall|x: u64| removed.contains(x) <==> ids@.subrange(0, i as int).contains(x),
        decreases n - i,
    {
        despawn(world, ids[i]);
        proof {
            let id = ids@[i as int];
            assert forall|x: u64| removed.insert(id).contains(x) <==> ids@.subrange(
                0,
                i + 1,
            ).contains(x) by {
                if ids@.subrange(0, i as int).contains(x) {
                    let j = choose|j: int| 0 <= j < i && #[trigger] ids@.subrange(0, i as int)[j] == x;
                    assert(ids@.subrange(0, i + 1)[j] == x);
                }
                if x == id {
                    assert(ids@.subrange(0, i + 1)[i as int] == x);
                }
                if ids@.subrange(0, i + 1).contains(x) && x != id {
                    let j = choose|j: int| 0 <= j < i + 1 && #[trigger] ids@.subrange(0, i + 1)[j] == x;
                    assert(ids@.subrange(0, i as int)[j] == x);
                }
            }
            removed = removed.insert(id);
            assert(world_entities(*world) =~= start.remove_keys(removed));
        }
        i = i + 1;
    }
    proof {
        assert(ids@.subrange(0, n as int) =~= ids@);
        assert(removed =~= Set::new(|x: u64| ids@.contains(x)));
    }
}

/// Despawns `root` and every entity that hangs below it through parent links; nothing
/// else in the world changes: every other entity stays, with all its components and
/// their values.
pub fn despawn_entity_subtree(world: &mut hecs::World, root: u64)
    ensures
        world_entities(*final(world)) == world_entities(*old(world)).remove_keys(
            subtree(parent_map(*old(world)), root),
        ),
{
    let ghost m = parent_map(*old(world));
    let links = parent_links(world);
    let order = subtree_despawn_order(root, &links);
    despawn_all(world, &order);
    proof {
        lemma_closure_is_forest(order@.reverse(), seq![root], links@, m);
        assert(Set::new(|x: u64| order@.contains(x)) =~= subtree(m, root)) by {
            assert forall|x: u64| order@.contains(x) <==> subtree(m, root).contains(x) by {
                lemma_below_single(m, root, x);
                if order@.contains(x) {
                    let j = choose|j: int| 0 <= j < order@.len() && #[trigger] order@[j] == x;
                    assert(order@.reverse()[order@.len() - 1 - j] == x);
                }
                if order@.reverse().contains(x) {
                    let j = choose|j: int| 0 <= j < order@.len() && #[trigger] order@.reverse()[j] == x;
                    assert(order@[order@.len() - 1 - j] == x);
                }
            }
        }
    }
}

/// The entities hidden in first person: every player and everything that hangs below a
/// player, each listed once. The world is only read.
pub fn hidden_entities(world: &mut hecs::World) -> (hidden: Vec<u64>)
    ensures
        *final(world) == *old(world),
        hidden@.no_duplicates(),
        forall|x: u64|
            hidden@.contains(x) <==> exists|p: Seq<u64>|
                #[trigger] is_chain(parent_map(*old(world)), p) && p[0] == x && player_set(
                    *old(world),
                ).contains(p.last()),
{
    let ghost w0 = *old(world);
    let players = player_ids(world);
    let links = parent_links(world);
    let hidden = descendant_closure(&players, &links);
    proof {
        lemma_closure_is_forest(hidden@, players@, links@, parent_map(w0));
        assert forall|x: u64| hidden@.contains(x) <==> exists|p: Seq<u64>|
            #[trigger] is_chain(parent_map(w0), p) && p[0] == x && player_set(w0).contains(
                p.last(),
            ) by {
            if hidden@.contains(x) {
                assert(below_any(parent_map(w0), players@, x));
                let p = choose|p: Seq<u64>| #[trigger] is_chain(parent_map(w0), p) && p[0] == x
                    && players@.contains(p.last());
                assert(player_set(w0).contains(p.last()));
            }
            if exists|p: Seq<u64>| #[trigger] is_chain(parent_map(w0), p) && p[0] == x
                && player_set(w0).contains(p.last()) {
                let p = choose|p: Seq<u64>| #[trigger] is_chain(parent_map(w0), p) && p[0] == x
                    && player_set(w0).contains(p.last());
                assert(players@.contains(p.last()));
                assert(below_any(parent_map(w0), players@, x));
            }
        }
    }
    hidden
}

/// The entities drawn with the zombob skin when textured: every zombob and everything
/// that hangs below a zombob, each listed once. The world is only read.
pub fn zombob_tree_entities(world: &mut hecs::World) -> (members: Vec<u64>)
    ensures
        *final(world) == *old(world),
        members@.no_duplicates(),
        forall|x: u64|
            members@.contains(x) <==> exists|p: Seq<u64>|
                #[trigger] is_chain(parent_map(*old(world)), p) && p[0] == x && zombob_set(
                    *old(world),
                ).contains(p.last()),
{
    let ghost w0 = *old(world);
    let zombobs = zombob_ids(world);
    let links = parent_links(world);
    let members = descendant_closure(&zombobs, &links);
    proof {
        lemma_closure_is_forest(members@, zombobs@, links@, parent_map(w0));
        assert forall|x: u64| members@.contains(x) <==> exists|p: Seq<u64>|
            #[trigger] is_chain(parent_map(w0), p) && p[0] == x && zombob_set(w0).contains(
                p.last(),
            ) by {
            if members@.contains(x) {
                assert(below_any(parent_map(w0), zombobs@, x));
                let p = choose|p: Seq<u64>| #[trigger] is_chain(parent_map(w0), p) && p[0] == x
                    && zombobs@.contains(p.last());
                assert(zombob_set(w0).contains(p.last()));
            }
            if exists|p: Seq<u64>| #[trigger] is_chain(parent_map(w0), p) && p[0] == x
                && zombob_set(w0).contains(p.last()) {
                let p = choose|p: Seq<u64>| #[trigger] is_chain(parent_map(w0), p) && p[0] == x
                    && zombob_set(w0).contains(p.last());
                assert(zombobs@.contains(p.last()));
                assert(below_any(parent_map(w0), zombobs@, x));
            }
        }
    }
    members
}

/// How many zombobs are alive, as a `u32` (wrapping past its range). The world is only
/// read.
pub fn alive_zombobs(world: &mut hecs::World) -> (alive: u32)
    ensures
        *final(world) == *old(world),
        alive == zombob_set(*old(world)).len() as u32,
{
    let ghost w0 = *old(world);
    let ids = zombob_ids(world);
    proof {
        ids@.unique_seq_to_set();
        assert(ids@.to_set() =~= zombob_set(w0));
    }
    ids.len() as u32
}

pub(crate) proof fn lemma_subtree_of_submap(m1: Map<u64, u64>, m0: Map<u64, u64>, root: u64, x: u64)
    requires
        m1.submap_of(m0),
        in_subtree(m1, root, x),
    ensures
        in_subtree(m0, root, x),
{
    let p = choose|p: Seq<u64>| #[trigger] is_chain(m1, p) && p[0] == x && p.last() == root;
    assert forall|n: int| #![trigger p[n]] 0 <= n < p.len() - 1 implies m0.contains_key(p[n])
        && m0[p[n]] == p[n + 1] by {
        assert(m1.contains_key(p[n]));
    }
    assert(is_chain(m0, p));
}

/// Entities removed from `start` take everything that hangs below them (in `m`) along:
/// whatever hangs below a removed entity is gone too.
spec fn removal_closed(start: Map<u64, EntityRecord>, cur: Map<u64, EntityRecord>, m: Map<u64, u64>) -> bool {
    forall|x: u64, e: u64|
        #[trigger] in_subtree(m, x, e) && start.contains_key(x) && !cur.contains_key(x)
            ==> !cur.contains_key(e)
}

/// A prefix of a chain is a chain: each element of a chain hangs below its start.
proof fn lemma_chain_prefix(m: Map<u64, u64>, p: Seq<u64>, k: int)
    requires
        is_chain(m, p),
        0 <= k < p.len(),
    ensures
        is_chain(m, p.subrange(0, k + 1)),
        in_subtree(m, p[k], p[0]),
{
    let q = p.subrange(0, k + 1);
    assert forall|n: int| #![trigger q[n]] 0 <= n < q.len() - 1 implies m.contains_key(q[n])
        && m[q[n]] == q[n + 1] by {
        assert(q[n] == p[n]);
        assert(q[n + 1] == p[n + 1]);
    }
    assert(is_chain(m, q));
    assert(q[0] == p[0] && q.last() == p[k]);
}

/// Hanging below is transitive: below `b` and `b` below `c` is below `c`.
proof fn lemma_subtree_trans(m: Map<u64, u64>, a: u64, b: u64, c: u64)
    requires
        in_subtree(m, b, a),
        in_subtree(m, c, b),
    ensures
        in_subtree(m, c, a),
{
    let p = choose|p: Seq<u64>| #[trigger] is_chain(m, p) && p[0] == a && p.last() == b;
    let q = choose|q: Seq<u64>| #[trigger] is_chain(m, q) && q[0] == b && q.last() == c;
    if q.len() == 1 {
        assert(is_chain(m, p) && p[0] == a && p.last() == c);
    } else {
        let r = p + q.drop_first();
        assert forall|n: int| #![trigger r[n]] 0 <= n < r.len() - 1 implies m.contains_key(r[n])
            && m[r[n]] == r[n + 1] by {
            if n < p.len() - 1 {
                assert(r[n] == p[n]);
                assert(r[n + 1] == p[n + 1]);
            } else if n == p.len() - 1 {
                assert(r[n] == p[n]);
                assert(r[n + 1] == q[1]);
                assert(m.contains_key(q[0]) && m[q[0]] == q[1]);
            } else {
                let j = n - p.len() + 1;
                assert(r[n] == q[j]);
                assert(r[n + 1] == q[j + 1]);
            }
        }
        assert(is_chain(m, r));
        assert(r[0] == p[0]);
        assert(r.last() == q.last());
    }
}

/// While removals are closed downwards, a chain of the original world that starts at an
/// entity still present runs through present entities only, with the same links.
proof fn lemma_present_chain(w0: hecs::World, wb: hecs::World, p: Seq<u64>)
    requires
        world_entities(wb).submap_of(world_entities(w0)),
        removal_closed(world_entities(w0), world_entities(wb), parent_map(w0)),
        is_chain(parent_map(w0), p),
        world_entities(wb).contains_key(p[0]),
    ensures
        is_chain(parent_map(wb), p),
{
    let m0 = parent_map(w0);
    let mb = parent_map(wb);
    assert forall|n: int| #![trigger p[n]] 0 <= n < p.len() - 1 implies mb.contains_key(p[n])
        && mb[p[n]] == p[n + 1] by {
        assert(m0.contains_key(p[n]) && m0[p[n]] == p[n + 1]);
        if !world_entities(wb).contains_key(p[n]) {
            lemma_chain_prefix(m0, p, n);
        }
        assert(world_entities(wb)[p[n]] == world_entities(w0)[p[n]]);
    }
}

/// Removes every zombob together with everything hanging below it. Afterwards no
/// zombob is left, nothing that hung below a zombob is left, every entity that was
/// removed hung below (or was) a zombob, and every entity that is left is as it was.
pub fn clear_zombob_trees(world: &mut hecs::World)
    ensures
        zombob_set(*final(world)) == Set::<u64>::empty(),
        forall|z: u64, e: u64|
            zombob_set(*old(world)).contains(z) && #[trigger] in_subtree(
                parent_map(*old(world)),
                z,
                e,
            ) ==> !world_entities(*final(world)).contains_key(e),
        world_entities(*final(world)).submap_of(world_entities(*old(world))),
        forall|e: u64|
            world_entities(*old(world)).contains_key(e) && !world_entities(
                *final(world),
            ).contains_key(e) ==> exists|z: u64|
                zombob_set(*old(world)).contains(z) && #[trigger] in_subtree(
                    parent_map(*old(world)),
                    z,
                    e,
                ),
{
    let ghost w0 = *old(world);
    let ghost start = world_entities(w0);
    let roots = zombob_ids(world);
    let n = roots.len();
    let mut i: usize = 0;
    while i < n
        invariant
            n == roots.len(),
            i <= n,
            forall|e: u64| roots@.contains(e) <==> zombob_set(w0).contains(e),
            start == world_entities(w0),
            world_entities(*world).submap_of(start),
            forall|j: int| 0 <= j < i ==> !world_entities(*world).contains_key(#[trigger] roots@[j]),
            forall|e: u64|
                start.contains_key(e) && !world_entities(*world).contains_key(e) ==> exists|z: u64|
                    zombob_set(w0).contains(z) && #[trigger] in_subtree(parent_map(w0), z, e),
            removal_closed(start, world_entities(*world), parent_map(w0)),
        decreases n - i,
    {
        let ghost before = *world;
        let root = roots[i];
        despawn_entity_subtree(world, root);
        proof {
            let cur = world_entities(*world);
            let pm = parent_map(before);
            assert(pm.submap_of(parent_map(w0))) by {
                assert forall|k: u64| #[trigger] pm.contains_key(k) implies parent_map(w0).contains_key(k)
                    && parent_map(w0)[k] == pm[k] by {
                    assert(world_entities(before).contains_key(k));
                    assert(start.contains_key(k));
                    assert(start[k] == world_entities(before)[k]);
                }
            }
            assert(roots@.contains(root));
            assert(zombob_set(w0).contains(root));
            let p0 = seq![root];
            assert(is_chain(pm, p0));
            assert(in_subtree(pm, root, root));
            assert(!cur.contains_key(root));
            assert forall|j: int| 0 <= j < i + 1 implies !cur.contains_key(#[trigger] roots@[j]) by {
                if j < i {
                    assert(!world_entities(before).contains_key(roots@[j]));
                }
            }
            assert forall|e: u64|
                start.contains_key(e) && !cur.contains_key(e) implies exists|z: u64|
                    zombob_set(w0).contains(z) && #[trigger] in_subtree(parent_map(w0), z, e) by {
                if world_entities(before).contains_key(e) {
                    assert(subtree(pm, root).contains(e));
                    lemma_subtree_of_submap(pm, parent_map(w0), root, e);
                }
            }
            assert forall|x: u64, e: u64|
                #[trigger] in_subtree(parent_map(w0), x, e) && start.contains_key(x) && !cur.contains_key(x)
                implies !cur.contains_key(e) by {
                if world_entities(before).contains_key(e) {
                    let p = choose|p: Seq<u64>| #[trigger] is_chain(parent_map(w0), p) && p[0] == e
                        && p.last() == x;
                    lemma_present_chain(w0, before, p);
                    assert(in_subtree(pm, x, e));
                    assert(world_entities(before).contains_key(x));
                    assert(subtree(pm, root).contains(x));
                    lemma_subtree_trans(pm, e, x, root);
                    assert(subtree(pm, root).contains(e));
                }
            }
        }
        i = i + 1;
    }
    proof {
        assert(zombob_set(*world) =~= Set::<u64>::empty()) by {
            assert forall|e: u64| !zombob_set(*world).contains(e) by {
                if zombob_set(*world).contains(e) {
                    assert(start.contains_key(e) && start[e] == world_entities(*world)[e]);
                    assert(zombob_set(w0).contains(e));
                    assert(roots@.contains(e));
                    let j = choose|j: int| 0 <= j < roots@.len() && roots@[j] == e;
                    assert(!world_entities(*world).contains_key(roots@[j]));
                }
            }
        }
        assert forall|z: u64, e: u64|
            zombob_set(w0).contains(z) && #[trigger] in_subtree(parent_map(w0), z, e)
            implies !world_entities(*world).contains_key(e) by {
            assert(roots@.contains(z));
            let j = choose|j: int| 0 <= j < roots@.len() && roots@[j] == z;
            assert(!world_entities(*world).contains_key(roots@[j]));
        }
    }
}

} // verus!
