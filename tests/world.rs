use crayon::arena::{Arena, Storage};
use crayon::bitset::{BitSet, MAX_KINDS};
use crayon::entity::{Entities, Entity};
use crayon::event::{ApplicationEvent, TouchState};
use crayon::join::AllEntities;
use crayon::scene::MeshRenderer;
use crayon::world::{CapacityExhausted, NotAlive, World};

#[derive(Clone, Copy, Debug, PartialEq)]
enum Comp {
    Position(i32, i32),
    Velocity(i32, i32),
}

fn two_kind_world() -> (World<Comp>, usize, usize) {
    let mut w = World::new();
    let pos = w.register(Storage::Dense).unwrap();
    let vel = w.register(Storage::Sparse).unwrap();
    (w, pos, vel)
}

#[test]
fn entities_stay_distinct_after_slot_reuse() {
    let mut d = Entities::new();
    let e1 = d.create();
    let e2 = d.create();
    assert_ne!(e1, e2);
    assert!(d.destroy(e1));
    let e3 = d.create();
    assert_eq!(e3.index(), e1.index());
    assert_eq!(e3.generation(), e1.generation() + 1);
    assert_ne!(e3, e1);
    assert_ne!(e3, e2);
    assert!(!d.is_alive(e1));
    assert!(d.is_alive(e3));
    assert_eq!(d.len(), 2);
}

#[test]
fn new_slot_starts_at_generation_zero() {
    let mut d = Entities::new();
    let e = d.create();
    assert_eq!(e, Entity { index: 0, generation: 0 });
    let f = d.create();
    assert_eq!(f, Entity { index: 1, generation: 0 });
}

#[test]
fn last_freed_slot_is_reused_first() {
    let mut d = Entities::new();
    let a = d.create();
    let b = d.create();
    let _c = d.create();
    assert!(d.destroy(a));
    assert!(d.destroy(b));
    let x = d.create();
    assert_eq!(x, Entity { index: 1, generation: 1 });
    let y = d.create();
    assert_eq!(y, Entity { index: 0, generation: 1 });
    let z = d.create();
    assert_eq!(z, Entity { index: 3, generation: 0 });
}

#[test]
fn destroy_twice_returns_false_the_second_time() {
    let mut d = Entities::new();
    let e = d.create();
    assert!(d.destroy(e));
    assert!(!d.destroy(e));
    let mut w: World<u64> = World::new();
    let f = w.create_entity();
    assert!(w.destroy_entity(f));
    assert!(!w.destroy_entity(f));
}

#[test]
fn destroy_of_unknown_handle_is_a_no_op() {
    let mut d = Entities::new();
    assert!(!d.destroy(Entity { index: 7, generation: 0 }));
    let e = d.create();
    assert!(!d.destroy(Entity { index: e.index, generation: 5 }));
    assert!(d.is_alive(e));
}

#[test]
fn attach_then_detach_gives_the_value_back() {
    let (mut w, pos, vel) = two_kind_world();
    let e = w.create_entity();
    assert_eq!(w.attach(pos, e, Comp::Position(1, 2)), Ok(()));
    assert!(w.has(pos, e));
    assert!(!w.has(vel, e));
    assert_eq!(w.detach(pos, e), Some(Comp::Position(1, 2)));
    assert!(!w.has(pos, e));
    assert_eq!(w.detach(pos, e), None);
    assert_eq!(w.attach(vel, e, Comp::Velocity(3, 4)), Ok(()));
    assert_eq!(w.detach(vel, e), Some(Comp::Velocity(3, 4)));
    assert!(!w.has(vel, e));
}

#[test]
fn attach_overwrites_the_previous_value() {
    let (mut w, pos, _) = two_kind_world();
    let e = w.create_entity();
    assert_eq!(w.attach(pos, e, Comp::Position(1, 1)), Ok(()));
    assert_eq!(w.attach(pos, e, Comp::Position(9, 9)), Ok(()));
    assert_eq!(w.get(pos, e), Some(&Comp::Position(9, 9)));
}

#[test]
fn attach_to_dead_entity_fails_with_not_alive() {
    let (mut w, pos, _) = two_kind_world();
    let e = w.create_entity();
    assert!(w.destroy_entity(e));
    assert_eq!(w.attach(pos, e, Comp::Position(0, 0)), Err(NotAlive));
    assert!(!w.has(pos, e));
    assert_eq!(w.get(pos, e), None);
    assert_eq!(w.detach(pos, e), None);
}

#[test]
fn signature_bits_match_arena_contents_over_a_random_run() {
    let mut w: World<u64> = World::new();
    let kinds = [
        w.register(Storage::Dense).unwrap(),
        w.register(Storage::Sparse).unwrap(),
        w.register(Storage::Dense).unwrap(),
    ];
    let mut live: Vec<Entity> = Vec::new();
    let mut all: Vec<Entity> = Vec::new();
    let mut seed: u64 = 0x2545_f491_4f6c_dd1d;
    for step in 0..2000u64 {
        seed = seed.wrapping_mul(6364136223846793005).wrapping_add(1442695040888963407);
        let op = (seed >> 33) % 5;
        let k = kinds[((seed >> 40) % 3) as usize];
        if live.is_empty() || op == 0 {
            let e = w.create_entity();
            live.push(e);
            all.push(e);
        } else {
            let pick = ((seed >> 20) as usize) % live.len();
            let e = live[pick];
            match op {
                1 | 2 => assert_eq!(w.attach(k, e, step), Ok(())),
                3 => {
                    let had = w.has(k, e);
                    assert_eq!(w.detach(k, e).is_some(), had);
                }
                _ => {
                    assert!(w.destroy_entity(e));
                    live.swap_remove(pick);
                }
            }
        }
        for e in &all {
            for &k in &kinds {
                assert_eq!(w.has(k, *e), w.get(k, *e).is_some());
                if !w.is_alive(*e) {
                    assert!(!w.has(k, *e));
                }
            }
        }
    }
}

#[test]
fn join_over_two_kinds_yields_only_entities_with_both() {
    let (mut w, a, b) = two_kind_world();
    let only_a = w.create_entity();
    let only_b = w.create_entity();
    let both = w.create_entity();
    let none = w.create_entity();
    w.attach(a, only_a, Comp::Position(1, 0)).unwrap();
    w.attach(b, only_b, Comp::Velocity(2, 0)).unwrap();
    w.attach(a, both, Comp::Position(3, 0)).unwrap();
    w.attach(b, both, Comp::Velocity(4, 0)).unwrap();
    let fa = w.fetch(a);
    let fb = w.fetch(b);
    let ab = w.join(&(fa, fb));
    assert_eq!(ab.len(), 1);
    assert_eq!(ab[0].0, both);
    assert_eq!(*(ab[0].1).0, Comp::Position(3, 0));
    assert_eq!(*(ab[0].1).1, Comp::Velocity(4, 0));
    let only = w.join(&w.fetch(a));
    let ents: Vec<Entity> = only.iter().map(|x| x.0).collect();
    assert_eq!(ents, vec![only_a, both]);
    assert_eq!(*only[0].1, Comp::Position(1, 0));
    assert_eq!(*only[1].1, Comp::Position(3, 0));
    let every = w.join(&AllEntities);
    let ents: Vec<Entity> = every.iter().map(|x| x.0).collect();
    assert_eq!(ents, vec![only_a, only_b, both, none]);
}

#[test]
fn join_scenario_position_velocity_then_destroy() {
    let (mut w, position, velocity) = two_kind_world();
    let e0 = w.create_entity();
    let e1 = w.create_entity();
    let e2 = w.create_entity();
    w.attach(position, e0, Comp::Position(0, 0)).unwrap();
    w.attach(position, e2, Comp::Position(2, 2)).unwrap();
    w.attach(velocity, e1, Comp::Velocity(1, 1)).unwrap();
    w.attach(velocity, e2, Comp::Velocity(2, 2)).unwrap();
    let pv: Vec<Entity> = w
        .join(&(w.fetch(position), w.fetch(velocity)))
        .iter()
        .map(|x| x.0)
        .collect();
    assert_eq!(pv, vec![e2]);
    let p: Vec<Entity> = w.join(&w.fetch(position)).iter().map(|x| x.0).collect();
    assert_eq!(p, vec![e0, e2]);
    assert!(w.destroy_entity(e2));
    let pv = w.join(&(w.fetch(position), w.fetch(velocity)));
    assert!(pv.is_empty());
}

#[test]
fn join_over_three_kinds_and_the_entity_stream() {
    let mut w: World<u64> = World::new();
    let a = w.register(Storage::Dense).unwrap();
    let b = w.register(Storage::Dense).unwrap();
    let c = w.register(Storage::Sparse).unwrap();
    let mut es = Vec::new();
    for i in 0..7u64 {
        let e = w.create_entity();
        w.attach(a, e, i).unwrap();
        if i % 2 == 0 {
            w.attach(b, e, 10 + i).unwrap();
        }
        if i % 3 == 0 {
            w.attach(c, e, 20 + i).unwrap();
        }
        es.push(e);
    }
    let r = w.join(&(AllEntities, (w.fetch(a), w.fetch(b)), w.fetch(c)));
    assert_eq!(r.len(), 2);
    assert_eq!(r[0].0, es[0]);
    assert_eq!((r[0].1).0, es[0]);
    assert_eq!(*((r[0].1).1).1, 10);
    assert_eq!(*(r[0].1).2, 20);
    assert_eq!(r[1].0, es[6]);
    assert_eq!(*(r[1].1).2, 26);
}

#[test]
fn join_with_no_match_is_empty() {
    let (mut w, a, b) = two_kind_world();
    let _ = w.create_entity();
    assert!(w.join(&(w.fetch(a), w.fetch(b))).is_empty());
    let empty: World<u64> = World::new();
    assert!(empty.join(&AllEntities).is_empty());
}

#[test]
fn destroy_drops_all_components_before_slot_reuse() {
    let (mut w, pos, vel) = two_kind_world();
    let e = w.create_entity();
    w.attach(pos, e, Comp::Position(5, 5)).unwrap();
    w.attach(vel, e, Comp::Velocity(6, 6)).unwrap();
    assert!(w.destroy_entity(e));
    assert!(!w.has(pos, e));
    assert!(!w.has(vel, e));
    let f = w.create_entity();
    assert_eq!(f.index(), e.index());
    assert_ne!(f, e);
    assert!(!w.has(pos, f));
    assert!(!w.has(vel, f));
    assert_eq!(w.get(pos, f), None);
    assert!(w.join(&w.fetch(pos)).is_empty());
    assert!(w.join(&w.fetch(vel)).is_empty());
}

#[test]
fn registration_stops_at_signature_width() {
    let mut w: World<u8> = World::new();
    for i in 0..MAX_KINDS {
        assert_eq!(w.register(Storage::Sparse), Ok(i));
    }
    assert_eq!(w.num_kinds(), 128);
    assert_eq!(w.register(Storage::Dense), Err(CapacityExhausted));
    assert_eq!(w.num_kinds(), 128);
    let e = w.create_entity();
    w.attach(127, e, 1).unwrap();
    assert!(w.has(127, e));
    assert_eq!(w.join(&w.fetch(127)).len(), 1);
}

#[test]
fn fetch_reads_one_kind() {
    let (mut w, pos, vel) = two_kind_world();
    let e = w.create_entity();
    w.attach(vel, e, Comp::Velocity(7, 8)).unwrap();
    let f = w.fetch(vel);
    assert_eq!(f.kind(), vel);
    assert_eq!(f.get(e), Some(&Comp::Velocity(7, 8)));
    assert_eq!(f.get_unchecked(e), &Comp::Velocity(7, 8));
    assert_eq!(w.fetch(pos).get(e), None);
}

#[test]
fn bitset_operations() {
    let mut a = BitSet::new();
    assert!(a.is_empty());
    a.insert(0);
    a.insert(127);
    assert!(a.contains(0) && a.contains(127) && !a.contains(5));
    assert!(!a.contains(500));
    let b = BitSet::from_index(5);
    let u = a.union_with(&b);
    assert!(u.contains(0) && u.contains(5) && u.contains(127));
    assert!(u.contains_all(&a));
    assert!(u.contains_all(&b));
    assert!(!a.contains_all(&b));
    assert!(a.contains_all(&BitSet::new()));
    let i = u.intersect_with(&b);
    assert_eq!(i, b);
    a.remove(0);
    a.remove(127);
    assert!(a.is_empty());
}

#[test]
fn arenas_of_both_layouts_agree() {
    for s in [Storage::Dense, Storage::Sparse] {
        let mut a: Arena<&str> = Arena::new(s);
        assert!(!a.contains(3));
        assert_eq!(a.insert(3, "x"), None);
        assert_eq!(a.insert(3, "y"), Some("x"));
        assert_eq!(a.get(3), Some(&"y"));
        assert_eq!(a.get_unchecked(3), &"y");
        assert_eq!(a.get(2), None);
        assert_eq!(a.remove(3), Some("y"));
        assert_eq!(a.remove(3), None);
        assert_eq!(a.remove(1000), None);
        assert!(!a.contains(3));
    }
}

#[test]
fn world_live_slots() {
    let mut w: World<u8> = World::new();
    assert!(w.has_room());
    let e = w.create_entity();
    assert_eq!(w.num_slots(), 1);
    assert_eq!(w.live_at(0), Some(e));
    assert!(w.destroy_entity(e));
    assert_eq!(w.live_at(0), None);
    assert_eq!(w.live_at(9), None);
    assert!(!w.is_alive(e));
}

#[test]
fn plain_values() {
    assert_eq!(MeshRenderer::new(), MeshRenderer {});
    assert_ne!(ApplicationEvent::Resized(1, 2), ApplicationEvent::Moved(1, 2));
    assert!(TouchState::Start < TouchState::Cancel);
}

#[test]
fn get_mut_writes_the_stored_value() {
    let (mut w, pos, vel) = two_kind_world();
    let e = w.create_entity();
    w.attach(pos, e, Comp::Position(1, 1)).unwrap();
    w.attach(vel, e, Comp::Velocity(1, 1)).unwrap();
    if let Some(p) = w.get_mut(pos, e) {
        *p = Comp::Position(8, 9);
    }
    assert_eq!(w.get(pos, e), Some(&Comp::Position(8, 9)));
    assert_eq!(w.get(vel, e), Some(&Comp::Velocity(1, 1)));
    if let Some(v) = w.get_mut(vel, e) {
        *v = Comp::Velocity(2, 3);
    }
    assert_eq!(w.get(vel, e), Some(&Comp::Velocity(2, 3)));
    let f = w.create_entity();
    assert!(w.get_mut(pos, f).is_none());
    assert!(w.destroy_entity(e));
    assert!(w.get_mut(pos, e).is_none());
}

#[test]
fn arena_get_mut_in_both_layouts() {
    for s in [Storage::Dense, Storage::Sparse] {
        let mut a: Arena<u32> = Arena::new(s);
        assert!(a.get_mut(4).is_none());
        a.insert(4, 1);
        *a.get_mut(4).unwrap() = 6;
        assert_eq!(a.get(4), Some(&6));
        assert!(a.get_mut(5).is_none());
        assert_eq!(a.get(5), None);
    }
}
