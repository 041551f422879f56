use barnes_hut::bounding_box::QuadBoundingBox;
use barnes_hut::particle::{Particle, ParticleProperties};
use barnes_hut::quadtree::{QuadTree, MASS_LIMIT, MAX_DEPTH};
use barnes_hut::scalar::{Vec2, ONE};
use barnes_hut::traversal::QuadTreeIter;

fn body(x: i64, y: i64, mass: i64) -> Particle {
    Particle::new(ParticleProperties {
        position: Vec2 { x: x * ONE, y: y * ONE },
        mass: mass * ONE,
        radius: ONE,
        velocity: Vec2 { x: 0, y: 0 },
        acceleration: Vec2 { x: 0, y: 0 },
    })
}

fn count_nodes(t: &QuadTree) -> usize {
    let mut n: usize = 1;
    for c in &t.children {
        if let Some(c) = c {
            n += count_nodes(c);
        }
    }
    n
}

fn height(t: &QuadTree) -> usize {
    let mut h: usize = 0;
    for c in &t.children {
        if let Some(c) = c {
            h = h.max(1 + height(c));
        }
    }
    h
}

fn sources(t: &QuadTree, p: Vec2, theta: i64) -> Vec<Particle> {
    let mut it = QuadTreeIter::new(p, theta, t);
    let mut out = Vec::new();
    while let Some(n) = it.next() {
        out.push(n.particle);
    }
    out
}

#[test]
fn empty_tree_covers_the_world() {
    let t = QuadTree::empty();
    assert_eq!(t.bounding_box, QuadBoundingBox::default());
    assert_eq!(t.particle.mass, 0);
    assert_eq!(t.children.len(), 4);
    assert!(!t.is_subdivided());
}

#[test]
fn first_particle_becomes_the_root() {
    let mut t = QuadTree::empty();
    let a = body(100, 100, 2);
    t.insert_particle(a);
    assert_eq!(t.particle.id, a.id);
    assert_eq!(t.particle.mass, 2 * ONE);
    assert!(!t.is_subdivided());
}

#[test]
fn update_cm_is_the_weighted_mean() {
    let mut t = QuadTree::empty();
    t.insert_particle(body(100, 100, 2));
    t.update_cm(500 * ONE, 300 * ONE, 6 * ONE);
    assert_eq!(t.particle.mass, 8 * ONE);
    assert_eq!(t.particle.position, Vec2 { x: 400 * ONE, y: 250 * ONE });
    // rounds down
    let mut u = QuadTree::empty();
    u.particle.mass = 1;
    u.particle.position = Vec2 { x: -1, y: 0 };
    u.update_cm(0, 1, 1);
    assert_eq!(u.particle.position, Vec2 { x: -1, y: 0 });
    assert_eq!(u.particle.mass, 2);
}

#[test]
fn root_aggregate_does_not_depend_on_the_order() {
    let a = body(100, 100, 2);
    let b = body(500, 300, 6);
    let ab = QuadTree::from_points(vec![a, b]);
    let ba = QuadTree::from_points(vec![b, a]);
    assert_eq!(ab.particle.mass, 8 * ONE);
    assert_eq!(ba.particle.mass, 8 * ONE);
    assert_eq!(ab.particle.position, Vec2 { x: 400 * ONE, y: 250 * ONE });
    assert_eq!(ba.particle.position, ab.particle.position);
}

#[test]
fn two_particles_split_until_they_part() {
    let a = body(100, 100, 1);
    let b = body(200, 100, 1);
    let t = QuadTree::from_points(vec![a, b]);
    assert!(t.is_subdivided());
    assert_eq!(t.particle.position, Vec2 { x: 150 * ONE, y: 100 * ONE });
    // both fall in quadrant 2 twice, then part
    let c1 = t.children[2].as_ref().unwrap();
    assert_eq!(c1.particle.mass, 2 * ONE);
    assert_eq!(c1.bounding_box, t.bounding_box.get_child_bb(2));
    let c2 = c1.children[2].as_ref().unwrap();
    assert_eq!(c2.particle.mass, 2 * ONE);
    let la = c2.children[2].as_ref().unwrap();
    let lb = c2.children[3].as_ref().unwrap();
    assert_eq!(la.particle.id, a.id);
    assert_eq!(lb.particle.id, b.id);
    assert!(!la.is_subdivided());
    assert!(!lb.is_subdivided());
    assert_eq!(count_nodes(&t), 5);
}

#[test]
fn a_free_slot_takes_the_particle_and_the_ancestors_its_mass() {
    let a = body(100, 100, 1);
    let b = body(900, 900, 1);
    let c = body(900, 100, 2);
    let t = QuadTree::from_points(vec![a, b, c]);
    assert_eq!(t.particle.mass, 4 * ONE);
    assert_eq!(t.children[2].as_ref().unwrap().particle.id, a.id);
    assert_eq!(t.children[1].as_ref().unwrap().particle.id, b.id);
    assert_eq!(t.children[3].as_ref().unwrap().particle.id, c.id);
    assert!(t.children[0].is_none());
    // the mean of a and b, at (500, 500) with mass 2, takes c in
    assert_eq!(t.particle.position.x, 700 * ONE);
    assert_eq!(t.particle.position.y, 300 * ONE);
}

#[test]
fn a_particle_outside_the_box_is_left_out() {
    let mut t = QuadTree::from_points(vec![body(100, 100, 3)]);
    let mass = t.particle.mass;
    let position = t.particle.position;
    t.insert_particle(body(1001, 100, 5));
    t.insert_particle(body(100, -1, 5));
    assert_eq!(t.particle.mass, mass);
    assert_eq!(t.particle.position, position);
    assert!(!t.is_subdivided());
}

#[test]
fn a_particle_without_mass_is_left_out() {
    let mut t = QuadTree::from_points(vec![body(100, 100, 3)]);
    t.insert_particle(body(200, 200, 0));
    t.insert_particle(body(200, 200, -1));
    assert_eq!(t.particle.mass, 3 * ONE);
    assert!(!t.is_subdivided());
}

#[test]
fn the_aggregate_mass_stays_within_the_limit() {
    let mut heavy = body(100, 100, 1);
    heavy.mass = MASS_LIMIT;
    let mut t = QuadTree::from_points(vec![heavy]);
    t.insert_particle(body(200, 200, 1));
    assert_eq!(t.particle.mass, MASS_LIMIT);
    assert!(!t.is_subdivided());
    let mut too_heavy = body(100, 100, 1);
    too_heavy.mass = MASS_LIMIT + 1;
    let u = QuadTree::from_points(vec![too_heavy]);
    assert_eq!(u.particle.mass, 0);
}

#[test]
fn coincident_particles_merge_at_the_depth_limit() {
    let a = body(300, 300, 1);
    let b = body(300, 300, 2);
    let t = QuadTree::from_points(vec![a, b]);
    assert_eq!(t.particle.mass, 3 * ONE);
    assert_eq!(height(&t), MAX_DEPTH);
    assert_eq!(count_nodes(&t), MAX_DEPTH + 1);
    let mut node = &t;
    while node.is_subdivided() {
        let q = node.bounding_box.get_point_quadrant(a.position);
        node = node.children[q].as_ref().unwrap();
    }
    assert_eq!(node.particle.mass, 3 * ONE);
    assert_eq!(node.particle.position, a.position);
}

#[test]
fn theta_zero_yields_every_other_leaf() {
    let a = body(100, 100, 1);
    let b = body(900, 900, 1);
    let c = body(900, 100, 2);
    let d = body(120, 130, 2);
    let t = QuadTree::from_points(vec![a, b, c, d]);
    let s = sources(&t, a.position, 0);
    let mut ids: Vec<u128> = s.iter().map(|p| p.id).collect();
    ids.sort();
    let mut expected: Vec<u128> = vec![b.id, c.id, d.id];
    expected.sort();
    assert_eq!(ids, expected);
}

#[test]
fn a_far_node_stands_for_its_subtree() {
    let a = body(100, 100, 1);
    let b = body(900, 900, 1);
    let t = QuadTree::from_points(vec![a, b]);
    // side 1000 over distance 500 from (1000, 500) to the aggregate at (500, 500)
    let far = Vec2 { x: 1000 * ONE, y: 500 * ONE };
    let s = sources(&t, far, 3 * ONE);
    assert_eq!(s.len(), 1);
    assert_eq!(s[0].mass, 2 * ONE);
    assert_eq!(s[0].position, Vec2 { x: 500 * ONE, y: 500 * ONE });
    // the ratio 2 is not under 2, but under anything above
    assert_eq!(sources(&t, far, 2 * ONE).len(), 2);
    assert_eq!(sources(&t, far, 2 * ONE + 1).len(), 1);
    // a quarter further away the ratio is 1000 / 750, rounded down
    let further = Vec2 { x: 1250 * ONE, y: 500 * ONE };
    assert_eq!(sources(&t, further, 1_333_333).len(), 2);
    assert_eq!(sources(&t, further, 1_333_334).len(), 1);
}

#[test]
fn a_node_at_the_query_point_is_skipped() {
    let a = body(100, 100, 1);
    let t = QuadTree::from_points(vec![a]);
    assert_eq!(sources(&t, a.position, ONE).len(), 0);
    assert_eq!(sources(&t, Vec2 { x: 0, y: 0 }, ONE).len(), 1);
}

#[test]
fn traversal_visits_the_last_slot_first() {
    let a = body(100, 100, 1);
    let b = body(900, 900, 1);
    let c = body(900, 100, 2);
    let t = QuadTree::from_points(vec![a, b, c]);
    let s = sources(&t, Vec2 { x: 500 * ONE, y: 500 * ONE }, 0);
    let ids: Vec<u128> = s.iter().map(|p| p.id).collect();
    assert_eq!(ids, vec![c.id, a.id, b.id]);
}

#[test]
fn neighbours_are_the_other_leaves_around_a_particle() {
    let a = body(100, 100, 1);
    let b = body(108, 100, 1);
    let c = body(900, 900, 1);
    let t = QuadTree::from_points(vec![a, b, c]);
    let near_a: Vec<u128> = t.nearby_particles(&a).iter().map(|p| p.id).collect();
    assert_eq!(near_a, vec![b.id]);
    let near_b: Vec<u128> = t.nearby_particles(&b).iter().map(|p| p.id).collect();
    assert_eq!(near_b, vec![a.id]);
    // c hangs below the root: the whole tree is searched
    let near_c: Vec<u128> = t.nearby_particles(&c).iter().map(|p| p.id).collect();
    assert_eq!(near_c, vec![a.id, b.id]);
    // a particle that the tree does not hold has no neighbours
    let stranger = body(100, 100, 1);
    assert_eq!(t.nearby_particles(&stranger).len(), 0);
}

#[test]
fn add_child_puts_a_leaf_in_the_quadrant_of_the_particle() {
    let mut t = QuadTree::empty();
    let a = body(700, 200, 1);
    t.add_child(a);
    let leaf = t.children[3].as_ref().unwrap();
    assert_eq!(leaf.particle.id, a.id);
    assert_eq!(leaf.bounding_box, t.bounding_box.get_child_bb(3));
    assert!(t.is_subdivided());
}

fn raw(x: i64, y: i64, mass: i64) -> Particle {
    Particle::new(ParticleProperties {
        position: Vec2 { x, y },
        mass,
        radius: 1,
        velocity: Vec2 { x: 0, y: 0 },
        acceleration: Vec2 { x: 0, y: 0 },
    })
}

#[test]
fn order_changes_a_held_aggregate_by_a_unit_at_most() {
    let first = raw(0, 0, 1);
    let a = raw(1, 3, 1);
    let b = raw(2, 6, 1);
    let ab = QuadTree::from_points(vec![first, a, b]);
    let ba = QuadTree::from_points(vec![first, b, a]);
    assert_eq!(ab.particle.mass, 3);
    assert_eq!(ba.particle.mass, 3);
    // (0 + 1) / 2 = 0, then (0 + 2) / 3 = 0; (0 + 2) / 2 = 1, then (2 + 1) / 3 = 1
    assert_eq!(ab.particle.position, Vec2 { x: 0, y: 2 });
    assert_eq!(ba.particle.position, Vec2 { x: 1, y: 3 });
}
