use barnes_hut::bounding_box::QuadBoundingBox;
use barnes_hut::constants::{MAX_X, MAX_Y, MIN_X, MIN_Y};
use barnes_hut::scalar::Vec2;

fn bb() -> QuadBoundingBox {
    QuadBoundingBox { min_x: 0, max_x: 1000, min_y: 0, max_y: 1000 }
}

fn vec2(x: i64, y: i64) -> Vec2 {
    Vec2 { x, y }
}

#[test]
fn it_computes_cx() {
    let cx: i64 = bb().cx();
    assert_eq!(cx, 500);
}

#[test]
fn it_computes_cy() {
    let cy: i64 = bb().cy();
    assert_eq!(cy, 500);
}

#[test]
fn it_computes_length() {
    let bb2 = QuadBoundingBox { min_x: 400, max_x: 700, min_y: 200, max_y: 500 };

    assert_eq!(bb2.length(), 300);
}

#[test]
fn it_gets_quadrant_given_a_point() {
    let point = vec2(327, 587);
    assert_eq!(bb().get_point_quadrant(point), 0);
    let point = vec2(738, 587);
    assert_eq!(bb().get_point_quadrant(point), 1);
    let point = vec2(327, 187);
    assert_eq!(bb().get_point_quadrant(point), 2);
    let point = vec2(960, 187);
    assert_eq!(bb().get_point_quadrant(point), 3);
}

#[test]
fn it_computes_child_quadrant() {
    assert_eq!(
        bb().get_child_bb(1),
        QuadBoundingBox { min_x: 500, max_x: 1000, min_y: 500, max_y: 1000 }
    );
}

#[test]
fn it_checks_if_bb_contains_point() {
    assert_eq!(bb().contains(vec2(1200, 600)), false);
    assert_eq!(bb().contains(vec2(0, 600)), true);
    assert_eq!(bb().contains(vec2(600, 1200)), false);
    assert_eq!(bb().contains(vec2(1200, 1200)), false);
}

#[test]
fn contains_includes_the_borders() {
    assert!(bb().contains(vec2(0, 0)));
    assert!(bb().contains(vec2(1000, 1000)));
    assert!(bb().contains(vec2(1000, 0)));
    assert!(!bb().contains(vec2(-1, 0)));
    assert!(!bb().contains(vec2(0, 1001)));
}

#[test]
fn child_boxes_are_the_four_quarters() {
    let b = bb();
    assert_eq!(b.get_child_bb(0), QuadBoundingBox { min_x: 0, max_x: 500, min_y: 500, max_y: 1000 });
    assert_eq!(b.get_child_bb(2), QuadBoundingBox { min_x: 0, max_x: 500, min_y: 0, max_y: 500 });
    assert_eq!(b.get_child_bb(3), QuadBoundingBox { min_x: 500, max_x: 1000, min_y: 0, max_y: 500 });
    assert_eq!(b.get_child_bb(4), b);
    let mut q: usize = 0;
    while q < 4 {
        let c = b.get_child_bb(q);
        assert_eq!(c.length() * 2, b.length());
        assert_eq!(c.max_x - c.min_x, c.max_y - c.min_y);
        q += 1;
    }
}

#[test]
fn every_point_lies_in_the_child_of_its_quadrant() {
    let b = QuadBoundingBox { min_x: -7, max_x: 8, min_y: -3, max_y: 12 };
    let mut x: i64 = -7;
    while x <= 8 {
        let mut y: i64 = -3;
        while y <= 12 {
            let p = vec2(x, y);
            let q = b.get_point_quadrant(p);
            assert!(q < 4);
            assert!(b.get_child_bb(q).contains(p));
            let mut inside: usize = 0;
            let mut k: usize = 0;
            while k < 4 {
                if b.get_child_bb(k).contains(p) {
                    inside += 1;
                }
                k += 1;
            }
            assert!(inside >= 1);
            if inside > 1 {
                assert!(x == b.cx() || y == b.cy());
            }
            y += 1;
        }
        x += 1;
    }
}

#[test]
fn midpoints_round_down() {
    let b = QuadBoundingBox { min_x: -7, max_x: 8, min_y: -4, max_y: -1 };
    assert_eq!(b.cx(), 0);
    assert_eq!(b.cy(), -3);
    let wide = QuadBoundingBox { min_x: i64::MIN, max_x: i64::MAX, min_y: 0, max_y: 0 };
    assert_eq!(wide.cx(), -1);
    assert_eq!(wide.length(), i64::MAX);
}

#[test]
fn quadrant_on_the_midlines() {
    assert_eq!(bb().get_point_quadrant(vec2(500, 500)), 3);
    assert_eq!(bb().get_point_quadrant(vec2(499, 500)), 2);
    assert_eq!(bb().get_point_quadrant(vec2(500, 501)), 1);
    assert_eq!(bb().get_point_quadrant(vec2(499, 501)), 0);
}

#[test]
fn default_box_is_the_world() {
    let b = QuadBoundingBox::default();
    assert_eq!(b, QuadBoundingBox { min_x: MIN_X, max_x: MAX_X, min_y: MIN_Y, max_y: MAX_Y });
    assert_eq!(b.length(), 1_000_000_000);
}
