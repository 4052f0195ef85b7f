use break_free::geometry::{collide, reflect, Collision, Vec2i};

fn v(x: i64, y: i64) -> Vec2i {
    Vec2i::new(x, y)
}

#[test]
fn separate_boxes_do_not_collide() {
    assert_eq!(collide(v(0, 0), v(10, 10), v(30, 0), v(10, 10)), None);
    assert_eq!(collide(v(0, 0), v(10, 10), v(0, -30), v(10, 10)), None);
}

#[test]
fn touching_edges_do_not_collide() {
    assert_eq!(collide(v(0, 0), v(10, 10), v(10, 0), v(10, 10)), None);
    assert_eq!(collide(v(0, 0), v(10, 10), v(0, 10), v(10, 10)), None);
}

#[test]
fn each_face_is_named() {
    // Ball left of the obstacle, reaching into it.
    assert_eq!(collide(v(-8, 0), v(10, 10), v(0, 0), v(10, 40)), Some(Collision::Left));
    assert_eq!(collide(v(8, 0), v(10, 10), v(0, 0), v(10, 40)), Some(Collision::Right));
    assert_eq!(collide(v(0, 8), v(10, 10), v(0, 0), v(40, 10)), Some(Collision::Top));
    assert_eq!(collide(v(0, -8), v(10, 10), v(0, 0), v(40, 10)), Some(Collision::Bottom));
}

#[test]
fn ball_within_obstacle_is_inside() {
    assert_eq!(collide(v(0, 0), v(4, 4), v(0, 0), v(10, 10)), Some(Collision::Inside));
    assert_eq!(collide(v(0, 0), v(10, 10), v(0, 0), v(10, 10)), Some(Collision::Inside));
}

#[test]
fn shallower_axis_wins() {
    // x penetration 2, y penetration 6: the x face is the one struck.
    assert_eq!(collide(v(-8, -4), v(10, 10), v(0, 0), v(10, 10)), Some(Collision::Left));
    // x penetration 6, y penetration 2: the y face is the one struck.
    assert_eq!(collide(v(-4, -8), v(10, 10), v(0, 0), v(10, 10)), Some(Collision::Bottom));
}

#[test]
fn equal_penetration_favours_x() {
    assert_eq!(collide(v(-5, -5), v(10, 10), v(0, 0), v(10, 10)), Some(Collision::Left));
    assert_eq!(collide(v(5, 5), v(10, 10), v(0, 0), v(10, 10)), Some(Collision::Right));
}

#[test]
fn odd_extents_are_exact() {
    // Half extents of 2.5 each: edges at 2.5 and 2.5 touch only.
    assert_eq!(collide(v(0, 0), v(5, 5), v(5, 0), v(5, 5)), None);
    assert_eq!(collide(v(0, 0), v(5, 5), v(4, 0), v(5, 5)), Some(Collision::Left));
}

#[test]
fn reflection_negates_only_inward_component() {
    assert_eq!(reflect(v(3, 4), Some(Collision::Left)), v(-3, 4));
    assert_eq!(reflect(v(-3, 4), Some(Collision::Left)), v(-3, 4));
    assert_eq!(reflect(v(-3, 4), Some(Collision::Right)), v(3, 4));
    assert_eq!(reflect(v(3, 4), Some(Collision::Right)), v(3, 4));
    assert_eq!(reflect(v(3, -4), Some(Collision::Top)), v(3, 4));
    assert_eq!(reflect(v(3, 4), Some(Collision::Top)), v(3, 4));
    assert_eq!(reflect(v(3, 4), Some(Collision::Bottom)), v(3, -4));
    assert_eq!(reflect(v(3, -4), Some(Collision::Bottom)), v(3, -4));
    assert_eq!(reflect(v(3, 4), Some(Collision::Inside)), v(3, 4));
    assert_eq!(reflect(v(3, 4), None), v(3, 4));
}

#[test]
fn reflection_keeps_speed() {
    let before = v(-7, 24);
    for c in [Collision::Left, Collision::Right, Collision::Top, Collision::Bottom, Collision::Inside] {
        let after = reflect(before, Some(c));
        assert_eq!(after.x * after.x + after.y * after.y, 625);
    }
}
