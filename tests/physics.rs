use shapes2d::collision::{check_pair, CollisionSpace, Contact, SpaceError, GRAVITY};
use shapes2d::fixed::{isqrt, SCALE};
use shapes2d::geometry::{detect_circle_circle, detect_circle_rect, CollisionInfo};
use shapes2d::space::Space;
use shapes2d::things::{CollisionType, Dynamics, Rotation, Shape, Sprite, Transform};

fn circle(x: i64, y: i64, width: i32, dynamics: Dynamics, restitution: i64) -> Shape {
    Shape {
        transform: Transform::new(x, y, width, width, Rotation::identity()),
        collision_type: CollisionType::Circle,
        dynamics,
        restitution,
        colliding: false,
    }
}

fn rect(x: i64, y: i64, width: i32, height: i32, dynamics: Dynamics) -> Shape {
    Shape {
        transform: Transform::new(x, y, width, height, Rotation::identity()),
        collision_type: CollisionType::Rectangle,
        dynamics,
        restitution: 0,
        colliding: false,
    }
}

fn space_of(shapes: Vec<Shape>) -> CollisionSpace {
    let mut cs = CollisionSpace::new();
    for (k, sh) in shapes.into_iter().enumerate() {
        cs.register(k as u16, sh.transform, sh.collision_type, sh.restitution, sh.dynamics);
    }
    cs
}

#[test]
fn circles_overlapping_report_depth_and_normal() {
    let info = detect_circle_circle((0, 0), 10_000, (15_000, 0), 10_000).expect("overlap");
    assert_eq!(info.penetration, 5_000);
    assert_eq!(info.normal, (1_000, 0));
}

#[test]
fn circles_apart_do_not_collide() {
    assert!(detect_circle_circle((0, 0), 10_000, (25_000, 0), 10_000).is_none());
}

#[test]
fn circles_just_touching_do_not_collide() {
    assert!(detect_circle_circle((0, 0), 10_000, (20_000, 0), 10_000).is_none());
}

#[test]
fn circles_with_same_center_do_not_collide() {
    assert!(detect_circle_circle((5, 5), 10_000, (5, 5), 10_000).is_none());
}

#[test]
fn circles_diagonal_normal() {
    // 3-4-5 triangle: distance 5000 between centers.
    let info = detect_circle_circle((0, 0), 3_000, (3_000, 4_000), 3_000).expect("overlap");
    assert_eq!(info.penetration, 1_000);
    assert_eq!(info.normal, (600, 800));
}

#[test]
fn circle_against_axis_aligned_rectangle() {
    let info = detect_circle_rect((0, 0), 5_000, (12_000, 0), 20_000, 20_000, Rotation::identity())
        .expect("overlap");
    assert_eq!(info.penetration, 3_000);
    assert_eq!(info.normal, (1_000, 0));
}

#[test]
fn circle_against_quarter_turned_rectangle() {
    let quarter = Rotation { cos: 0, sin: SCALE };
    let info = detect_circle_rect((0, 0), 5_000, (12_000, 0), 20_000, 20_000, quarter).expect("overlap");
    assert_eq!(info.penetration, 3_000);
    assert_eq!(info.normal, (1_000, 0));
}

#[test]
fn circle_inside_rectangle_is_skipped() {
    assert!(detect_circle_rect((1_000, 0), 5_000, (0, 0), 20_000, 20_000, Rotation::identity()).is_none());
}

#[test]
fn circle_far_from_rectangle() {
    assert!(detect_circle_rect((0, 0), 5_000, (30_000, 0), 20_000, 20_000, Rotation::identity()).is_none());
}

#[test]
fn rectangle_first_pair_points_from_rectangle_to_circle() {
    let r = rect(12_000, 0, 20, 20, Dynamics::Kinematic);
    let c = circle(0, 0, 10, Dynamics::Dynamic, 500);
    let info = check_pair(&r, &c).expect("overlap");
    assert_eq!(info.normal, (-1_000, 0));
    assert_eq!(info.penetration, 3_000);
    let info2 = check_pair(&c, &r).expect("overlap");
    assert_eq!(info2.normal, (1_000, 0));
}

#[test]
fn rectangles_never_collide() {
    let a = rect(0, 0, 20, 20, Dynamics::Dynamic);
    let b = rect(5_000, 0, 20, 20, Dynamics::Dynamic);
    assert!(check_pair(&a, &b).is_none());
}

#[test]
fn static_and_kinematic_scene_detects_nothing() {
    let cs = space_of(vec![
        circle(0, 0, 20, Dynamics::Static, 500),
        circle(5_000, 0, 20, Dynamics::Kinematic, 500),
        rect(0, 0, 40, 40, Dynamics::Kinematic),
    ]);
    assert_eq!(cs.detect_collisions().len(), 0);
}

#[test]
fn free_body_gains_one_gravity_increment() {
    let mut cs = space_of(vec![circle(0, 0, 20, Dynamics::Dynamic, 700)]);
    cs.update();
    let t = cs.shapes[0].transform;
    assert_eq!(t.vel_y, GRAVITY);
    assert_eq!(t.vel_x, 0);
    assert_eq!(t.accel_y, GRAVITY);
    assert_eq!(t.y_pos, 4 * (GRAVITY / 4));
    assert_eq!(t.x_pos, 0);
}

#[test]
fn head_on_elastic_pair_reverses_velocities() {
    let mut a = circle(0, 0, 20, Dynamics::Dynamic, SCALE);
    a.transform.vel_x = 500;
    let mut b = circle(15_000, 0, 20, Dynamics::Dynamic, SCALE);
    b.transform.vel_x = -500;
    let mut cs = space_of(vec![a, b]);
    let contacts = cs.detect_collisions();
    assert_eq!(contacts.len(), 1);
    cs.resolve_collisions(contacts);
    assert_eq!(cs.shapes[0].transform.vel_x, -500);
    assert_eq!(cs.shapes[1].transform.vel_x, 500);
    assert_eq!(cs.shapes[0].transform.x_pos, -2_500);
    assert_eq!(cs.shapes[1].transform.x_pos, 17_500);
}

#[test]
fn separating_pair_keeps_velocities() {
    let mut a = circle(0, 0, 20, Dynamics::Dynamic, SCALE);
    a.transform.vel_x = -500;
    let mut b = circle(15_000, 0, 20, Dynamics::Dynamic, SCALE);
    b.transform.vel_x = 500;
    let mut cs = space_of(vec![a, b]);
    let contacts = cs.detect_collisions();
    cs.resolve_collisions(contacts);
    assert_eq!(cs.shapes[0].transform.vel_x, -500);
    assert_eq!(cs.shapes[1].transform.vel_x, 500);
}

#[test]
fn bounce_off_static_surface_is_damped() {
    let mut ball = circle(0, 0, 20, Dynamics::Dynamic, SCALE);
    ball.transform.vel_y = 1_000;
    let floor = rect(0, 50_000, 100, 10, Dynamics::Static);
    let mut cs = space_of(vec![ball, floor]);
    let contact = Contact {
        first: 0,
        second: 1,
        info: CollisionInfo { normal: (0, SCALE), penetration: 2_000 },
    };
    cs.resolve_collisions(vec![contact]);
    assert_eq!(cs.shapes[0].transform.vel_y, -800);
    assert_eq!(cs.shapes[0].transform.y_pos, -2_000);
    assert_eq!(cs.shapes[1].transform, floor.transform);
}

#[test]
fn kinematic_platform_is_never_pushed() {
    let mut ball = circle(0, 0, 20, Dynamics::Dynamic, 700);
    ball.transform.vel_y = 3_000;
    let platform = rect(0, 14_000, 100, 10, Dynamics::Kinematic);
    let mut cs = space_of(vec![platform, ball]);
    for _ in 0..20 {
        cs.update();
        assert_eq!(cs.shapes[0].transform, platform.transform);
    }
    // The ball never sinks through the platform's top edge by its radius.
    assert!(cs.shapes[1].transform.y_pos < 14_000);
}

#[test]
fn overlapping_bodies_are_flagged() {
    let ball = circle(0, 0, 20, Dynamics::Dynamic, 0);
    let platform = rect(0, 14_000, 100, 10, Dynamics::Kinematic);
    let far = circle(500_000, 0, 20, Dynamics::Dynamic, 0);
    let mut cs = space_of(vec![ball, platform, far]);
    cs.shapes[2].colliding = true;
    let contacts = cs.detect_collisions();
    assert_eq!(contacts.len(), 1);
    cs.reset_colliding_debug();
    cs.set_colliding_debug(&contacts);
    assert!(cs.shapes[0].colliding);
    assert!(cs.shapes[1].colliding);
    assert!(!cs.shapes[2].colliding);
}

#[test]
fn idle_scene_is_unchanged_by_a_frame() {
    let shapes = vec![
        circle(0, 0, 20, Dynamics::Static, 500),
        rect(3_000, 0, 40, 10, Dynamics::Kinematic),
        circle(100_000, 100_000, 20, Dynamics::Kinematic, 500),
    ];
    let mut cs = space_of(shapes.clone());
    cs.shapes[0].colliding = true;
    cs.update();
    for k in 0..shapes.len() {
        assert_eq!(cs.shapes[k].transform, shapes[k].transform);
        assert!(!cs.shapes[k].colliding);
    }
}

#[test]
fn kinematic_body_moves_by_its_own_velocity() {
    let mut k = rect(0, 0, 40, 10, Dynamics::Kinematic);
    k.transform.vel_x = 1_000;
    let mut cs = space_of(vec![k]);
    cs.update();
    assert_eq!(cs.shapes[0].transform.x_pos, 1_000);
    assert_eq!(cs.shapes[0].transform.vel_x, 1_000);
}

#[test]
fn positions_saturate_at_the_limit() {
    let mut k = rect(shapes2d::fixed::LIMIT, 0, 40, 10, Dynamics::Kinematic);
    k.transform.vel_x = 4_000;
    let mut cs = space_of(vec![k]);
    cs.update();
    assert_eq!(cs.shapes[0].transform.x_pos, shapes2d::fixed::LIMIT);
}

#[test]
fn identifiers_are_fresh_and_increasing() {
    let mut space = Space::new();
    let mut cs = CollisionSpace::new();
    let t = Transform::new(0, 0, 30, 30, Rotation::identity());
    let a = space.register(t, Sprite::Circle, None, Some(Dynamics::Dynamic), 700, &mut cs);
    let b = space.register(t, Sprite::Rectangle, Some((0, 0, 255)), Some(Dynamics::Kinematic), 0, &mut cs);
    let c = space.register(t, Sprite::Circle, None, None, 0, &mut cs);
    assert_eq!((a, b, c), (0, 1, 2));
    assert_eq!(space.things.len(), 3);
    assert_eq!(space.things[0].color, (0, 0, 0));
    assert_eq!(space.things[1].color, (0, 0, 255));
    assert!(space.things[1].dynamic);
    assert!(!space.things[2].dynamic);
    assert_eq!(cs.len(), 2);
    assert_eq!(cs.get(b).unwrap().collision_type, CollisionType::Rectangle);
    assert_eq!(cs.get(a).unwrap().colliding, false);
    assert_eq!(cs.get(c).err(), Some(SpaceError::UnknownId(2)));
}

#[test]
fn unknown_identifier_is_an_error() {
    let mut cs = space_of(vec![circle(0, 0, 20, Dynamics::Dynamic, 700)]);
    assert_eq!(cs.set_rotation(9, Rotation::identity()), Err(SpaceError::UnknownId(9)));
    assert_eq!(cs.set_position(9, 0, 0), Err(SpaceError::UnknownId(9)));
    assert_eq!(cs.index_of(9), None);
}

#[test]
fn rotation_and_position_are_set_by_identifier() {
    let mut cs = space_of(vec![rect(0, 0, 40, 10, Dynamics::Kinematic), circle(0, 0, 20, Dynamics::Dynamic, 0)]);
    let quarter = Rotation { cos: 0, sin: SCALE };
    assert_eq!(cs.set_rotation(0, quarter), Ok(()));
    assert_eq!(cs.shapes[0].transform.rotation, quarter);
    assert_eq!(cs.set_position(1, 7, -7), Ok(()));
    assert_eq!((cs.shapes[1].transform.x_pos, cs.shapes[1].transform.y_pos), (7, -7));
}

#[test]
fn collision_type_follows_sprite() {
    assert_eq!(CollisionType::from(&Sprite::Circle), CollisionType::Circle);
    assert_eq!(CollisionType::from(&Sprite::Rectangle), CollisionType::Rectangle);
}

#[test]
fn integer_square_root() {
    assert_eq!(isqrt(0), 0);
    assert_eq!(isqrt(24), 4);
    assert_eq!(isqrt(25), 5);
    assert_eq!(isqrt(4_000_000), 2_000);
}

#[test]
fn shape_setters() {
    let mut s = circle(0, 0, 20, Dynamics::Dynamic, 0);
    s.set_colliding(true);
    assert!(s.colliding);
    s.set_rotation(Rotation { cos: 0, sin: -SCALE });
    assert_eq!(s.transform.rotation.sin, -SCALE);
}

#[test]
fn near_touching_circles_get_a_unit_normal() {
    let info = detect_circle_circle((0, 0), 10_000, (1, 1), 10_000).expect("overlap");
    assert_eq!(info.normal, (707, 707));
    let len_sq = info.normal.0 * info.normal.0 + info.normal.1 * info.normal.1;
    assert!(998 * 998 <= len_sq && len_sq <= 1002 * 1002);
    assert_eq!(info.penetration, 19_999);
}

#[test]
fn near_touching_rectangle_corner_gets_a_unit_normal() {
    let info = detect_circle_rect((1_001, 1_001), 5_000, (0, 0), 2_000, 2_000, Rotation::identity())
        .expect("overlap");
    assert_eq!(info.normal, (-707, -707));
    let len_sq = info.normal.0 * info.normal.0 + info.normal.1 * info.normal.1;
    assert!(990 * 990 <= len_sq && len_sq <= 1010 * 1010);
    assert_eq!(info.penetration, 4_999);
}

#[test]
fn rotations_must_be_near_unit() {
    assert!(Rotation::identity().is_valid());
    assert!(Rotation { cos: 707, sin: 707 }.is_valid());
    assert!(!Rotation { cos: 0, sin: 0 }.is_valid());
    assert!(!Rotation { cos: 1_000, sin: 1_000 }.is_valid());
}
