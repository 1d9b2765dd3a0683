use shapes2d::collision::CollisionSpace;
use shapes2d::reading::{parse_i16_at, parse_reading, LineBuffer};
use shapes2d::things::{CollisionType, Dynamics, Rotation, Transform};

#[test]
fn reading_of_three_values() {
    assert_eq!(parse_reading(b"12,-34,256"), Some((12, -34, 256)));
}

#[test]
fn reading_trims_the_line() {
    assert_eq!(parse_reading(b"  \t1,2,+3 \r"), Some((1, 2, 3)));
}

#[test]
fn reading_needs_exactly_three_fields() {
    assert_eq!(parse_reading(b"1,2"), None);
    assert_eq!(parse_reading(b"1,2,3,4"), None);
    assert_eq!(parse_reading(b""), None);
}

#[test]
fn reading_rejects_inner_space_and_junk() {
    assert_eq!(parse_reading(b"1, 2,3"), None);
    assert_eq!(parse_reading(b"1,x,3"), None);
    assert_eq!(parse_reading(b"1,,3"), None);
}

#[test]
fn reading_bounds_of_i16() {
    assert_eq!(parse_reading(b"32767,-32768,0"), Some((32767, -32768, 0)));
    assert_eq!(parse_reading(b"32768,0,0"), None);
    assert_eq!(parse_reading(b"0,-32769,0"), None);
    assert_eq!(parse_reading(b"0,0,000000000000000000000007"), Some((0, 0, 7)));
    assert_eq!(parse_reading(b"0,0,99999999999999999999"), None);
}

#[test]
fn lone_signs_are_not_numbers() {
    assert_eq!(parse_i16_at(b"-", 0, 1), None);
    assert_eq!(parse_i16_at(b"+", 0, 1), None);
    assert_eq!(parse_i16_at(b"-+1", 0, 3), None);
    assert_eq!(parse_i16_at(b"x-12y", 1, 4), Some(-12));
}

#[test]
fn line_buffer_frames_lines() {
    let mut lb = LineBuffer::new();
    assert_eq!(lb.push_byte(b'\n'), None);
    for &b in b"1,2\r" {
        assert_eq!(lb.push_byte(b), None);
    }
    assert_eq!(lb.push_byte(0xC3), None);
    assert_eq!(lb.push_byte(b'\n'), Some(b"1,2".to_vec()));
    assert!(lb.line.is_empty());
}

#[test]
fn bodies_leaving_the_screen_come_back_on_the_other_side() {
    let mut cs = CollisionSpace::new();
    let t = Transform::new(700_000, -40_000, 30, 30, Rotation::identity());
    cs.register(0, t, CollisionType::Circle, 0, Dynamics::Dynamic);
    let u = Transform::new(100_000, 100_000, 30, 30, Rotation::identity());
    cs.register(1, u, CollisionType::Circle, 0, Dynamics::Dynamic);
    cs.wrap_around(640, 480);
    assert_eq!(cs.shapes[0].transform.x_pos, -30_000);
    assert_eq!(cs.shapes[0].transform.y_pos, 510_000);
    assert_eq!(cs.shapes[1].transform.x_pos, 100_000);
    assert_eq!(cs.shapes[1].transform.y_pos, 100_000);
}
