use turtle_core::direction::JsonTurtleDirection;

#[test]
fn rotation_indices() {
    assert_eq!(JsonTurtleDirection::Forward.to_i32(), 0);
    assert_eq!(JsonTurtleDirection::Right.to_i32(), 1);
    assert_eq!(JsonTurtleDirection::Backward.to_i32(), 2);
    assert_eq!(JsonTurtleDirection::Left.to_i32(), 3);
    for i in 0..4 {
        assert_eq!(JsonTurtleDirection::from_i32(i).to_i32(), i);
    }
}

#[test]
fn rotate_right_then_left_is_identity() {
    for i in 0..4 {
        let start = JsonTurtleDirection::from_i32(i);
        let mut d = start;
        d.rotate_self(&JsonTurtleDirection::Right);
        d.rotate_self(&JsonTurtleDirection::Left);
        assert_eq!(d, start);
    }
}

#[test]
fn four_right_rotations_are_identity() {
    for i in 0..4 {
        let start = JsonTurtleDirection::from_i32(i);
        let mut d = start;
        for _ in 0..4 {
            d.rotate_self(&JsonTurtleDirection::Right);
        }
        assert_eq!(d, start);
    }
}

#[test]
fn forward_vectors_match_table() {
    let fwd = JsonTurtleDirection::Forward;
    assert_eq!(fwd.to_turtle_move_diff(&JsonTurtleDirection::Forward), (0, 0, -1));
    assert_eq!(fwd.to_turtle_move_diff(&JsonTurtleDirection::Right), (1, 0, 0));
    assert_eq!(fwd.to_turtle_move_diff(&JsonTurtleDirection::Backward), (0, 0, 1));
    assert_eq!(fwd.to_turtle_move_diff(&JsonTurtleDirection::Left), (-1, 0, 0));
}

#[test]
fn backward_negates_forward_vector() {
    let fwd = JsonTurtleDirection::Forward;
    let back = JsonTurtleDirection::Backward;
    for i in 0..4 {
        let facing = JsonTurtleDirection::from_i32(i);
        let (fx, fy, fz) = fwd.to_turtle_move_diff(&facing);
        let (bx, by, bz) = back.to_turtle_move_diff(&facing);
        assert_eq!((bx, by, bz), (-fx, -fy, -fz));
    }
}

#[test]
fn rotating_right_turns_vector_clockwise() {
    for i in 0..4 {
        let facing = JsonTurtleDirection::from_i32(i);
        let (fx, _, fz) = JsonTurtleDirection::Forward.to_turtle_move_diff(&facing);
        let mut turned = facing;
        turned.rotate_self(&JsonTurtleDirection::Right);
        let (tx, _, tz) = JsonTurtleDirection::Forward.to_turtle_move_diff(&turned);
        assert_eq!((tx, tz), (-fz, fx));
    }
}

#[test]
fn direction_string_roundtrip() {
    for i in 0..4 {
        let d = JsonTurtleDirection::from_i32(i);
        let s = d.to_direction_string();
        assert_eq!(JsonTurtleDirection::from_direction_str(s.as_str()), Some(d));
    }
    assert_eq!(JsonTurtleDirection::from_direction_str("forward"), Some(JsonTurtleDirection::Forward));
    assert_eq!(JsonTurtleDirection::from_direction_str("up"), None);
    assert_eq!(JsonTurtleDirection::from_direction_str("Forward"), None);
    assert_eq!(JsonTurtleDirection::Backward.to_direction_string(), "backward");
}
