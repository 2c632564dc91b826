use sensor_scene::movement::{player_movement, ArrowKeys, Direction};

fn keys(up: bool, down: bool, left: bool, right: bool) -> ArrowKeys {
    ArrowKeys { up, down, left, right }
}

#[test]
fn no_key_is_rest() {
    assert_eq!(player_movement(keys(false, false, false, false)), Direction { x: 0, z: 0 });
}

#[test]
fn right_arrow_is_positive_x() {
    let d = player_movement(keys(false, false, false, true));
    assert_eq!(d, Direction { x: 1, z: 0 });
    assert!(d.x > 0);
}

#[test]
fn left_arrow_is_negative_x() {
    assert_eq!(player_movement(keys(false, false, true, false)), Direction { x: -1, z: 0 });
}

#[test]
fn up_arrow_is_negative_z() {
    assert_eq!(player_movement(keys(true, false, false, false)), Direction { x: 0, z: -1 });
}

#[test]
fn down_arrow_is_positive_z() {
    assert_eq!(player_movement(keys(false, true, false, false)), Direction { x: 0, z: 1 });
}

#[test]
fn opposite_keys_cancel() {
    assert_eq!(player_movement(keys(true, true, false, false)), Direction { x: 0, z: 0 });
    assert_eq!(player_movement(keys(false, false, true, true)), Direction { x: 0, z: 0 });
    assert_eq!(player_movement(keys(true, true, true, true)), Direction { x: 0, z: 0 });
}

#[test]
fn cancelled_axis_leaves_the_other() {
    assert_eq!(player_movement(keys(true, true, false, true)), Direction { x: 1, z: 0 });
    assert_eq!(player_movement(keys(true, false, true, true)), Direction { x: 0, z: -1 });
}

#[test]
fn diagonals() {
    assert_eq!(player_movement(keys(true, false, false, true)), Direction { x: 1, z: -1 });
    assert_eq!(player_movement(keys(true, false, true, false)), Direction { x: -1, z: -1 });
    assert_eq!(player_movement(keys(false, true, false, true)), Direction { x: 1, z: 1 });
    assert_eq!(player_movement(keys(false, true, true, false)), Direction { x: -1, z: 1 });
}

#[test]
fn every_combination_follows_the_axis_rule() {
    for bits in 0u8..16 {
        let up = bits & 1 != 0;
        let down = bits & 2 != 0;
        let left = bits & 4 != 0;
        let right = bits & 8 != 0;
        let d = player_movement(keys(up, down, left, right));
        assert_eq!(d.x, i8::from(right) - i8::from(left));
        assert_eq!(d.z, i8::from(down) - i8::from(up));
        assert!((-1..=1).contains(&d.x));
        assert!((-1..=1).contains(&d.z));
    }
}
