use ferari::input::{InputSnapshot, InputState};

/// Test that InputState can be cloned and both instances share state
#[test]
fn test_input_state_clone_shares_state() {
    let input_state1 = InputState::new();
    let input_state2 = input_state1.clone();

    // Both should start with the same state
    let snapshot1 = input_state1.read();
    let snapshot2 = input_state2.read();

    assert_eq!(snapshot1.up, snapshot2.up);
    assert_eq!(snapshot1.down, snapshot2.down);
    assert_eq!(snapshot1.left, snapshot2.left);
    assert_eq!(snapshot1.right, snapshot2.right);
    assert_eq!(snapshot1.escape, snapshot2.escape);
}

/// Test that InputState initializes with all keys set to false
#[test]
fn test_new_input_state_initializes_all_false() {
    let input_state = InputState::new();
    let snapshot = input_state.read();

    assert!(!snapshot.up);
    assert!(!snapshot.down);
    assert!(!snapshot.left);
    assert!(!snapshot.right);
    assert!(!snapshot.escape);
}

#[test]
fn update_is_seen_by_every_clone() {
    let poller = InputState::new();
    let reader = poller.clone();
    let pressed =
        InputSnapshot { up: true, left: false, down: false, right: true, escape: false };
    poller.update(&pressed);
    assert_eq!(reader.read(), pressed);
    assert_eq!(poller.read(), pressed);

    let released =
        InputSnapshot { up: false, left: false, down: false, right: false, escape: true };
    reader.update(&released);
    assert_eq!(poller.read(), released);
}

#[test]
fn update_keeps_each_key_apart() {
    let state = InputState::new();
    for bits in 0u8..32 {
        let pressed = InputSnapshot {
            up: bits & 1 != 0,
            left: bits & 2 != 0,
            down: bits & 4 != 0,
            right: bits & 8 != 0,
            escape: bits & 16 != 0,
        };
        state.update(&pressed);
        assert_eq!(state.read(), pressed);
    }
}

#[test]
fn from_keys_puts_each_key_in_its_field() {
    for bits in 0u8..32 {
        let flags = [bits & 1 != 0, bits & 2 != 0, bits & 4 != 0, bits & 8 != 0, bits & 16 != 0];
        let snapshot = InputSnapshot::from_keys(flags[0], flags[1], flags[2], flags[3], flags[4]);
        assert_eq!(snapshot.up, flags[0]);
        assert_eq!(snapshot.left, flags[1]);
        assert_eq!(snapshot.down, flags[2]);
        assert_eq!(snapshot.right, flags[3]);
        assert_eq!(snapshot.escape, flags[4]);
    }
}
