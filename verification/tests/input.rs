use rust_console_game_engine::RustConsole;

fn raw(down: bool) -> Vec<bool> {
    let mut v = vec![false; 256];
    v[5] = down;
    v
}

#[test]
fn keys_start_with_no_edges() {
    let c = RustConsole::new(2, 2, 8, 8);
    for k in 0..256 {
        let s = c.key(k);
        assert!(!s.pressed && !s.released && !s.held);
    }
}

#[test]
fn down_down_up_up_gives_the_edge_sequence() {
    let mut c = RustConsole::new(2, 2, 8, 8);
    let samples = [true, true, false, false];
    let expected_pressed = [true, false, false, false];
    let expected_held = [true, true, false, false];
    let expected_released = [false, false, true, false];
    for t in 0..4 {
        c.update_key_states(&raw(samples[t]));
        let s = c.key(5);
        assert_eq!(s.pressed, expected_pressed[t], "pressed at tick {}", t);
        assert_eq!(s.held, expected_held[t], "held at tick {}", t);
        assert_eq!(s.released, expected_released[t], "released at tick {}", t);
    }
}

#[test]
fn unrelated_keys_stay_quiet() {
    let mut c = RustConsole::new(2, 2, 8, 8);
    c.update_key_states(&raw(true));
    for k in 0..256 {
        if k == 5 {
            continue;
        }
        let s = c.key(k);
        assert!(!s.pressed && !s.released && !s.held);
    }
}

#[test]
fn querying_a_key_twice_in_a_frame_is_stable() {
    let mut c = RustConsole::new(2, 2, 8, 8);
    c.update_key_states(&raw(true));
    let first = c.key(5);
    let second = c.key(5);
    assert_eq!(first.pressed, second.pressed);
    assert_eq!(first.held, second.held);
    assert_eq!(first.released, second.released);
}

#[test]
fn resize_keeps_key_state() {
    let mut c = RustConsole::new(4, 4, 8, 8);
    c.update_key_states(&raw(true));
    assert!(c.key(5).held);
    c.resize(8, 2, 8, 8);
    assert!(c.key(5).held);
}
