use termraster::event::event_from_native;
use termraster::event::key_code_from_native;
use termraster::event::key_event_from_native;
use termraster::event::modifiers_from_bits;
use termraster::event::Event;
use termraster::event::KeyCode;
use termraster::event::KeyEvent;
use termraster::event::KeyModifiers;
use termraster::event::NativeEvent;
use termraster::event::NativeKeyCode;
use termraster::pacer::decay;
use termraster::pacer::fps_text;
use termraster::pacer::Pacer;

#[test]
fn normalize_char_key_without_modifiers() {
    let e = event_from_native(NativeEvent::Key(NativeKeyCode::Char('q'), 0));
    assert!(e == Event::Key(KeyEvent { code: KeyCode::Char('q'), modifiers: KeyModifiers::NONE }));
}

#[test]
fn normalize_unmapped_key_degrades_gracefully() {
    let e = event_from_native(NativeEvent::Key(NativeKeyCode::Other, 0));
    assert!(
        e == Event::Key(KeyEvent { code: KeyCode::NotImplemented, modifiers: KeyModifiers::NONE })
    );
    let non_key = event_from_native(NativeEvent::Other);
    assert!(
        non_key
            == Event::Key(KeyEvent { code: KeyCode::NotImplemented, modifiers: KeyModifiers::NONE })
    );
}

#[test]
fn normalize_arrow_keys() {
    assert!(key_code_from_native(NativeKeyCode::Up) == KeyCode::Up);
    assert!(key_code_from_native(NativeKeyCode::Down) == KeyCode::Down);
    assert!(key_code_from_native(NativeKeyCode::Left) == KeyCode::Left);
    assert!(key_code_from_native(NativeKeyCode::Right) == KeyCode::Right);
}

#[test]
fn normalize_modifier_bits() {
    assert!(modifiers_from_bits(1) == KeyModifiers::SHIFT);
    assert!(modifiers_from_bits(2) == KeyModifiers::CONTROL);
    assert!(modifiers_from_bits(0) == KeyModifiers::NONE);
    // A combination is not a single recognized modifier.
    assert!(modifiers_from_bits(3) == KeyModifiers::NONE);
    let e = key_event_from_native(NativeKeyCode::Char('Z'), 1);
    assert!(e.code == KeyCode::Char('Z'));
    assert!(e.modifiers == KeyModifiers::SHIFT);
}

#[test]
fn key_event_constructors() {
    let e = KeyEvent::new(KeyCode::Char('a'));
    assert!(e.code == KeyCode::Char('a'));
    assert!(e.modifiers == KeyModifiers::NONE);
    let f = KeyEvent::new_with_modifiers(KeyCode::Left, KeyModifiers::CONTROL);
    assert!(f.code == KeyCode::Left);
    assert!(f.modifiers == KeyModifiers::CONTROL);
}

#[test]
fn decay_clamps_overrun_frame_to_zero_sleep() {
    // 60 fps budget is 16_666_666 ns; a slower frame never yields a
    // negative sleep.
    assert_eq!(decay(16_666_666, 60), 0);
    assert_eq!(decay(20_000_000, 60), 0);
    assert_eq!(decay(u64::MAX, 60), 0);
}

#[test]
fn decay_returns_remaining_budget() {
    assert_eq!(decay(10_000_000, 60), 6_666_666);
    assert_eq!(decay(0, 60), 16_666_666);
    assert_eq!(decay(4_000_000, 100), 6_000_000);
}

#[test]
fn pacer_smoothed_fps_is_window_mean() {
    // 119 frames of 0.02 s and one of 0.01 s fill the 120-slot window;
    // the smoothed rate is the arithmetic mean of the reciprocals.
    let mut p = Pacer::new();
    for _ in 0..119 {
        p.tick(20_000_000);
    }
    p.tick(10_000_000);
    let milli = p.smoothed_milli_fps();
    let got = milli as f64 / 1000.0;
    let expected = (119.0 * (1.0 / 0.02) + 1.0 * (1.0 / 0.01)) / 120.0;
    assert!((got - expected).abs() < 0.01, "got {} expected {}", got, expected);
    assert_eq!(p.smoothed_fps(), 50);
}

#[test]
fn pacer_window_wraps_cyclically() {
    let mut p = Pacer::new();
    // 240 identical frames: the ring has wrapped once and every slot
    // holds the same rate.
    for _ in 0..240 {
        p.tick(20_000_000);
    }
    assert_eq!(p.smoothed_milli_fps(), 50_000);
}

#[test]
fn pacer_starts_at_sixty_fps() {
    let p = Pacer::new();
    assert_eq!(p.smoothed_milli_fps(), 60_000);
    assert_eq!(p.smoothed_fps(), 60);
}

#[test]
fn fps_text_formats_label() {
    assert_eq!(fps_text(50), b"50 FPS".to_vec());
    assert_eq!(fps_text(0), b"0 FPS".to_vec());
    assert_eq!(fps_text(1234), b"1234 FPS".to_vec());
}
