use imgrids::input::{
    decode_web_event, has_quit, is_sdl_quit, translate_sdl_event, InputEvent, SdlEvent, TouchState, ABS_X,
    ABS_Y, BTN_TOUCH, EV_ABS, EV_KEY, EV_SYN, SYN_REPORT,
};
use imgrids::keys::{poll_key, push_key, KeyQueue};

#[test]
fn keys_come_out_in_order() {
    let mut q = KeyQueue::new();
    assert_eq!(poll_key(&mut q), None);
    push_key(&mut q, "a");
    push_key(&mut q, "Return");
    assert_eq!(poll_key(&mut q), Some("a".to_string()));
    assert_eq!(poll_key(&mut q), Some("Return".to_string()));
    assert_eq!(poll_key(&mut q), None);
}

#[test]
fn web_events_decode_by_type() {
    assert_eq!(decode_web_event(0, 1, 2), Some(InputEvent::Press { x: 1, y: 2 }));
    assert_eq!(decode_web_event(1, 3, 4), Some(InputEvent::Release { x: 3, y: 4 }));
    assert_eq!(decode_web_event(2, 5, 6), Some(InputEvent::Move { x: 5, y: 6 }));
    assert_eq!(decode_web_event(3, 5, 6), None);
    assert_eq!(decode_web_event(-1, 5, 6), None);
}

#[test]
fn web_event_negative_coordinate_wraps() {
    assert_eq!(decode_web_event(0, -1, 0), Some(InputEvent::Press { x: usize::MAX, y: 0 }));
}

#[test]
fn sdl_events_translate_left_button_only() {
    assert_eq!(translate_sdl_event(SdlEvent::Quit), Some(InputEvent::Quit));
    assert_eq!(
        translate_sdl_event(SdlEvent::ButtonDown { x: 3, y: 4, left: true }),
        Some(InputEvent::Press { x: 3, y: 4 })
    );
    assert_eq!(translate_sdl_event(SdlEvent::ButtonDown { x: 3, y: 4, left: false }), None);
    assert_eq!(
        translate_sdl_event(SdlEvent::ButtonUp { x: 7, y: 8, left: true }),
        Some(InputEvent::Release { x: 7, y: 8 })
    );
    assert_eq!(
        translate_sdl_event(SdlEvent::Motion { x: 1, y: 1, left_held: true }),
        Some(InputEvent::Move { x: 1, y: 1 })
    );
    assert_eq!(translate_sdl_event(SdlEvent::Motion { x: 1, y: 1, left_held: false }), None);
    assert_eq!(translate_sdl_event(SdlEvent::Other), None);
    assert!(is_sdl_quit(SdlEvent::Quit));
    assert!(!is_sdl_quit(SdlEvent::Other));
}

#[test]
fn quit_is_found_among_events() {
    assert!(has_quit(&[InputEvent::Move { x: 0, y: 0 }, InputEvent::Quit]));
    assert!(!has_quit(&[InputEvent::Press { x: 0, y: 0 }]));
    assert!(!has_quit(&[]));
}

#[test]
fn touch_tap_gives_press_then_release() {
    let mut t = TouchState::new();
    assert_eq!(t.handle(EV_ABS, ABS_X, 10), None);
    assert_eq!(t.handle(EV_ABS, ABS_Y, 20), None);
    assert_eq!(t.handle(EV_KEY, BTN_TOUCH, 1), None);
    assert_eq!(t.handle(EV_SYN, SYN_REPORT, 0), Some(InputEvent::Press { x: 10, y: 20 }));
    assert_eq!(t.handle(EV_SYN, SYN_REPORT, 0), None);
    assert_eq!(t.handle(EV_ABS, ABS_X, 12), None);
    assert_eq!(t.handle(EV_SYN, SYN_REPORT, 0), Some(InputEvent::Move { x: 12, y: 20 }));
    assert_eq!(t.handle(EV_KEY, BTN_TOUCH, 0), None);
    assert_eq!(t.handle(EV_SYN, SYN_REPORT, 0), Some(InputEvent::Release { x: 12, y: 20 }));
    assert_eq!(t.handle(EV_SYN, SYN_REPORT, 0), None);
}

#[test]
fn touch_ignores_unknown_reports() {
    let mut t = TouchState::new();
    let before = t;
    assert_eq!(t.handle(EV_ABS, 5, 99), None);
    assert_eq!(t, before);
}

#[test]
fn touch_batch_gives_one_event_per_report() {
    let mut t = TouchState::new();
    let raw = [
        (EV_ABS, ABS_X, 10),
        (EV_ABS, ABS_Y, 20),
        (EV_KEY, BTN_TOUCH, 1),
        (EV_SYN, SYN_REPORT, 0),
        (EV_ABS, ABS_X, 11),
        (EV_SYN, SYN_REPORT, 0),
        (EV_SYN, SYN_REPORT, 0),
        (EV_KEY, BTN_TOUCH, 0),
        (EV_SYN, SYN_REPORT, 0),
    ];
    let events = t.handle_all(&raw);
    assert_eq!(
        events,
        vec![
            InputEvent::Press { x: 10, y: 20 },
            InputEvent::Move { x: 11, y: 20 },
            InputEvent::Release { x: 11, y: 20 },
        ]
    );
    assert!(t.handle_all(&[]).is_empty());
}
