use keyd::config::Config;
use keyd::config_impl::config_parse_string;
use keyd::keyboard::{kbd_config_check, KeyEvent, Keyboard, Output};
use keyd::runnable::keyboard_from_text;
use keyd::keys::{KEYD_A, KEYD_B, KEYD_CAPSLOCK, KEYD_ESC, KEYD_H, KEYD_J, KEYD_LEFT, KEYD_LEFTCTRL, KEYD_X};

fn keyboard_for(conf: &str) -> Keyboard {
    let mut cfg = Config::new();
    config_parse_string(&mut cfg, conf).unwrap();
    assert!(kbd_config_check(&cfg));
    Keyboard::new(cfg)
}

#[test]
fn test_basic_remapping() {
    let mut cfg = Config::new();
    config_parse_string(&mut cfg, "[ids]\n*\n\n[main]\na = b\n").unwrap();
    let mut kbd = Keyboard::new(cfg);
    let mut output = Output::new();

    let events = [
        KeyEvent { code: KEYD_A, pressed: 1, timestamp: 0 },
        KeyEvent { code: KEYD_A, pressed: 0, timestamp: 0 },
    ];

    kbd.kbd_process_events(&mut output, &events);

    for event in &output.events {
        println!("Output Event: code={}, pressed={}", event.code, event.pressed);
    }

    assert_eq!(output.events.len(), 2);
    assert_eq!(output.events[0].code, KEYD_B);
    assert_eq!(output.events[0].pressed, 1);
    assert_eq!(output.events[1].code, KEYD_B);
    assert_eq!(output.events[1].pressed, 0);
}

#[test]
fn test_layer_switching() {
    let mut cfg = Config::new();
    config_parse_string(&mut cfg, "[ids]\n*\n\n[main]\ncapslock = layer(nav)\n\n[nav]\nh = left\n").unwrap();
    let mut kbd = Keyboard::new(cfg);
    let mut output = Output::new();

    let events = [
        KeyEvent { code: KEYD_CAPSLOCK, pressed: 1, timestamp: 0 },
        KeyEvent { code: KEYD_H, pressed: 1, timestamp: 0 },
        KeyEvent { code: KEYD_H, pressed: 0, timestamp: 0 },
        KeyEvent { code: KEYD_CAPSLOCK, pressed: 0, timestamp: 0 },
    ];

    kbd.kbd_process_events(&mut output, &events);

    assert_eq!(output.events.len(), 2);
    assert_eq!(output.events[0].code, KEYD_LEFT);
    assert_eq!(output.events[0].pressed, 1);
    assert_eq!(output.events[1].code, KEYD_LEFT);
    assert_eq!(output.events[1].pressed, 0);
}

#[test]
fn test_toggle_layer() {
    let mut cfg = Config::new();
    config_parse_string(&mut cfg, "[ids]\n*\n\n[main]\ncapslock = toggle(nav)\n\n[nav]\nh = left\n").unwrap();
    let mut kbd = Keyboard::new(cfg);
    let mut output = Output::new();

    let events = [
        KeyEvent { code: KEYD_CAPSLOCK, pressed: 1, timestamp: 0 },
        KeyEvent { code: KEYD_CAPSLOCK, pressed: 0, timestamp: 0 },
        KeyEvent { code: KEYD_H, pressed: 1, timestamp: 0 },
        KeyEvent { code: KEYD_H, pressed: 0, timestamp: 0 },
        KeyEvent { code: KEYD_CAPSLOCK, pressed: 1, timestamp: 0 },
        KeyEvent { code: KEYD_CAPSLOCK, pressed: 0, timestamp: 0 },
        KeyEvent { code: KEYD_H, pressed: 1, timestamp: 0 },
        KeyEvent { code: KEYD_H, pressed: 0, timestamp: 0 },
    ];
    kbd.kbd_process_events(&mut output, &events);

    assert_eq!(output.events[0].code, KEYD_LEFT);
    assert_eq!(output.events[0].pressed, 1);
    assert_eq!(output.events[1].code, KEYD_LEFT);
    assert_eq!(output.events[1].pressed, 0);

    assert_eq!(output.events[2].code, KEYD_H);
    assert_eq!(output.events[2].pressed, 1);
    assert_eq!(output.events[3].code, KEYD_H);
    assert_eq!(output.events[3].pressed, 0);
}

#[test]
fn test_clear_op() {
    let mut cfg = Config::new();
    config_parse_string(&mut cfg, "[ids]\n*\n\n[main]\ncapslock = toggle(nav)\nx = clear\n\n[nav]\nh = left\n").unwrap();
    let mut kbd = Keyboard::new(cfg);
    let mut output = Output::new();

    let events = [
        KeyEvent { code: KEYD_CAPSLOCK, pressed: 1, timestamp: 0 },
        KeyEvent { code: KEYD_CAPSLOCK, pressed: 0, timestamp: 0 },
        KeyEvent { code: KEYD_X, pressed: 1, timestamp: 0 },
        KeyEvent { code: KEYD_X, pressed: 0, timestamp: 0 },
        KeyEvent { code: KEYD_H, pressed: 1, timestamp: 0 },
        KeyEvent { code: KEYD_H, pressed: 0, timestamp: 0 },
    ];
    kbd.kbd_process_events(&mut output, &events);

    let h_events: Vec<_> = output.events.iter().filter(|e| e.code == KEYD_H).collect();
    assert!(!h_events.is_empty(), "expected h key events after clear");
    assert_eq!(h_events[0].code, KEYD_H);
}

#[test]
fn test_overload_tap() {
    let mut cfg = Config::new();
    config_parse_string(&mut cfg, "[ids]\n*\n\n[main]\ncapslock = overload(control, esc)\n").unwrap();
    let mut kbd = Keyboard::new(cfg);
    let mut output = Output::new();

    let events = [
        KeyEvent { code: KEYD_CAPSLOCK, pressed: 1, timestamp: 0 },
        KeyEvent { code: KEYD_CAPSLOCK, pressed: 0, timestamp: 50 },
    ];
    kbd.kbd_process_events(&mut output, &events);

    let codes: Vec<u8> = output.events.iter().map(|e| e.code).collect();
    assert!(codes.contains(&KEYD_ESC), "tap should produce ESC");
    let esc_down = output.events.iter().find(|e| e.code == KEYD_ESC && e.pressed != 0);
    assert!(esc_down.is_some(), "ESC press event must be present");
}

#[test]
fn test_overload_hold() {
    let mut cfg = Config::new();
    config_parse_string(&mut cfg, "[ids]\n*\n\n[main]\ncapslock = overload(control, esc)\n").unwrap();
    let mut kbd = Keyboard::new(cfg);
    let mut output = Output::new();

    let events = [
        KeyEvent { code: KEYD_CAPSLOCK, pressed: 1, timestamp: 0 },
        KeyEvent { code: KEYD_A, pressed: 1, timestamp: 10 },
        KeyEvent { code: KEYD_A, pressed: 0, timestamp: 20 },
        KeyEvent { code: KEYD_CAPSLOCK, pressed: 0, timestamp: 30 },
    ];
    kbd.kbd_process_events(&mut output, &events);

    let codes: Vec<u8> = output.events.iter().map(|e| e.code).collect();
    assert!(codes.contains(&KEYD_LEFTCTRL), "control should be pressed during hold");
    assert!(codes.contains(&KEYD_A), "a should be emitted");
    assert!(!codes.contains(&KEYD_ESC), "esc must not fire on hold");
}

#[test]
fn test_overloadt_tap() {
    let mut cfg = Config::new();
    config_parse_string(&mut cfg, "[ids]\n*\n\n[main]\ncapslock = overloadt(nav, a, 200)\n\n[nav]\n").unwrap();
    let mut kbd = Keyboard::new(cfg);
    let mut output = Output::new();

    let events = [
        KeyEvent { code: KEYD_CAPSLOCK, pressed: 1, timestamp: 0 },
        KeyEvent { code: KEYD_CAPSLOCK, pressed: 0, timestamp: 50 },
    ];
    kbd.kbd_process_events(&mut output, &events);

    let sent: Vec<_> = output.events.iter().map(|e| e.code).collect();
    assert!(sent.contains(&KEYD_A), "tap should produce 'a'");
}

#[test]
fn test_overloadt_timeout() {
    let mut cfg = Config::new();
    config_parse_string(&mut cfg, "[ids]\n*\n\n[main]\ncapslock = overloadt(nav, a, 200)\n\n[nav]\nh = left\n").unwrap();
    let mut kbd = Keyboard::new(cfg);
    let mut output = Output::new();

    let events = [
        KeyEvent { code: KEYD_CAPSLOCK, pressed: 1, timestamp: 0 },
        KeyEvent { code: KEYD_H, pressed: 1, timestamp: 300 },
        KeyEvent { code: KEYD_H, pressed: 0, timestamp: 300 },
        KeyEvent { code: KEYD_CAPSLOCK, pressed: 0, timestamp: 350 },
    ];
    kbd.kbd_process_events(&mut output, &events);

    let sent: Vec<u8> = output.events.iter().map(|e| e.code).collect();
    assert!(sent.contains(&KEYD_LEFT), "after timeout, h should produce left in nav layer");
    assert!(!sent.contains(&KEYD_A), "tap action must not fire on timeout");
}

#[test]
fn test_swap_layer() {
    let mut cfg = Config::new();
    config_parse_string(&mut cfg, "[ids]\n*\n\n[main]\ncapslock = layer(nav)\n\n[nav]\nj = swap(vim)\n\n[vim]\nh = left\n").unwrap();
    let mut kbd = Keyboard::new(cfg);
    let mut output = Output::new();

    let events = [
        KeyEvent { code: KEYD_CAPSLOCK, pressed: 1, timestamp: 0 },
        KeyEvent { code: KEYD_J, pressed: 1, timestamp: 1 },
        KeyEvent { code: KEYD_J, pressed: 0, timestamp: 1 },
        KeyEvent { code: KEYD_H, pressed: 1, timestamp: 2 },
        KeyEvent { code: KEYD_H, pressed: 0, timestamp: 2 },
        KeyEvent { code: KEYD_CAPSLOCK, pressed: 0, timestamp: 3 },
    ];
    kbd.kbd_process_events(&mut output, &events);

    let h_down: Vec<_> = output.events.iter().filter(|e| e.pressed != 0).collect();
    assert!(!h_down.is_empty());
    assert_eq!(h_down[0].code, KEYD_LEFT, "h should produce left in vim layer after swap");
}

#[test]
fn parsed_configs_are_runnable() {
    for conf in [
        "[ids]\n*\n\n[main]\na = b\n",
        "[ids]\n*\n\n[main]\ncapslock = overloadt(nav, a, 200)\n\n[nav]\nh = left\n",
        "[ids]\n*\n\n[main]\ncapslock = overload(control, esc)\n",
    ] {
        let _ = keyboard_for(conf);
    }
}

#[test]
fn output_events_alternate_per_key() {
    let mut kbd = keyboard_for("[ids]\n*\n\n[main]\ncapslock = overload(control, esc)\na = b\n");
    let mut output = Output::new();
    let events = [
        KeyEvent { code: KEYD_CAPSLOCK, pressed: 1, timestamp: 0 },
        KeyEvent { code: KEYD_A, pressed: 1, timestamp: 10 },
        KeyEvent { code: KEYD_A, pressed: 1, timestamp: 11 },
        KeyEvent { code: KEYD_A, pressed: 0, timestamp: 20 },
        KeyEvent { code: KEYD_CAPSLOCK, pressed: 0, timestamp: 30 },
        KeyEvent { code: KEYD_CAPSLOCK, pressed: 1, timestamp: 40 },
        KeyEvent { code: KEYD_CAPSLOCK, pressed: 0, timestamp: 41 },
    ];
    kbd.kbd_process_events(&mut output, &events);
    let mut down = [false; 256];
    for e in &output.events {
        let now_down = e.pressed != 0;
        assert_ne!(down[e.code as usize], now_down);
        down[e.code as usize] = now_down;
    }
    assert_eq!(output.events[0].code, KEYD_LEFTCTRL);
    assert!(output.events.iter().any(|e| e.code == KEYD_B && e.pressed == 1));
}

#[test]
fn process_event_and_tick() {
    let mut kbd = keyboard_for("[ids]\n*\n\n[main]\ncapslock = overloadt(nav, a, 200)\n\n[nav]\nh = left\n");
    let mut output = Output::new();
    let t = kbd.process_event(&mut output, KeyEvent { code: KEYD_CAPSLOCK, pressed: 1, timestamp: 0 });
    assert_eq!(t, 200);
    assert!(output.events.is_empty());
    kbd.check_timeouts(&mut output, 250);
    kbd.process_event(&mut output, KeyEvent { code: KEYD_H, pressed: 1, timestamp: 260 });
    kbd.process_event(&mut output, KeyEvent { code: KEYD_H, pressed: 0, timestamp: 270 });
    assert_eq!(output.events.len(), 2);
    assert_eq!(output.events[0].code, KEYD_LEFT);
    assert_eq!(output.events[1].code, KEYD_LEFT);
    assert_eq!(output.layer_changes.len(), 1);
}

#[test]
fn keyboard_from_configuration_text() {
    let mut kbd = keyboard_from_text("[ids]\n*\n\n[main]\na = b\n").ok().unwrap();
    let mut output = Output::new();
    kbd.process_event(&mut output, KeyEvent { code: KEYD_A, pressed: 1, timestamp: 0 });
    kbd.process_event(&mut output, KeyEvent { code: KEYD_A, pressed: 0, timestamp: 1 });
    assert_eq!(output.events.len(), 2);
    assert_eq!(output.events[0].code, KEYD_B);
    assert_eq!(output.events[1].pressed, 0);
    let err = keyboard_from_text("[main]\na = notakey\n").err().unwrap();
    assert_eq!(err, "unknown function: notakey");
}

#[test]
fn repeated_press_and_stray_release_do_nothing() {
    let mut kbd = keyboard_for("[ids]\n*\n\n[main]\na = b\n");
    let mut output = Output::new();
    kbd.process_event(&mut output, KeyEvent { code: KEYD_H, pressed: 0, timestamp: 0 });
    assert!(output.events.is_empty());
    kbd.process_event(&mut output, KeyEvent { code: KEYD_A, pressed: 1, timestamp: 1 });
    kbd.process_event(&mut output, KeyEvent { code: KEYD_A, pressed: 1, timestamp: 2 });
    assert_eq!(output.events.len(), 1);
    assert_eq!(kbd.check_timeouts(&mut output, 3), 0);
    assert_eq!(output.events.len(), 1);
}

#[test]
fn pending_overload_holds_events_back() {
    let mut kbd = keyboard_for("[ids]\n*\n\n[main]\ncapslock = overloadt(nav, a, 200)\n\n[nav]\nh = left\n");
    let mut output = Output::new();
    assert_eq!(kbd.process_event(&mut output, KeyEvent { code: KEYD_CAPSLOCK, pressed: 1, timestamp: 0 }), 200);
    assert_eq!(kbd.process_event(&mut output, KeyEvent { code: KEYD_H, pressed: 1, timestamp: 10 }), 190);
    assert!(output.events.is_empty());
    kbd.process_event(&mut output, KeyEvent { code: KEYD_CAPSLOCK, pressed: 0, timestamp: 20 });
    let codes: Vec<(u8, u8)> = output.events.iter().map(|e| (e.code, e.pressed)).collect();
    assert_eq!(codes, vec![(KEYD_A, 1), (KEYD_H, 1), (KEYD_A, 0)]);
}

#[test]
fn layout_switch_maps_through_new_layout() {
    let mut kbd = keyboard_for("[ids]\n*\n\n[main]\nx = layout(dv)\n\n[dv]\na = b\n");
    let mut output = Output::new();
    let events = [
        KeyEvent { code: KEYD_X, pressed: 1, timestamp: 0 },
        KeyEvent { code: KEYD_X, pressed: 0, timestamp: 1 },
        KeyEvent { code: KEYD_A, pressed: 1, timestamp: 2 },
        KeyEvent { code: KEYD_A, pressed: 0, timestamp: 3 },
    ];
    kbd.kbd_process_events(&mut output, &events);
    let codes: Vec<(u8, u8)> = output.events.iter().map(|e| (e.code, e.pressed)).collect();
    assert_eq!(codes, vec![(KEYD_B, 1), (KEYD_B, 0)]);
    assert_eq!(output.layer_changes.len(), 1);
    assert_eq!(output.layer_changes[0].active, 1);
}

#[test]
fn repeat_presses_last_sequence_again() {
    let mut kbd = keyboard_for("[ids]\n*\n\n[main]\na = b\nx = repeat\n");
    let mut output = Output::new();
    let events = [
        KeyEvent { code: KEYD_A, pressed: 1, timestamp: 0 },
        KeyEvent { code: KEYD_A, pressed: 0, timestamp: 1 },
        KeyEvent { code: KEYD_X, pressed: 1, timestamp: 2 },
        KeyEvent { code: KEYD_X, pressed: 0, timestamp: 3 },
    ];
    kbd.kbd_process_events(&mut output, &events);
    let codes: Vec<(u8, u8)> = output.events.iter().map(|e| (e.code, e.pressed)).collect();
    assert_eq!(codes, vec![(KEYD_B, 1), (KEYD_B, 0), (KEYD_B, 1), (KEYD_B, 0)]);
}

#[test]
fn overload_on_idleness_chooses_by_idle_time() {
    let mut kbd = keyboard_for("[ids]\n*\n\n[main]\nx = overloadi(a, b, 100)\n");
    let mut output = Output::new();
    let events = [
        KeyEvent { code: KEYD_X, pressed: 1, timestamp: 0 },
        KeyEvent { code: KEYD_X, pressed: 0, timestamp: 10 },
        KeyEvent { code: KEYD_X, pressed: 1, timestamp: 500 },
        KeyEvent { code: KEYD_X, pressed: 0, timestamp: 510 },
    ];
    kbd.kbd_process_events(&mut output, &events);
    let codes: Vec<(u8, u8)> = output.events.iter().map(|e| (e.code, e.pressed)).collect();
    assert_eq!(codes, vec![(KEYD_A, 1), (KEYD_A, 0), (KEYD_B, 1), (KEYD_B, 0)]);
}

#[test]
fn modifiers_of_key_sequence_go_down_around_key() {
    let mut kbd = keyboard_for("[ids]\n*\n\n[main]\na = C-b\n");
    let mut output = Output::new();
    kbd.process_event(&mut output, KeyEvent { code: KEYD_A, pressed: 1, timestamp: 0 });
    let codes: Vec<(u8, u8)> = output.events.iter().map(|e| (e.code, e.pressed)).collect();
    assert_eq!(codes, vec![(KEYD_LEFTCTRL, 1), (KEYD_B, 1)]);
}

#[test]
fn overload_release_after_other_key_sends_only_modifiers() {
    let mut kbd = keyboard_for("[ids]\n*\n\n[main]\ncapslock = overload(control, esc)\n");
    let mut output = Output::new();
    kbd.process_event(&mut output, KeyEvent { code: KEYD_CAPSLOCK, pressed: 1, timestamp: 0 });
    kbd.process_event(&mut output, KeyEvent { code: KEYD_A, pressed: 1, timestamp: 10 });
    kbd.process_event(&mut output, KeyEvent { code: KEYD_A, pressed: 0, timestamp: 20 });
    let before = output.events.len();
    kbd.process_event(&mut output, KeyEvent { code: KEYD_CAPSLOCK, pressed: 0, timestamp: 30 });
    let tail: Vec<(u8, u8)> = output.events[before..].iter().map(|e| (e.code, e.pressed)).collect();
    assert_eq!(tail, vec![(KEYD_LEFTCTRL, 0)]);
}

#[test]
fn toggle_release_sends_nothing() {
    let mut kbd = keyboard_for("[ids]\n*\n\n[main]\ncapslock = toggle(nav)\n\n[nav]\nh = left\n");
    let mut output = Output::new();
    kbd.process_event(&mut output, KeyEvent { code: KEYD_CAPSLOCK, pressed: 1, timestamp: 0 });
    let before = output.events.len();
    kbd.process_event(&mut output, KeyEvent { code: KEYD_CAPSLOCK, pressed: 0, timestamp: 5 });
    assert_eq!(output.events.len(), before);
}

#[test]
fn unmapped_press_sends_own_key_only() {
    let mut kbd = keyboard_for("[ids]\n*\n\n[main]\na = b\n");
    let mut output = Output::new();
    kbd.process_event(&mut output, KeyEvent { code: KEYD_H, pressed: 1, timestamp: 0 });
    kbd.process_event(&mut output, KeyEvent { code: KEYD_H, pressed: 0, timestamp: 1 });
    let codes: Vec<(u8, u8)> = output.events.iter().map(|e| (e.code, e.pressed)).collect();
    assert_eq!(codes, vec![(KEYD_H, 1), (KEYD_H, 0)]);
}

#[test]
fn clear_releases_down_keys_in_order() {
    let mut kbd = keyboard_for("[ids]\n*\n\n[main]\nx = clear\n");
    let mut output = Output::new();
    kbd.process_event(&mut output, KeyEvent { code: KEYD_J, pressed: 1, timestamp: 0 });
    kbd.process_event(&mut output, KeyEvent { code: KEYD_A, pressed: 1, timestamp: 1 });
    let before = output.events.len();
    kbd.process_event(&mut output, KeyEvent { code: KEYD_X, pressed: 1, timestamp: 2 });
    let tail: Vec<(u8, u8)> = output.events[before..].iter().map(|e| (e.code, e.pressed)).collect();
    assert_eq!(tail, vec![(KEYD_A, 0), (KEYD_J, 0)]);
}
