use keyd::config::{Config, ID_KEY, ID_KEYBOARD, ID_MOUSE, ID_TRACKPAD};
use keyd::config_impl::config_parse_string;
use keyd::device::{
    caps_to_id_flags, decode_event, describe_device, device_capabilities, device_id, generate_uid, is_virtual_vendor,
    map_evdev_code, select_keyboard, DeviceEventType, CAP_KEY, CAP_KEYBOARD, CAP_MOUSE, CAP_MOUSE_ABS,
};
use keyd::keyboard::Keyboard;

#[test]
fn caps_map_to_id_flags() {
    assert_eq!(caps_to_id_flags(0), 0);
    assert_eq!(caps_to_id_flags(CAP_KEY), ID_KEY);
    assert_eq!(caps_to_id_flags(CAP_KEYBOARD | CAP_KEY), ID_KEYBOARD | ID_KEY);
    assert_eq!(caps_to_id_flags(CAP_MOUSE | CAP_MOUSE_ABS), ID_MOUSE | ID_TRACKPAD);
    assert_eq!(caps_to_id_flags(0xff), ID_KEY | ID_KEYBOARD | ID_MOUSE | ID_TRACKPAD);
}

#[test]
fn evdev_codes() {
    assert_eq!(map_evdev_code(30), Some(30));
    assert_eq!(map_evdev_code(255), Some(255));
    assert_eq!(map_evdev_code(0x1d1), Some(183));
    assert_eq!(map_evdev_code(0x110), Some(249));
    assert_eq!(map_evdev_code(0x21c), Some(222));
    assert_eq!(map_evdev_code(0x300), None);
    assert_eq!(map_evdev_code(0x94), Some(191));
    assert_eq!(map_evdev_code(0x95), Some(192));
    assert_eq!(map_evdev_code(0x96), Some(193));
    assert_eq!(map_evdev_code(0x97), Some(194));
    assert_eq!(map_evdev_code(0xca), Some(191));
    assert_eq!(map_evdev_code(0xac), Some(156));
}

#[test]
fn raw_events_decode() {
    let e = decode_event(1, 30, 1).unwrap();
    assert_eq!(e.event_type, DeviceEventType::Key);
    assert_eq!(e.code, 30);
    assert_eq!(e.pressed, 1);
    assert_eq!(decode_event(1, 30, 0).unwrap().pressed, 0);
    assert!(decode_event(1, 30, 2).is_none());
    assert!(decode_event(2, 0, 5).is_none());
    assert_eq!(decode_event(1, 0x110, 1).unwrap().code, 0x10);
}

#[test]
fn ids_are_hex() {
    assert_eq!(device_id(0x1234, 0xabcd), "1234:abcd");
    assert_eq!(device_id(0x0fac, 0x0001), "0fac:0001");
    assert!(is_virtual_vendor(0x0FAC));
    assert!(!is_virtual_vendor(0x1234));
}

#[test]
fn capabilities_from_keys() {
    let kb: Vec<u16> = vec![2, 3, 4, 5, 6, 7, 8, 9, 10, 11, 16, 17, 18, 19, 20, 21, 30];
    assert_eq!(device_capabilities(&kb, 0, 0), CAP_KEY | CAP_KEYBOARD);
    let media: Vec<u16> = vec![115];
    assert_eq!(device_capabilities(&media, 0, 0), CAP_KEY | CAP_KEYBOARD);
    let few: Vec<u16> = vec![2, 3];
    assert_eq!(device_capabilities(&few, 0, 0), CAP_KEY);
    let none: Vec<u16> = vec![];
    assert_eq!(device_capabilities(&none, 2, 0), CAP_MOUSE);
    assert_eq!(device_capabilities(&none, 0, 2), CAP_MOUSE | CAP_MOUSE_ABS);
    assert_eq!(device_capabilities(&none, 0, 0), 0);
}

#[test]
fn uid_hash() {
    let mut h: u32 = 5183;
    for b in [0u32, 0, 0, 3, 8] {
        h = h.wrapping_mul(33).wrapping_add(b);
    }
    for b in "kb".bytes() {
        h = h.wrapping_mul(33).wrapping_add(b as u32);
    }
    assert_eq!(generate_uid(3, 8, "kb"), h);
    assert_ne!(generate_uid(3, 8, "kb"), generate_uid(4, 8, "kb"));
}

#[test]
fn describe_scanned_device() {
    let keys: Vec<u16> = vec![30, 31];
    let info = describe_device("/dev/input/event3".to_string(), "kb".to_string(), 0x1234, 0x5678, &keys, 0, 0).unwrap();
    assert_eq!(info.capabilities, CAP_KEY);
    let uid = generate_uid(2, CAP_KEY as u32, "kb");
    assert_eq!(info.id, format!("1234:5678:{:08x}", uid));
    assert_eq!(info.path, "/dev/input/event3");
    assert!(!info.is_virtual);
    let none: Vec<u16> = vec![];
    assert!(describe_device("p".to_string(), "n".to_string(), 1, 2, &none, 0, 0).is_none());
}

fn kbd(conf: &str) -> Keyboard {
    let mut cfg = Config::new();
    config_parse_string(&mut cfg, conf).unwrap();
    Keyboard::new(cfg)
}

#[test]
fn keyboard_selection() {
    let kbds = vec![
        kbd("[ids]\n*\n\n[main]\n"),
        kbd("[ids]\n1234:5678\n\n[main]\n"),
        kbd("[ids]\n1234:5678\n\n[main]\n"),
    ];
    assert_eq!(select_keyboard(&kbds, "1234:5678", CAP_KEY | CAP_KEYBOARD, false), Some(1));
    assert_eq!(select_keyboard(&kbds, "1111:2222", CAP_KEY | CAP_KEYBOARD, false), Some(0));
    assert_eq!(select_keyboard(&kbds, "1111:2222", CAP_MOUSE, false), None);
    assert_eq!(select_keyboard(&kbds, "1111:2222", CAP_KEYBOARD | CAP_MOUSE_ABS, false), None);
    assert_eq!(select_keyboard(&kbds, "1234:5678", CAP_KEY | CAP_KEYBOARD, true), None);
    let excl = vec![kbd("[ids]\n*\n-1234:5678\n\n[main]\n")];
    assert_eq!(select_keyboard(&excl, "1234:5678", CAP_KEY | CAP_KEYBOARD, false), None);
}
