//! Input devices: what a device can do, its id, the key events it reports,
//! and which keyboard configuration takes it.

use vstd::prelude::*;
use crate::config::{ID_EXCLUDED, ID_KEY, ID_KEYBOARD, ID_MOUSE, ID_TRACKPAD};
use crate::config_impl::{check_match_spec, config_check_match};
use crate::keyboard::Keyboard;
use crate::text::string_from_chars;
use crate::keys::key_entry;

verus! {

/// Capability: relative pointer (mouse).
pub const CAP_MOUSE: u8 = 0x1;
/// Capability: absolute pointer (trackpad).
pub const CAP_MOUSE_ABS: u8 = 0x2;
/// Capability: keyboard.
pub const CAP_KEYBOARD: u8 = 0x4;
/// Capability: has keys.
pub const CAP_KEY: u8 = 0x8;

/// The vendor id of keyd's own virtual devices.
pub const VIRTUAL_VENDOR: u16 = 0x0FAC;

/// The input event type of keys.
pub const EV_KEY: u16 = 0x01;

/// The flags a device id gets in a configuration's `[ids]` section from the
/// device's capabilities: each flag is set exactly when its capability is,
/// and no other flag is.
pub fn caps_to_id_flags(caps: u8) -> (flags: u8)
    ensures
        (flags & ID_KEY != 0) == (caps & CAP_KEY != 0),
        (flags & ID_KEYBOARD != 0) == (caps & CAP_KEYBOARD != 0),
        (flags & ID_TRACKPAD != 0) == (caps & CAP_MOUSE_ABS != 0),
        (flags & ID_MOUSE != 0) == (caps & CAP_MOUSE != 0),
        flags & ID_EXCLUDED == 0,
        flags < 32,
{
    let a: u8 = if caps & CAP_KEY != 0 {
        ID_KEY
    } else {
        0
    };
    let b: u8 = if caps & CAP_KEYBOARD != 0 {
        ID_KEYBOARD
    } else {
        0
    };
    let c: u8 = if caps & CAP_MOUSE_ABS != 0 {
        ID_TRACKPAD
    } else {
        0
    };
    let d: u8 = if caps & CAP_MOUSE != 0 {
        ID_MOUSE
    } else {
        0
    };
    let flags = a | b | c | d;
    assert({
        &&& (flags & 16 != 0) == (a == 16)
        &&& (flags & 4 != 0) == (b == 4)
        &&& (flags & 8 != 0) == (c == 8)
        &&& (flags & 2 != 0) == (d == 2)
        &&& flags & 1 == 0
        &&& flags < 32
    }) by (bit_vector)
        requires
            a == 16 || a == 0,
            b == 4 || b == 0,
            c == 8 || c == 0,
            d == 2 || d == 0,
            flags == a | b | c | d,
    ;
    flags
}

/// The key code the keyboard uses for evdev key code `code`: the programmable
/// keys, the touchpad toggle and the favourites key are mapped to F21-F24 and
/// bookmarks; the other codes below 256 are the same; a few others are
/// mapped; the rest have none.
pub open spec fn evdev_key(code: u16) -> Option<u8> {
    if code == 0x94 || code == 0xca {
        Some(191u8)
    } else if code == 0x95 {
        Some(192u8)
    } else if code == 0x96 {
        Some(193u8)
    } else if code == 0x97 {
        Some(194u8)
    } else if code == 0xac {
        Some(156u8)
    } else if code < 256 {
        Some(code as u8)
    } else {
        match code {
            0x1d1 => Some(183u8),
            0x1d2 => Some(184u8),
            0x1d3 => Some(185u8),
            0x1d4 => Some(186u8),
            0x1d5 => Some(187u8),
            0x1d6 => Some(188u8),
            0x1d7 => Some(189u8),
            0x1d8 => Some(190u8),
            0x1d9 => Some(191u8),
            0x1da => Some(192u8),
            0x1db => Some(193u8),
            0x1dc => Some(194u8),
            0x110 => Some(249u8),
            0x111 => Some(250u8),
            0x112 => Some(251u8),
            0x113 => Some(252u8),
            0x114 => Some(253u8),
            0x115 => Some(178u8),
            0x116 => Some(255u8),
            0x1d0 => Some(254u8),
            0x1a1 => Some(177u8),
            0x21c => Some(222u8),
            _ => None,
        }
    }
}

/// Law: no two evdev codes above the first 256 map to the same key (so
/// distinct mouse buttons give distinct keys).
pub proof fn law_evdev_high_codes_distinct(a: u16, b: u16)
    requires
        256 <= a,
        256 <= b,
        evdev_key(a) is Some,
        evdev_key(a) == evdev_key(b),
    ensures
        a == b,
{
}

/// Law: each mouse button maps to the key named after it.
pub proof fn law_mouse_buttons_named(button: u16)
    requires
        0x110 <= button <= 0x116,
    ensures
        evdev_key(button) matches Some(k) && key_entry(k) matches Some(e) && e.name == if button == 0x110 {
            "leftmouse"@
        } else if button == 0x111 {
            "middlemouse"@
        } else if button == 0x112 {
            "rightmouse"@
        } else if button == 0x113 {
            "mouse1"@
        } else if button == 0x114 {
            "mouse2"@
        } else if button == 0x115 {
            "mouseback"@
        } else {
            "mouseforward"@
        },
{
}

/// Maps an evdev key code to the keyboard's key code (see `evdev_key`).
pub fn map_evdev_code(code: u16) -> (r: Option<u8>)
    ensures
        r == evdev_key(code),
{
    match code {
        0x94 | 0xca => return Some(191),
        0x95 => return Some(192),
        0x96 => return Some(193),
        0x97 => return Some(194),
        0xac => return Some(156),
        _ => {},
    }
    if code < 256 {
        return Some(code as u8);
    }
    match code {
        0x1d1 => Some(183),
        0x1d2 => Some(184),
        0x1d3 => Some(185),
        0x1d4 => Some(186),
        0x1d5 => Some(187),
        0x1d6 => Some(188),
        0x1d7 => Some(189),
        0x1d8 => Some(190),
        0x1d9 => Some(191),
        0x1da => Some(192),
        0x1db => Some(193),
        0x1dc => Some(194),
        0x110 => Some(249),
        0x111 => Some(250),
        0x112 => Some(251),
        0x113 => Some(252),
        0x114 => Some(253),
        0x115 => Some(178),
        0x116 => Some(255),
        0x1d0 => Some(254),
        0x1a1 => Some(177),
        0x21c => Some(222),
        _ => None,
    }
}

#[derive(Clone, Copy, Debug, PartialEq, Eq, Structural)]
pub enum DeviceEventType {
    Key,
    Led,
    MouseMove,
    MouseMoveAbs,
    MouseScroll,
    Removed,
}

/// An event a device reports.
#[derive(Clone, Copy, Debug, PartialEq, Eq, Structural)]
pub struct DeviceEvent {
    pub event_type: DeviceEventType,
    pub code: u8,
    pub pressed: u8,
    pub x: i32,
    pub y: i32,
}

/// The device event of raw input event (`ev_type`, `code`, `value`): a key
/// event (key code and value cut to a byte) for a key going down or up;
/// none for an autorepeat (value 2) or any other type of event.
pub open spec fn decode_spec(ev_type: u16, code: u16, value: i32) -> Option<DeviceEvent> {
    if ev_type == EV_KEY && value != 2 {
        Some(DeviceEvent { event_type: DeviceEventType::Key, code: code as u8, pressed: value as u8, x: 0, y: 0 })
    } else {
        None
    }
}

/// Decodes a raw input event (see `decode_spec`).
pub fn decode_event(ev_type: u16, code: u16, value: i32) -> (r: Option<DeviceEvent>)
    ensures
        r == decode_spec(ev_type, code, value),
{
    if ev_type == EV_KEY {
        if value == 2 {
            return None;
        }
        Some(
            DeviceEvent {
                event_type: DeviceEventType::Key,
                code: code as u8,
                pressed: value as u8,
                x: 0,
                y: 0,
            },
        )
    } else {
        None
    }
}

/// The lowercase hexadecimal digit of `d` (below 16).
pub open spec fn hex_digit(d: nat) -> char {
    if d < 10 {
        seq!['0', '1', '2', '3', '4', '5', '6', '7', '8', '9'][d as int]
    } else {
        seq!['a', 'b', 'c', 'd', 'e', 'f'][d - 10]
    }
}

/// The `n` lowest hexadecimal digits of `v`, most significant first.
pub open spec fn hex(v: nat, n: nat) -> Seq<char>
    decreases n,
{
    if n == 0 {
        Seq::empty()
    } else {
        hex(v / 16, (n - 1) as nat).push(hex_digit(v % 16))
    }
}

fn hex_digit_exec(d: u32) -> (c: char)
    requires
        d < 16,
    ensures
        c == hex_digit(d as nat),
{
    let c = match d {
        0 => '0',
        1 => '1',
        2 => '2',
        3 => '3',
        4 => '4',
        5 => '5',
        6 => '6',
        7 => '7',
        8 => '8',
        9 => '9',
        10 => 'a',
        11 => 'b',
        12 => 'c',
        13 => 'd',
        14 => 'e',
        _ => 'f',
    };
    assert(c == hex_digit(d as nat)) by {
        if d < 10 {
            assert(seq!['0', '1', '2', '3', '4', '5', '6', '7', '8', '9'][d as int] == c);
        } else {
            assert(seq!['a', 'b', 'c', 'd', 'e', 'f'][d - 10] == c);
        }
    }
    c
}

/// Appends the `n` lowest hexadecimal digits of `v` to `out`.
fn push_hex(out: &mut Vec<char>, v: u32, n: u32)
    ensures
        final(out)@ == old(out)@ + hex(v as nat, n as nat),
    decreases n,
{
    if n > 0 {
        push_hex(out, v / 16, n - 1);
        out.push(hex_digit_exec(v % 16));
        assert(hex(v as nat, n as nat) == hex((v / 16) as nat, (n - 1) as nat).push(hex_digit((v % 16) as nat)));
    } else {
        assert(old(out)@ + hex(v as nat, 0) =~= old(out)@);
    }
}

/// The id of a device: its vendor and product, four hexadecimal digits each,
/// joined by a colon.
pub open spec fn device_id_spec(vendor: u16, product: u16) -> Seq<char> {
    hex(vendor as nat, 4) + seq![':'] + hex(product as nat, 4)
}

/// The id of the device with `vendor` and `product` (see `device_id_spec`).
pub fn device_id(vendor: u16, product: u16) -> (s: String)
    ensures
        s@ == device_id_spec(vendor, product),
{
    let mut v: Vec<char> = Vec::new();
    push_hex(&mut v, vendor as u32, 4);
    v.push(':');
    push_hex(&mut v, product as u32, 4);
    assert(v@ =~= device_id_spec(vendor, product));
    string_from_chars(v.as_slice())
}

/// A device is one of keyd's own virtual devices when its vendor is
/// `VIRTUAL_VENDOR`.
pub fn is_virtual_vendor(vendor: u16) -> (r: bool)
    ensures
        r == (vendor == VIRTUAL_VENDOR),
{
    vendor == VIRTUAL_VENDOR
}

/// What a scanned device is: its path, name, id, capabilities, and whether
/// it is one of keyd's own.
#[derive(Clone, Debug)]
pub struct DeviceInfo {
    pub path: String,
    pub name: String,
    pub id: String,
    pub capabilities: u8,
    pub is_virtual: bool,
}

/// The keys that together show a device is a keyboard: 1 to 0, and Q to Y.
pub open spec fn common_keys() -> Seq<u16> {
    seq![2u16, 3, 4, 5, 6, 7, 8, 9, 10, 11, 16, 17, 18, 19, 20, 21]
}

/// Keys any one of which shows a device is a keyboard: brightness up,
/// volume up, touchpad toggle, touchpad off and microphone mute.
pub open spec fn media_keys() -> Seq<u16> {
    seq![225u16, 115, 0x212, 0x214, 248]
}

/// The capabilities of a device with the keys `keys`, `n_rel` relative axes
/// and `n_abs` absolute axes: keys when it has any; a keyboard when it has
/// all the common keys or a media key; a mouse when it has an axis; an
/// absolute pointer when it has an absolute axis.
pub open spec fn capabilities_spec(keys: Seq<u16>, n_rel: nat, n_abs: nat) -> u8 {
    let key = keys.len() > 0;
    let keyboard = (forall|i: int| 0 <= i < common_keys().len() ==> keys.contains(#[trigger] common_keys()[i]))
        || (exists|i: int| 0 <= i < media_keys().len() && keys.contains(#[trigger] media_keys()[i]));
    (if key {
        CAP_KEY
    } else {
        0u8
    }) | (if keyboard {
        CAP_KEYBOARD
    } else {
        0u8
    }) | (if n_rel > 0 || n_abs > 0 {
        CAP_MOUSE
    } else {
        0u8
    }) | (if n_abs > 0 {
        CAP_MOUSE_ABS
    } else {
        0u8
    })
}

fn has_key(keys: &Vec<u16>, k: u16) -> (r: bool)
    ensures
        r == keys@.contains(k),
{
    let mut i: usize = 0;
    while i < keys.len()
        invariant
            i <= keys@.len(),
            forall|j: int| 0 <= j < i ==> keys@[j] != k,
        decreases keys.len() - i,
    {
        if keys[i] == k {
            return true;
        }
        i = i + 1;
    }
    false
}

fn common_keys_exec() -> (v: Vec<u16>)
    ensures
        v@ == common_keys(),
{
    let v = vec![2u16, 3, 4, 5, 6, 7, 8, 9, 10, 11, 16, 17, 18, 19, 20, 21];
    assert(v@ =~= common_keys());
    v
}

fn media_keys_exec() -> (v: Vec<u16>)
    ensures
        v@ == media_keys(),
{
    let v = vec![225u16, 115, 0x212, 0x214, 248];
    assert(v@ =~= media_keys());
    v
}

/// The capabilities of a device (see `capabilities_spec`).
pub fn device_capabilities(keys: &Vec<u16>, n_rel: usize, n_abs: usize) -> (caps: u8)
    ensures
        caps == capabilities_spec(keys@, n_rel as nat, n_abs as nat),
{
    let common = common_keys_exec();
    let mut all_common = true;
    let mut i: usize = 0;
    while i < common.len()
        invariant
            i <= common@.len(),
            common@ == common_keys(),
            all_common == (forall|j: int| 0 <= j < i ==> keys@.contains(#[trigger] common_keys()[j])),
        decreases common.len() - i,
    {
        if !has_key(keys, common[i]) {
            all_common = false;
        }
        i = i + 1;
    }
    let media = media_keys_exec();
    let mut any_media = false;
    let mut j: usize = 0;
    while j < media.len()
        invariant
            j <= media@.len(),
            media@ == media_keys(),
            any_media == (exists|e: int| 0 <= e < j && keys@.contains(#[trigger] media_keys()[e])),
        decreases media.len() - j,
    {
        if has_key(keys, media[j]) {
            any_media = true;
        }
        j = j + 1;
    }
    let key: u8 = if keys.len() > 0 {
        CAP_KEY
    } else {
        0
    };
    let keyboard: u8 = if all_common || any_media {
        CAP_KEYBOARD
    } else {
        0
    };
    let mouse: u8 = if n_rel > 0 || n_abs > 0 {
        CAP_MOUSE
    } else {
        0
    };
    let abs: u8 = if n_abs > 0 {
        CAP_MOUSE_ABS
    } else {
        0
    };
    key | keyboard | mouse | abs
}

/// One step of the device hash: `h * 33 + b`, wrapping.
pub open spec fn hash_step(h: u32, b: u32) -> u32 {
    h.wrapping_mul(33).wrapping_add(b)
}

/// The hash of `bytes` from `h` on.
pub open spec fn hash_bytes(h: u32, bytes: Seq<u8>) -> u32
    decreases bytes.len(),
{
    if bytes.len() == 0 {
        h
    } else {
        hash_step(hash_bytes(h, bytes.drop_last()), bytes.last() as u32)
    }
}

/// The hash that tells apart devices with the same vendor and product: from
/// 5183, the four bytes of the number of keys (highest first, as cut to 32
/// bits), the capabilities, then the bytes of the name.
pub open spec fn uid_spec(num_keys: usize, capabilities: u32, name: Seq<u8>) -> u32 {
    let h = hash_step(5183, (num_keys >> 24) as u32);
    let h = hash_step(h, (num_keys >> 16) as u32);
    let h = hash_step(h, (num_keys >> 8) as u32);
    let h = hash_step(h, num_keys as u32);
    let h = hash_step(h, capabilities);
    hash_bytes(h, name)
}

/// The device hash (see `uid_spec`).
pub fn generate_uid(num_keys: usize, capabilities: u32, name: &str) -> (hash: u32)
    ensures
        hash == uid_spec(num_keys, capabilities, vstd::utf8::encode_utf8(name@)),
{
    let mut hash: u32 = 5183;
    hash = hash.wrapping_mul(33).wrapping_add((num_keys >> 24) as u32);
    hash = hash.wrapping_mul(33).wrapping_add((num_keys >> 16) as u32);
    hash = hash.wrapping_mul(33).wrapping_add((num_keys >> 8) as u32);
    hash = hash.wrapping_mul(33).wrapping_add(num_keys as u32);
    hash = hash.wrapping_mul(33).wrapping_add(capabilities);
    let ghost h0 = hash;
    let bytes = name.as_bytes();
    let mut i: usize = 0;
    while i < bytes.len()
        invariant
            i <= bytes@.len(),
            bytes@ == vstd::utf8::encode_utf8(name@),
            hash == hash_bytes(h0, bytes@.take(i as int)),
            h0 == uid_spec(num_keys, capabilities, Seq::empty()),
        decreases bytes.len() - i,
    {
        assert(bytes@.take(i + 1).drop_last() =~= bytes@.take(i as int));
        hash = hash.wrapping_mul(33).wrapping_add(bytes[i] as u32);
        i = i + 1;
    }
    assert(bytes@.take(bytes@.len() as int) =~= bytes@);
    hash
}

/// The id of a scanned device: vendor, product and the device hash, in
/// hexadecimal, joined by colons.
pub open spec fn scanned_id_spec(vendor: u16, product: u16, uid: u32) -> Seq<char> {
    device_id_spec(vendor, product) + seq![':'] + hex(uid as nat, 8)
}

/// What a scanned device is, from what it reports: `None` when it has no
/// capability at all; otherwise its capabilities (see `capabilities_spec`),
/// its id (see `scanned_id_spec`, hashed over the number of keys, the
/// capabilities and the name) and whether its vendor is keyd's own.
pub fn describe_device(path: String, name: String, vendor: u16, product: u16, keys: &Vec<u16>, n_rel: usize, n_abs: usize) -> (r: Option<DeviceInfo>)
    ensures
        match r {
            Some(info) => {
                let caps = capabilities_spec(keys@, n_rel as nat, n_abs as nat);
                &&& caps != 0
                &&& info.path@ == path@
                &&& info.name@ == name@
                &&& info.capabilities == caps
                &&& info.id@ == scanned_id_spec(
                    vendor,
                    product,
                    uid_spec(keys@.len() as usize, caps as u32, vstd::utf8::encode_utf8(name@)),
                )
                &&& info.is_virtual == (vendor == VIRTUAL_VENDOR)
            },
            None => capabilities_spec(keys@, n_rel as nat, n_abs as nat) == 0,
        },
{
    let caps = device_capabilities(keys, n_rel, n_abs);
    if caps == 0 {
        return None;
    }
    let uid = generate_uid(keys.len(), caps as u32, name.as_str());
    let mut v: Vec<char> = Vec::new();
    push_hex(&mut v, vendor as u32, 4);
    v.push(':');
    push_hex(&mut v, product as u32, 4);
    v.push(':');
    push_hex(&mut v, uid, 8);
    assert(v@ =~= scanned_id_spec(vendor, product, uid));
    let id = string_from_chars(v.as_slice());
    Some(DeviceInfo { path, name, id, capabilities: caps, is_virtual: vendor == VIRTUAL_VENDOR })
}

/// How well keyboard `k`'s configuration matches device `id`.
pub open spec fn kbd_rank(k: Keyboard, id: Seq<char>) -> i32 {
    check_match_spec(k.config_view(), id)
}

/// The keyboard that takes a device: none for one of keyd's own devices;
/// otherwise the first keyboard whose configuration matches the device best,
/// when one matches at all, but a match by wildcard only takes a keyboard
/// that is not a trackpad.
pub fn select_keyboard(keyboards: &[Keyboard], id: &str, caps: u8, is_virtual: bool) -> (r: Option<usize>)
    ensures
        match r {
            Some(i) => {
                &&& !is_virtual
                &&& i < keyboards@.len()
                &&& kbd_rank(keyboards@[i as int], id@) > 0
                &&& forall|j: int| 0 <= j < keyboards@.len() ==> kbd_rank(#[trigger] keyboards@[j], id@) <= kbd_rank(keyboards@[i as int], id@)
                &&& forall|j: int| 0 <= j < i ==> kbd_rank(#[trigger] keyboards@[j], id@) < kbd_rank(keyboards@[i as int], id@)
                &&& kbd_rank(keyboards@[i as int], id@) == 1 ==> caps & CAP_KEYBOARD != 0 && caps & CAP_MOUSE_ABS == 0
            },
            None => is_virtual || (forall|j: int| 0 <= j < keyboards@.len() ==> kbd_rank(#[trigger] keyboards@[j], id@) <= 0) || (
            (forall|j: int| 0 <= j < keyboards@.len() ==> kbd_rank(#[trigger] keyboards@[j], id@) <= 1) && !(caps
                & CAP_KEYBOARD != 0 && caps & CAP_MOUSE_ABS == 0)),
        },
{
    if is_virtual {
        return None;
    }
    let flags = caps_to_id_flags(caps);
    let mut best_idx: Option<usize> = None;
    let mut best_rank: i32 = 0;
    let mut i: usize = 0;
    while i < keyboards.len()
        invariant
            i <= keyboards@.len(),
            0 <= best_rank,
            match best_idx {
                Some(b) => b < i && best_rank == kbd_rank(keyboards@[b as int], id@) && best_rank > 0 && forall|j: int|
                    0 <= j < b ==> kbd_rank(#[trigger] keyboards@[j], id@) < best_rank,
                None => best_rank == 0,
            },
            forall|j: int| 0 <= j < i ==> kbd_rank(#[trigger] keyboards@[j], id@) <= best_rank,
        decreases keyboards.len() - i,
    {
        let r = config_check_match(keyboards[i].config(), id, flags);
        if r > best_rank {
            best_rank = r;
            best_idx = Some(i);
        }
        i = i + 1;
    }
    if best_rank == 1 && !((flags & ID_KEYBOARD != 0) && (flags & ID_TRACKPAD == 0)) {
        best_idx = None;
    }
    best_idx
}

} // verus!
