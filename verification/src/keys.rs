//! Key codes, their names, and the parsing of key sequences such as `C-a`.

use vstd::prelude::*;
use crate::text::{chars_eq_str, split_chars, split_seq, views_of, lemma_split_nonempty, lemma_split_join, lemma_split_none};

verus! {

pub const KEYD_ESC: u8 = 1;
pub const KEYD_BACKSPACE: u8 = 14;
pub const KEYD_TAB: u8 = 15;
pub const KEYD_Q: u8 = 16;
pub const KEYD_W: u8 = 17;
pub const KEYD_E: u8 = 18;
pub const KEYD_R: u8 = 19;
pub const KEYD_T: u8 = 20;
pub const KEYD_Y: u8 = 21;
pub const KEYD_U: u8 = 22;
pub const KEYD_I: u8 = 23;
pub const KEYD_O: u8 = 24;
pub const KEYD_P: u8 = 25;
pub const KEYD_ENTER: u8 = 28;
pub const KEYD_LEFTCONTROL: u8 = 29;
pub const KEYD_LEFTCTRL: u8 = 29;
pub const KEYD_A: u8 = 30;
pub const KEYD_S: u8 = 31;
pub const KEYD_D: u8 = 32;
pub const KEYD_F: u8 = 33;
pub const KEYD_G: u8 = 34;
pub const KEYD_H: u8 = 35;
pub const KEYD_J: u8 = 36;
pub const KEYD_K: u8 = 37;
pub const KEYD_L: u8 = 38;
pub const KEYD_LEFTSHIFT: u8 = 42;
pub const KEYD_Z: u8 = 44;
pub const KEYD_X: u8 = 45;
pub const KEYD_C: u8 = 46;
pub const KEYD_V: u8 = 47;
pub const KEYD_B: u8 = 48;
pub const KEYD_N: u8 = 49;
pub const KEYD_M: u8 = 50;
pub const KEYD_RIGHTSHIFT: u8 = 54;
pub const KEYD_KPASTERISK: u8 = 55;
pub const KEYD_LEFTALT: u8 = 56;
pub const KEYD_SPACE: u8 = 57;
pub const KEYD_CAPSLOCK: u8 = 58;
pub const KEYD_F1: u8 = 59;
pub const KEYD_F2: u8 = 60;
pub const KEYD_F3: u8 = 61;
pub const KEYD_F4: u8 = 62;
pub const KEYD_F5: u8 = 63;
pub const KEYD_F6: u8 = 64;
pub const KEYD_F7: u8 = 65;
pub const KEYD_F8: u8 = 66;
pub const KEYD_F9: u8 = 67;
pub const KEYD_F10: u8 = 68;
pub const KEYD_NUMLOCK: u8 = 69;
pub const KEYD_SCROLLLOCK: u8 = 70;
pub const KEYD_KP7: u8 = 71;
pub const KEYD_KP8: u8 = 72;
pub const KEYD_KP9: u8 = 73;
pub const KEYD_KPMINUS: u8 = 74;
pub const KEYD_KP4: u8 = 75;
pub const KEYD_KP5: u8 = 76;
pub const KEYD_KP6: u8 = 77;
pub const KEYD_KPPLUS: u8 = 78;
pub const KEYD_KP1: u8 = 79;
pub const KEYD_KP2: u8 = 80;
pub const KEYD_KP3: u8 = 81;
pub const KEYD_KP0: u8 = 82;
pub const KEYD_KPDOT: u8 = 83;
pub const KEYD_ZENKAKUHANKAKU: u8 = 85;
pub const KEYD_F11: u8 = 87;
pub const KEYD_F12: u8 = 88;
pub const KEYD_RO: u8 = 89;
pub const KEYD_KATAKANA: u8 = 90;
pub const KEYD_HIRAGANA: u8 = 91;
pub const KEYD_HENKAN: u8 = 92;
pub const KEYD_KATAKANAHIRAGANA: u8 = 93;
pub const KEYD_MUHENKAN: u8 = 94;
pub const KEYD_KPJPCOMMA: u8 = 95;
pub const KEYD_KPENTER: u8 = 96;
pub const KEYD_RIGHTCONTROL: u8 = 97;
pub const KEYD_RIGHTCTRL: u8 = 97;
pub const KEYD_KPSLASH: u8 = 98;
pub const KEYD_SYSRQ: u8 = 99;
pub const KEYD_RIGHTALT: u8 = 100;
pub const KEYD_LINEFEED: u8 = 101;
pub const KEYD_HOME: u8 = 102;
pub const KEYD_UP: u8 = 103;
pub const KEYD_PAGEUP: u8 = 104;
pub const KEYD_LEFT: u8 = 105;
pub const KEYD_RIGHT: u8 = 106;
pub const KEYD_END: u8 = 107;
pub const KEYD_DOWN: u8 = 108;
pub const KEYD_PAGEDOWN: u8 = 109;
pub const KEYD_INSERT: u8 = 110;
pub const KEYD_DELETE: u8 = 111;
pub const KEYD_MACRO: u8 = 112;
pub const KEYD_MUTE: u8 = 113;
pub const KEYD_VOLUMEDOWN: u8 = 114;
pub const KEYD_VOLUMEUP: u8 = 115;
pub const KEYD_POWER: u8 = 116;
pub const KEYD_KPEQUAL: u8 = 117;
pub const KEYD_KPPLUSMINUS: u8 = 118;
pub const KEYD_PAUSE: u8 = 119;
pub const KEYD_SCALE: u8 = 120;
pub const KEYD_KPCOMMA: u8 = 121;
pub const KEYD_HANGEUL: u8 = 122;
pub const KEYD_HANJA: u8 = 123;
pub const KEYD_YEN: u8 = 124;
pub const KEYD_LEFTMETA: u8 = 125;
pub const KEYD_RIGHTMETA: u8 = 126;
pub const KEYD_COMPOSE: u8 = 127;
pub const KEYD_STOP: u8 = 128;
pub const KEYD_AGAIN: u8 = 129;
pub const KEYD_PROPS: u8 = 130;
pub const KEYD_UNDO: u8 = 131;
pub const KEYD_FRONT: u8 = 132;
pub const KEYD_COPY: u8 = 133;
pub const KEYD_OPEN: u8 = 134;
pub const KEYD_PASTE: u8 = 135;
pub const KEYD_FIND: u8 = 136;
pub const KEYD_CUT: u8 = 137;
pub const KEYD_HELP: u8 = 138;
pub const KEYD_MENU: u8 = 139;
pub const KEYD_CALC: u8 = 140;
pub const KEYD_SETUP: u8 = 141;
pub const KEYD_SLEEP: u8 = 142;
pub const KEYD_WAKEUP: u8 = 143;
pub const KEYD_FILE: u8 = 144;
pub const KEYD_SENDFILE: u8 = 145;
pub const KEYD_DELETEFILE: u8 = 146;
pub const KEYD_XFER: u8 = 147;
pub const KEYD_SCROLLDOWN: u8 = 148;
pub const KEYD_SCROLLUP: u8 = 149;
pub const KEYD_WWW: u8 = 150;
pub const KEYD_MSDOS: u8 = 151;
pub const KEYD_COFFEE: u8 = 152;
pub const KEYD_DISPLAY: u8 = 153;
pub const KEYD_CYCLEWINDOWS: u8 = 154;
pub const KEYD_MAIL: u8 = 155;
pub const KEYD_FAVORITES: u8 = 156;
pub const KEYD_COMPUTER: u8 = 157;
pub const KEYD_BACK: u8 = 158;
pub const KEYD_FORWARD: u8 = 159;
pub const KEYD_CLOSECD: u8 = 160;
pub const KEYD_EJECTCD: u8 = 161;
pub const KEYD_EJECTCLOSECD: u8 = 162;
pub const KEYD_NEXTSONG: u8 = 163;
pub const KEYD_PLAYPAUSE: u8 = 164;
pub const KEYD_PREVIOUSSONG: u8 = 165;
pub const KEYD_STOPCD: u8 = 166;
pub const KEYD_RECORD: u8 = 167;
pub const KEYD_REWIND: u8 = 168;
pub const KEYD_PHONE: u8 = 169;
pub const KEYD_ISO: u8 = 170;
pub const KEYD_CONFIG: u8 = 171;
pub const KEYD_HOMEPAGE: u8 = 172;
pub const KEYD_REFRESH: u8 = 173;
pub const KEYD_EXIT: u8 = 174;
pub const KEYD_MOVE: u8 = 175;
pub const KEYD_EDIT: u8 = 176;
pub const KEYD_ZOOM: u8 = 177;
pub const KEYD_MOUSEBACK: u8 = 178;
pub const KEYD_MOUSE_BACK: u8 = 178;
pub const KEYD_KPLEFTPAREN: u8 = 179;
pub const KEYD_KPRIGHTPAREN: u8 = 180;
pub const KEYD_NEW: u8 = 181;
pub const KEYD_REDO: u8 = 182;
pub const KEYD_F13: u8 = 183;
pub const KEYD_F14: u8 = 184;
pub const KEYD_F15: u8 = 185;
pub const KEYD_F16: u8 = 186;
pub const KEYD_F17: u8 = 187;
pub const KEYD_F18: u8 = 188;
pub const KEYD_F19: u8 = 189;
pub const KEYD_F20: u8 = 190;
pub const KEYD_F21: u8 = 191;
pub const KEYD_F22: u8 = 192;
pub const KEYD_F23: u8 = 193;
pub const KEYD_F24: u8 = 194;
pub const KEYD_NOOP: u8 = 195;
pub const KEYD_EXTERNAL_MOUSE_BUTTON: u8 = 196;
pub const KEYD_PLAYCD: u8 = 200;
pub const KEYD_PAUSECD: u8 = 201;
pub const KEYD_SCROLLRIGHT: u8 = 202;
pub const KEYD_SCROLLLEFT: u8 = 203;
pub const KEYD_DASHBOARD: u8 = 204;
pub const KEYD_SUSPEND: u8 = 205;
pub const KEYD_CLOSE: u8 = 206;
pub const KEYD_PLAY: u8 = 207;
pub const KEYD_FASTFORWARD: u8 = 208;
pub const KEYD_BASSBOOST: u8 = 209;
pub const KEYD_PRINT: u8 = 210;
pub const KEYD_HP: u8 = 211;
pub const KEYD_CAMERA: u8 = 212;
pub const KEYD_SOUND: u8 = 213;
pub const KEYD_QUESTION: u8 = 214;
pub const KEYD_EMAIL: u8 = 215;
pub const KEYD_CHAT: u8 = 216;
pub const KEYD_SEARCH: u8 = 217;
pub const KEYD_CONNECT: u8 = 218;
pub const KEYD_FINANCE: u8 = 219;
pub const KEYD_SPORT: u8 = 220;
pub const KEYD_SHOP: u8 = 221;
pub const KEYD_VOICECOMMAND: u8 = 222;
pub const KEYD_CANCEL: u8 = 223;
pub const KEYD_BRIGHTNESSDOWN: u8 = 224;
pub const KEYD_BRIGHTNESSUP: u8 = 225;
pub const KEYD_MEDIA: u8 = 226;
pub const KEYD_SWITCHVIDEOMODE: u8 = 227;
pub const KEYD_KBDILLUMTOGGLE: u8 = 228;
pub const KEYD_KBDILLUMDOWN: u8 = 229;
pub const KEYD_KBDILLUMUP: u8 = 230;
pub const KEYD_SEND: u8 = 231;
pub const KEYD_REPLY: u8 = 232;
pub const KEYD_FORWARDMAIL: u8 = 233;
pub const KEYD_SAVE: u8 = 234;
pub const KEYD_DOCUMENTS: u8 = 235;
pub const KEYD_BATTERY: u8 = 236;
pub const KEYD_BLUETOOTH: u8 = 237;
pub const KEYD_WLAN: u8 = 238;
pub const KEYD_UWB: u8 = 239;
pub const KEYD_UNKNOWN: u8 = 240;
pub const KEYD_NEXT: u8 = 241;
pub const KEYD_PREV: u8 = 242;
pub const KEYD_CYCLE: u8 = 243;
pub const KEYD_AUTO: u8 = 244;
pub const KEYD_OFF: u8 = 245;
pub const KEYD_WWAN: u8 = 246;
pub const KEYD_RFKILL: u8 = 247;
pub const KEYD_MICMUTE: u8 = 248;
pub const KEYD_LEFTMOUSE: u8 = 249;
pub const KEYD_LEFT_MOUSE: u8 = 249;
pub const KEYD_MIDDLEMOUSE: u8 = 250;
pub const KEYD_MIDDLE_MOUSE: u8 = 250;
pub const KEYD_RIGHTMOUSE: u8 = 251;
pub const KEYD_RIGHT_MOUSE: u8 = 251;
pub const KEYD_MOUSE1: u8 = 252;
pub const KEYD_MOUSE_1: u8 = 252;
pub const KEYD_MOUSE2: u8 = 253;
pub const KEYD_MOUSE_2: u8 = 253;
pub const KEYD_FN: u8 = 254;
pub const KEYD_MOUSEFORWARD: u8 = 255;
pub const KEYD_MOUSE_FORWARD: u8 = 255;

/// Modifier bit for Alt.
pub const MOD_ALT: u8 = 0x01;
/// Modifier bit for Super (Meta).
pub const MOD_SUPER: u8 = 0x02;
/// Modifier bit for Shift.
pub const MOD_SHIFT: u8 = 0x04;
/// Modifier bit for Control.
pub const MOD_CTRL: u8 = 0x08;
/// Modifier bit for AltGr.
pub const MOD_ALT_GR: u8 = 0x10;

/// A modifier bit and the key that produces it.
#[derive(Clone, Copy, Debug, PartialEq, Eq, Structural)]
pub struct Modifier {
    pub mask: u8,
    pub key: u8,
}

/// The modifiers in the order in which they are pressed and released:
/// Alt, AltGr, Shift, Super, Control.
pub open spec fn modifier_spec(i: int) -> Modifier {
    if i == 0 {
        Modifier { mask: MOD_ALT, key: KEYD_LEFTALT }
    } else if i == 1 {
        Modifier { mask: MOD_ALT_GR, key: KEYD_RIGHTALT }
    } else if i == 2 {
        Modifier { mask: MOD_SHIFT, key: KEYD_LEFTSHIFT }
    } else if i == 3 {
        Modifier { mask: MOD_SUPER, key: KEYD_LEFTMETA }
    } else {
        Modifier { mask: MOD_CTRL, key: KEYD_LEFTCTRL }
    }
}

/// Number of modifiers.
pub const NR_MODIFIERS: usize = 5;

/// The `i`-th modifier of `modifier_spec`.
pub fn modifier(i: usize) -> (m: Modifier)
    requires
        i < NR_MODIFIERS,
    ensures
        m == modifier_spec(i as int),
{
    if i == 0 {
        Modifier { mask: MOD_ALT, key: KEYD_LEFTALT }
    } else if i == 1 {
        Modifier { mask: MOD_ALT_GR, key: KEYD_RIGHTALT }
    } else if i == 2 {
        Modifier { mask: MOD_SHIFT, key: KEYD_LEFTSHIFT }
    } else if i == 3 {
        Modifier { mask: MOD_SUPER, key: KEYD_LEFTMETA }
    } else {
        Modifier { mask: MOD_CTRL, key: KEYD_LEFTCTRL }
    }
}

/// The names of a key: its name, an alternative name, and the name of the
/// character it gives with Shift held.
#[derive(Clone, Copy, Debug)]
pub struct KeyCodeTableEnt {
    pub name: &'static str,
    pub alt_name: Option<&'static str>,
    pub shifted_name: Option<&'static str>,
}

/// The names of a key as character sequences.
pub struct KeyNames {
    pub name: Seq<char>,
    pub alt_name: Option<Seq<char>>,
    pub shifted_name: Option<Seq<char>>,
}

pub open spec fn opt_str_view(o: Option<&'static str>) -> Option<Seq<char>> {
    match o {
        Some(s) => Some(s@),
        None => None,
    }
}

impl View for KeyCodeTableEnt {
    type V = KeyNames;

    open spec fn view(&self) -> KeyNames {
        KeyNames {
            name: self.name@,
            alt_name: opt_str_view(self.alt_name),
            shifted_name: opt_str_view(self.shifted_name),
        }
    }
}

/// The names of key `code`, or `None` for codes without a key.
pub open spec fn key_entry(code: u8) -> Option<KeyNames> {
    match code {
        1 => Some(KeyNames { name: "esc"@, alt_name: Some("escape"@), shifted_name: None }),
        2 => Some(KeyNames { name: "1"@, alt_name: None, shifted_name: Some("!"@) }),
        3 => Some(KeyNames { name: "2"@, alt_name: None, shifted_name: Some("@"@) }),
        4 => Some(KeyNames { name: "3"@, alt_name: None, shifted_name: Some("#"@) }),
        5 => Some(KeyNames { name: "4"@, alt_name: None, shifted_name: Some("$"@) }),
        6 => Some(KeyNames { name: "5"@, alt_name: None, shifted_name: Some("%"@) }),
        7 => Some(KeyNames { name: "6"@, alt_name: None, shifted_name: Some("^"@) }),
        8 => Some(KeyNames { name: "7"@, alt_name: None, shifted_name: Some("&"@) }),
        9 => Some(KeyNames { name: "8"@, alt_name: None, shifted_name: Some("*"@) }),
        10 => Some(KeyNames { name: "9"@, alt_name: None, shifted_name: Some("("@) }),
        11 => Some(KeyNames { name: "0"@, alt_name: None, shifted_name: Some(")"@) }),
        12 => Some(KeyNames { name: "-"@, alt_name: Some("minus"@), shifted_name: Some("_"@) }),
        13 => Some(KeyNames { name: "="@, alt_name: Some("equal"@), shifted_name: Some("+"@) }),
        14 => Some(KeyNames { name: "backspace"@, alt_name: None, shifted_name: None }),
        15 => Some(KeyNames { name: "tab"@, alt_name: None, shifted_name: None }),
        16 => Some(KeyNames { name: "q"@, alt_name: None, shifted_name: Some("Q"@) }),
        17 => Some(KeyNames { name: "w"@, alt_name: None, shifted_name: Some("W"@) }),
        18 => Some(KeyNames { name: "e"@, alt_name: None, shifted_name: Some("E"@) }),
        19 => Some(KeyNames { name: "r"@, alt_name: None, shifted_name: Some("R"@) }),
        20 => Some(KeyNames { name: "t"@, alt_name: None, shifted_name: Some("T"@) }),
        21 => Some(KeyNames { name: "y"@, alt_name: None, shifted_name: Some("Y"@) }),
        22 => Some(KeyNames { name: "u"@, alt_name: None, shifted_name: Some("U"@) }),
        23 => Some(KeyNames { name: "i"@, alt_name: None, shifted_name: Some("I"@) }),
        24 => Some(KeyNames { name: "o"@, alt_name: None, shifted_name: Some("O"@) }),
        25 => Some(KeyNames { name: "p"@, alt_name: None, shifted_name: Some("P"@) }),
        26 => Some(KeyNames { name: "["@, alt_name: Some("leftbrace"@), shifted_name: Some("{"@) }),
        27 => Some(KeyNames { name: "]"@, alt_name: Some("rightbrace"@), shifted_name: Some("}"@) }),
        28 => Some(KeyNames { name: "enter"@, alt_name: None, shifted_name: None }),
        29 => Some(KeyNames { name: "leftcontrol"@, alt_name: Some(""@), shifted_name: None }),
        30 => Some(KeyNames { name: "a"@, alt_name: None, shifted_name: Some("A"@) }),
        31 => Some(KeyNames { name: "s"@, alt_name: None, shifted_name: Some("S"@) }),
        32 => Some(KeyNames { name: "d"@, alt_name: None, shifted_name: Some("D"@) }),
        33 => Some(KeyNames { name: "f"@, alt_name: None, shifted_name: Some("F"@) }),
        34 => Some(KeyNames { name: "g"@, alt_name: None, shifted_name: Some("G"@) }),
        35 => Some(KeyNames { name: "h"@, alt_name: None, shifted_name: Some("H"@) }),
        36 => Some(KeyNames { name: "j"@, alt_name: None, shifted_name: Some("J"@) }),
        37 => Some(KeyNames { name: "k"@, alt_name: None, shifted_name: Some("K"@) }),
        38 => Some(KeyNames { name: "l"@, alt_name: None, shifted_name: Some("L"@) }),
        39 => Some(KeyNames { name: ";"@, alt_name: Some("semicolon"@), shifted_name: Some(":"@) }),
        40 => Some(KeyNames { name: "'"@, alt_name: Some("apostrophe"@), shifted_name: Some("\""@) }),
        41 => Some(KeyNames { name: "`"@, alt_name: Some("grave"@), shifted_name: Some("~"@) }),
        42 => Some(KeyNames { name: "leftshift"@, alt_name: Some(""@), shifted_name: None }),
        43 => Some(KeyNames { name: "\\"@, alt_name: Some("backslash"@), shifted_name: Some("|"@) }),
        44 => Some(KeyNames { name: "z"@, alt_name: None, shifted_name: Some("Z"@) }),
        45 => Some(KeyNames { name: "x"@, alt_name: None, shifted_name: Some("X"@) }),
        46 => Some(KeyNames { name: "c"@, alt_name: None, shifted_name: Some("C"@) }),
        47 => Some(KeyNames { name: "v"@, alt_name: None, shifted_name: Some("V"@) }),
        48 => Some(KeyNames { name: "b"@, alt_name: None, shifted_name: Some("B"@) }),
        49 => Some(KeyNames { name: "n"@, alt_name: None, shifted_name: Some("N"@) }),
        50 => Some(KeyNames { name: "m"@, alt_name: None, shifted_name: Some("M"@) }),
        51 => Some(KeyNames { name: ","@, alt_name: Some("comma"@), shifted_name: Some("<"@) }),
        52 => Some(KeyNames { name: "."@, alt_name: Some("dot"@), shifted_name: Some(">"@) }),
        53 => Some(KeyNames { name: "/"@, alt_name: Some("slash"@), shifted_name: Some("?"@) }),
        54 => Some(KeyNames { name: "rightshift"@, alt_name: None, shifted_name: None }),
        55 => Some(KeyNames { name: "kpasterisk"@, alt_name: None, shifted_name: None }),
        56 => Some(KeyNames { name: "leftalt"@, alt_name: Some(""@), shifted_name: None }),
        57 => Some(KeyNames { name: "space"@, alt_name: None, shifted_name: None }),
        58 => Some(KeyNames { name: "capslock"@, alt_name: None, shifted_name: None }),
        59 => Some(KeyNames { name: "f1"@, alt_name: None, shifted_name: None }),
        60 => Some(KeyNames { name: "f2"@, alt_name: None, shifted_name: None }),
        61 => Some(KeyNames { name: "f3"@, alt_name: None, shifted_name: None }),
        62 => Some(KeyNames { name: "f4"@, alt_name: None, shifted_name: None }),
        63 => Some(KeyNames { name: "f5"@, alt_name: None, shifted_name: None }),
        64 => Some(KeyNames { name: "f6"@, alt_name: None, shifted_name: None }),
        65 => Some(KeyNames { name: "f7"@, alt_name: None, shifted_name: None }),
        66 => Some(KeyNames { name: "f8"@, alt_name: None, shifted_name: None }),
        67 => Some(KeyNames { name: "f9"@, alt_name: None, shifted_name: None }),
        68 => Some(KeyNames { name: "f10"@, alt_name: None, shifted_name: None }),
        69 => Some(KeyNames { name: "numlock"@, alt_name: None, shifted_name: None }),
        70 => Some(KeyNames { name: "scrolllock"@, alt_name: None, shifted_name: None }),
        71 => Some(KeyNames { name: "kp7"@, alt_name: None, shifted_name: None }),
        72 => Some(KeyNames { name: "kp8"@, alt_name: None, shifted_name: None }),
        73 => Some(KeyNames { name: "kp9"@, alt_name: None, shifted_name: None }),
        74 => Some(KeyNames { name: "kpminus"@, alt_name: None, shifted_name: None }),
        75 => Some(KeyNames { name: "kp4"@, alt_name: None, shifted_name: None }),
        76 => Some(KeyNames { name: "kp5"@, alt_name: None, shifted_name: None }),
        77 => Some(KeyNames { name: "kp6"@, alt_name: None, shifted_name: None }),
        78 => Some(KeyNames { name: "kpplus"@, alt_name: None, shifted_name: None }),
        79 => Some(KeyNames { name: "kp1"@, alt_name: None, shifted_name: None }),
        80 => Some(KeyNames { name: "kp2"@, alt_name: None, shifted_name: None }),
        81 => Some(KeyNames { name: "kp3"@, alt_name: None, shifted_name: None }),
        82 => Some(KeyNames { name: "kp0"@, alt_name: None, shifted_name: None }),
        83 => Some(KeyNames { name: "kpdot"@, alt_name: None, shifted_name: None }),
        84 => Some(KeyNames { name: "iso-level3-shift"@, alt_name: None, shifted_name: None }),
        85 => Some(KeyNames { name: "zenkakuhankaku"@, alt_name: None, shifted_name: None }),
        86 => Some(KeyNames { name: "102nd"@, alt_name: None, shifted_name: None }),
        87 => Some(KeyNames { name: "f11"@, alt_name: None, shifted_name: None }),
        88 => Some(KeyNames { name: "f12"@, alt_name: None, shifted_name: None }),
        89 => Some(KeyNames { name: "ro"@, alt_name: None, shifted_name: None }),
        90 => Some(KeyNames { name: "katakana"@, alt_name: None, shifted_name: None }),
        91 => Some(KeyNames { name: "hiragana"@, alt_name: None, shifted_name: None }),
        92 => Some(KeyNames { name: "henkan"@, alt_name: None, shifted_name: None }),
        93 => Some(KeyNames { name: "katakanahiragana"@, alt_name: None, shifted_name: None }),
        94 => Some(KeyNames { name: "muhenkan"@, alt_name: None, shifted_name: None }),
        95 => Some(KeyNames { name: "kpjpcomma"@, alt_name: None, shifted_name: None }),
        96 => Some(KeyNames { name: "kpenter"@, alt_name: None, shifted_name: None }),
        97 => Some(KeyNames { name: "rightcontrol"@, alt_name: None, shifted_name: None }),
        98 => Some(KeyNames { name: "kpslash"@, alt_name: None, shifted_name: None }),
        99 => Some(KeyNames { name: "sysrq"@, alt_name: None, shifted_name: None }),
        100 => Some(KeyNames { name: "rightalt"@, alt_name: None, shifted_name: None }),
        101 => Some(KeyNames { name: "linefeed"@, alt_name: None, shifted_name: None }),
        102 => Some(KeyNames { name: "home"@, alt_name: None, shifted_name: None }),
        103 => Some(KeyNames { name: "up"@, alt_name: None, shifted_name: None }),
        104 => Some(KeyNames { name: "pageup"@, alt_name: None, shifted_name: None }),
        105 => Some(KeyNames { name: "left"@, alt_name: None, shifted_name: None }),
        106 => Some(KeyNames { name: "right"@, alt_name: None, shifted_name: None }),
        107 => Some(KeyNames { name: "end"@, alt_name: None, shifted_name: None }),
        108 => Some(KeyNames { name: "down"@, alt_name: None, shifted_name: None }),
        109 => Some(KeyNames { name: "pagedown"@, alt_name: None, shifted_name: None }),
        110 => Some(KeyNames { name: "insert"@, alt_name: None, shifted_name: None }),
        111 => Some(KeyNames { name: "delete"@, alt_name: None, shifted_name: None }),
        112 => Some(KeyNames { name: "macro"@, alt_name: None, shifted_name: None }),
        113 => Some(KeyNames { name: "mute"@, alt_name: None, shifted_name: None }),
        114 => Some(KeyNames { name: "volumedown"@, alt_name: None, shifted_name: None }),
        115 => Some(KeyNames { name: "volumeup"@, alt_name: None, shifted_name: None }),
        116 => Some(KeyNames { name: "power"@, alt_name: None, shifted_name: None }),
        117 => Some(KeyNames { name: "kpequal"@, alt_name: None, shifted_name: None }),
        118 => Some(KeyNames { name: "kpplusminus"@, alt_name: None, shifted_name: None }),
        119 => Some(KeyNames { name: "pause"@, alt_name: None, shifted_name: None }),
        120 => Some(KeyNames { name: "scale"@, alt_name: None, shifted_name: None }),
        121 => Some(KeyNames { name: "kpcomma"@, alt_name: None, shifted_name: None }),
        122 => Some(KeyNames { name: "hangeul"@, alt_name: None, shifted_name: None }),
        123 => Some(KeyNames { name: "hanja"@, alt_name: None, shifted_name: None }),
        124 => Some(KeyNames { name: "yen"@, alt_name: None, shifted_name: None }),
        125 => Some(KeyNames { name: "leftmeta"@, alt_name: Some(""@), shifted_name: None }),
        126 => Some(KeyNames { name: "rightmeta"@, alt_name: None, shifted_name: None }),
        127 => Some(KeyNames { name: "compose"@, alt_name: None, shifted_name: None }),
        128 => Some(KeyNames { name: "stop"@, alt_name: None, shifted_name: None }),
        129 => Some(KeyNames { name: "again"@, alt_name: None, shifted_name: None }),
        130 => Some(KeyNames { name: "props"@, alt_name: None, shifted_name: None }),
        131 => Some(KeyNames { name: "undo"@, alt_name: None, shifted_name: None }),
        132 => Some(KeyNames { name: "front"@, alt_name: None, shifted_name: None }),
        133 => Some(KeyNames { name: "copy"@, alt_name: None, shifted_name: None }),
        134 => Some(KeyNames { name: "open"@, alt_name: None, shifted_name: None }),
        135 => Some(KeyNames { name: "paste"@, alt_name: None, shifted_name: None }),
        136 => Some(KeyNames { name: "find"@, alt_name: None, shifted_name: None }),
        137 => Some(KeyNames { name: "cut"@, alt_name: None, shifted_name: None }),
        138 => Some(KeyNames { name: "help"@, alt_name: None, shifted_name: None }),
        139 => Some(KeyNames { name: "menu"@, alt_name: None, shifted_name: None }),
        140 => Some(KeyNames { name: "calc"@, alt_name: None, shifted_name: None }),
        141 => Some(KeyNames { name: "setup"@, alt_name: None, shifted_name: None }),
        142 => Some(KeyNames { name: "sleep"@, alt_name: None, shifted_name: None }),
        143 => Some(KeyNames { name: "wakeup"@, alt_name: None, shifted_name: None }),
        144 => Some(KeyNames { name: "file"@, alt_name: None, shifted_name: None }),
        145 => Some(KeyNames { name: "sendfile"@, alt_name: None, shifted_name: None }),
        146 => Some(KeyNames { name: "deletefile"@, alt_name: None, shifted_name: None }),
        147 => Some(KeyNames { name: "xfer"@, alt_name: None, shifted_name: None }),
        148 => Some(KeyNames { name: "scrolldown"@, alt_name: None, shifted_name: None }),
        149 => Some(KeyNames { name: "scrollup"@, alt_name: None, shifted_name: None }),
        150 => Some(KeyNames { name: "www"@, alt_name: None, shifted_name: None }),
        151 => Some(KeyNames { name: "msdos"@, alt_name: None, shifted_name: None }),
        152 => Some(KeyNames { name: "coffee"@, alt_name: None, shifted_name: None }),
        153 => Some(KeyNames { name: "display"@, alt_name: None, shifted_name: None }),
        154 => Some(KeyNames { name: "cyclewindows"@, alt_name: None, shifted_name: None }),
        155 => Some(KeyNames { name: "mail"@, alt_name: None, shifted_name: None }),
        156 => Some(KeyNames { name: "favorites"@, alt_name: Some("bookmarks"@), shifted_name: None }),
        157 => Some(KeyNames { name: "computer"@, alt_name: None, shifted_name: None }),
        158 => Some(KeyNames { name: "back"@, alt_name: None, shifted_name: None }),
        159 => Some(KeyNames { name: "forward"@, alt_name: None, shifted_name: None }),
        160 => Some(KeyNames { name: "closecd"@, alt_name: None, shifted_name: None }),
        161 => Some(KeyNames { name: "ejectcd"@, alt_name: None, shifted_name: None }),
        162 => Some(KeyNames { name: "ejectclosecd"@, alt_name: None, shifted_name: None }),
        163 => Some(KeyNames { name: "nextsong"@, alt_name: None, shifted_name: None }),
        164 => Some(KeyNames { name: "playpause"@, alt_name: None, shifted_name: None }),
        165 => Some(KeyNames { name: "previoussong"@, alt_name: None, shifted_name: None }),
        166 => Some(KeyNames { name: "stopcd"@, alt_name: None, shifted_name: None }),
        167 => Some(KeyNames { name: "record"@, alt_name: None, shifted_name: None }),
        168 => Some(KeyNames { name: "rewind"@, alt_name: None, shifted_name: None }),
        169 => Some(KeyNames { name: "phone"@, alt_name: None, shifted_name: None }),
        170 => Some(KeyNames { name: "iso"@, alt_name: None, shifted_name: None }),
        171 => Some(KeyNames { name: "config"@, alt_name: None, shifted_name: None }),
        172 => Some(KeyNames { name: "homepage"@, alt_name: None, shifted_name: None }),
        173 => Some(KeyNames { name: "refresh"@, alt_name: None, shifted_name: None }),
        174 => Some(KeyNames { name: "exit"@, alt_name: None, shifted_name: None }),
        175 => Some(KeyNames { name: "move"@, alt_name: None, shifted_name: None }),
        176 => Some(KeyNames { name: "edit"@, alt_name: None, shifted_name: None }),
        177 => Some(KeyNames { name: "zoom"@, alt_name: None, shifted_name: None }),
        178 => Some(KeyNames { name: "mouseback"@, alt_name: None, shifted_name: None }),
        179 => Some(KeyNames { name: "kpleftparen"@, alt_name: None, shifted_name: None }),
        180 => Some(KeyNames { name: "kprightparen"@, alt_name: None, shifted_name: None }),
        181 => Some(KeyNames { name: "new"@, alt_name: None, shifted_name: None }),
        182 => Some(KeyNames { name: "redo"@, alt_name: None, shifted_name: None }),
        183 => Some(KeyNames { name: "f13"@, alt_name: None, shifted_name: None }),
        184 => Some(KeyNames { name: "f14"@, alt_name: None, shifted_name: None }),
        185 => Some(KeyNames { name: "f15"@, alt_name: None, shifted_name: None }),
        186 => Some(KeyNames { name: "f16"@, alt_name: None, shifted_name: None }),
        187 => Some(KeyNames { name: "f17"@, alt_name: None, shifted_name: None }),
        188 => Some(KeyNames { name: "f18"@, alt_name: None, shifted_name: None }),
        189 => Some(KeyNames { name: "f19"@, alt_name: None, shifted_name: None }),
        190 => Some(KeyNames { name: "f20"@, alt_name: None, shifted_name: None }),
        191 => Some(KeyNames { name: "f21"@, alt_name: Some("prog1"@), shifted_name: None }),
        192 => Some(KeyNames { name: "f22"@, alt_name: Some("prog2"@), shifted_name: None }),
        193 => Some(KeyNames { name: "f23"@, alt_name: Some("prog3"@), shifted_name: None }),
        194 => Some(KeyNames { name: "f24"@, alt_name: Some("prog4"@), shifted_name: None }),
        195 => Some(KeyNames { name: "noop"@, alt_name: None, shifted_name: None }),
        200 => Some(KeyNames { name: "playcd"@, alt_name: None, shifted_name: None }),
        201 => Some(KeyNames { name: "pausecd"@, alt_name: None, shifted_name: None }),
        202 => Some(KeyNames { name: "scrollright"@, alt_name: None, shifted_name: None }),
        203 => Some(KeyNames { name: "scrollleft"@, alt_name: None, shifted_name: None }),
        204 => Some(KeyNames { name: "dashboard"@, alt_name: None, shifted_name: None }),
        205 => Some(KeyNames { name: "suspend"@, alt_name: None, shifted_name: None }),
        206 => Some(KeyNames { name: "close"@, alt_name: None, shifted_name: None }),
        207 => Some(KeyNames { name: "play"@, alt_name: None, shifted_name: None }),
        208 => Some(KeyNames { name: "fastforward"@, alt_name: None, shifted_name: None }),
        209 => Some(KeyNames { name: "bassboost"@, alt_name: None, shifted_name: None }),
        210 => Some(KeyNames { name: "print"@, alt_name: None, shifted_name: None }),
        211 => Some(KeyNames { name: "hp"@, alt_name: None, shifted_name: None }),
        212 => Some(KeyNames { name: "camera"@, alt_name: None, shifted_name: None }),
        213 => Some(KeyNames { name: "sound"@, alt_name: None, shifted_name: None }),
        214 => Some(KeyNames { name: "question"@, alt_name: None, shifted_name: None }),
        215 => Some(KeyNames { name: "email"@, alt_name: None, shifted_name: None }),
        216 => Some(KeyNames { name: "chat"@, alt_name: None, shifted_name: None }),
        217 => Some(KeyNames { name: "search"@, alt_name: None, shifted_name: None }),
        218 => Some(KeyNames { name: "connect"@, alt_name: None, shifted_name: None }),
        219 => Some(KeyNames { name: "finance"@, alt_name: None, shifted_name: None }),
        220 => Some(KeyNames { name: "sport"@, alt_name: None, shifted_name: None }),
        221 => Some(KeyNames { name: "shop"@, alt_name: None, shifted_name: None }),
        222 => Some(KeyNames { name: "voicecommand"@, alt_name: None, shifted_name: None }),
        223 => Some(KeyNames { name: "cancel"@, alt_name: None, shifted_name: None }),
        224 => Some(KeyNames { name: "brightnessdown"@, alt_name: None, shifted_name: None }),
        225 => Some(KeyNames { name: "brightnessup"@, alt_name: None, shifted_name: None }),
        226 => Some(KeyNames { name: "media"@, alt_name: None, shifted_name: None }),
        227 => Some(KeyNames { name: "switchvideomode"@, alt_name: None, shifted_name: None }),
        228 => Some(KeyNames { name: "kbdillumtoggle"@, alt_name: None, shifted_name: None }),
        229 => Some(KeyNames { name: "kbdillumdown"@, alt_name: None, shifted_name: None }),
        230 => Some(KeyNames { name: "kbdillumup"@, alt_name: None, shifted_name: None }),
        231 => Some(KeyNames { name: "send"@, alt_name: None, shifted_name: None }),
        232 => Some(KeyNames { name: "reply"@, alt_name: None, shifted_name: None }),
        233 => Some(KeyNames { name: "forwardmail"@, alt_name: None, shifted_name: None }),
        234 => Some(KeyNames { name: "save"@, alt_name: None, shifted_name: None }),
        235 => Some(KeyNames { name: "documents"@, alt_name: None, shifted_name: None }),
        236 => Some(KeyNames { name: "battery"@, alt_name: None, shifted_name: None }),
        237 => Some(KeyNames { name: "bluetooth"@, alt_name: None, shifted_name: None }),
        238 => Some(KeyNames { name: "wlan"@, alt_name: None, shifted_name: None }),
        239 => Some(KeyNames { name: "uwb"@, alt_name: None, shifted_name: None }),
        240 => Some(KeyNames { name: "unknown"@, alt_name: None, shifted_name: None }),
        241 => Some(KeyNames { name: "next"@, alt_name: None, shifted_name: None }),
        242 => Some(KeyNames { name: "prev"@, alt_name: None, shifted_name: None }),
        243 => Some(KeyNames { name: "cycle"@, alt_name: None, shifted_name: None }),
        244 => Some(KeyNames { name: "auto"@, alt_name: None, shifted_name: None }),
        245 => Some(KeyNames { name: "off"@, alt_name: None, shifted_name: None }),
        246 => Some(KeyNames { name: "wwan"@, alt_name: None, shifted_name: None }),
        247 => Some(KeyNames { name: "rfkill"@, alt_name: None, shifted_name: None }),
        248 => Some(KeyNames { name: "micmute"@, alt_name: None, shifted_name: None }),
        249 => Some(KeyNames { name: "leftmouse"@, alt_name: None, shifted_name: None }),
        250 => Some(KeyNames { name: "middlemouse"@, alt_name: None, shifted_name: None }),
        251 => Some(KeyNames { name: "rightmouse"@, alt_name: None, shifted_name: None }),
        252 => Some(KeyNames { name: "mouse1"@, alt_name: None, shifted_name: None }),
        253 => Some(KeyNames { name: "mouse2"@, alt_name: None, shifted_name: None }),
        254 => Some(KeyNames { name: "fn"@, alt_name: None, shifted_name: None }),
        255 => Some(KeyNames { name: "mouseforward"@, alt_name: None, shifted_name: None }),
        _ => None,
    }
}

/// The table entry of key `code`.
pub fn keycode_table(code: u8) -> (r: Option<KeyCodeTableEnt>)
    ensures
        match r {
            Some(e) => key_entry(code) == Some(e@),
            None => key_entry(code) is None,
        },
{
    match code {
        1 => Some(KeyCodeTableEnt { name: "esc", alt_name: Some("escape"), shifted_name: None }),
        2 => Some(KeyCodeTableEnt { name: "1", alt_name: None, shifted_name: Some("!") }),
        3 => Some(KeyCodeTableEnt { name: "2", alt_name: None, shifted_name: Some("@") }),
        4 => Some(KeyCodeTableEnt { name: "3", alt_name: None, shifted_name: Some("#") }),
        5 => Some(KeyCodeTableEnt { name: "4", alt_name: None, shifted_name: Some("$") }),
        6 => Some(KeyCodeTableEnt { name: "5", alt_name: None, shifted_name: Some("%") }),
        7 => Some(KeyCodeTableEnt { name: "6", alt_name: None, shifted_name: Some("^") }),
        8 => Some(KeyCodeTableEnt { name: "7", alt_name: None, shifted_name: Some("&") }),
        9 => Some(KeyCodeTableEnt { name: "8", alt_name: None, shifted_name: Some("*") }),
        10 => Some(KeyCodeTableEnt { name: "9", alt_name: None, shifted_name: Some("(") }),
        11 => Some(KeyCodeTableEnt { name: "0", alt_name: None, shifted_name: Some(")") }),
        12 => Some(KeyCodeTableEnt { name: "-", alt_name: Some("minus"), shifted_name: Some("_") }),
        13 => Some(KeyCodeTableEnt { name: "=", alt_name: Some("equal"), shifted_name: Some("+") }),
        14 => Some(KeyCodeTableEnt { name: "backspace", alt_name: None, shifted_name: None }),
        15 => Some(KeyCodeTableEnt { name: "tab", alt_name: None, shifted_name: None }),
        16 => Some(KeyCodeTableEnt { name: "q", alt_name: None, shifted_name: Some("Q") }),
        17 => Some(KeyCodeTableEnt { name: "w", alt_name: None, shifted_name: Some("W") }),
        18 => Some(KeyCodeTableEnt { name: "e", alt_name: None, shifted_name: Some("E") }),
        19 => Some(KeyCodeTableEnt { name: "r", alt_name: None, shifted_name: Some("R") }),
        20 => Some(KeyCodeTableEnt { name: "t", alt_name: None, shifted_name: Some("T") }),
        21 => Some(KeyCodeTableEnt { name: "y", alt_name: None, shifted_name: Some("Y") }),
        22 => Some(KeyCodeTableEnt { name: "u", alt_name: None, shifted_name: Some("U") }),
        23 => Some(KeyCodeTableEnt { name: "i", alt_name: None, shifted_name: Some("I") }),
        24 => Some(KeyCodeTableEnt { name: "o", alt_name: None, shifted_name: Some("O") }),
        25 => Some(KeyCodeTableEnt { name: "p", alt_name: None, shifted_name: Some("P") }),
        26 => Some(KeyCodeTableEnt { name: "[", alt_name: Some("leftbrace"), shifted_name: Some("{") }),
        27 => Some(KeyCodeTableEnt { name: "]", alt_name: Some("rightbrace"), shifted_name: Some("}") }),
        28 => Some(KeyCodeTableEnt { name: "enter", alt_name: None, shifted_name: None }),
        29 => Some(KeyCodeTableEnt { name: "leftcontrol", alt_name: Some(""), shifted_name: None }),
        30 => Some(KeyCodeTableEnt { name: "a", alt_name: None, shifted_name: Some("A") }),
        31 => Some(KeyCodeTableEnt { name: "s", alt_name: None, shifted_name: Some("S") }),
        32 => Some(KeyCodeTableEnt { name: "d", alt_name: None, shifted_name: Some("D") }),
        33 => Some(KeyCodeTableEnt { name: "f", alt_name: None, shifted_name: Some("F") }),
        34 => Some(KeyCodeTableEnt { name: "g", alt_name: None, shifted_name: Some("G") }),
        35 => Some(KeyCodeTableEnt { name: "h", alt_name: None, shifted_name: Some("H") }),
        36 => Some(KeyCodeTableEnt { name: "j", alt_name: None, shifted_name: Some("J") }),
        37 => Some(KeyCodeTableEnt { name: "k", alt_name: None, shifted_name: Some("K") }),
        38 => Some(KeyCodeTableEnt { name: "l", alt_name: None, shifted_name: Some("L") }),
        39 => Some(KeyCodeTableEnt { name: ";", alt_name: Some("semicolon"), shifted_name: Some(":") }),
        40 => Some(KeyCodeTableEnt { name: "'", alt_name: Some("apostrophe"), shifted_name: Some("\"") }),
        41 => Some(KeyCodeTableEnt { name: "`", alt_name: Some("grave"), shifted_name: Some("~") }),
        42 => Some(KeyCodeTableEnt { name: "leftshift", alt_name: Some(""), shifted_name: None }),
        43 => Some(KeyCodeTableEnt { name: "\\", alt_name: Some("backslash"), shifted_name: Some("|") }),
        44 => Some(KeyCodeTableEnt { name: "z", alt_name: None, shifted_name: Some("Z") }),
        45 => Some(KeyCodeTableEnt { name: "x", alt_name: None, shifted_name: Some("X") }),
        46 => Some(KeyCodeTableEnt { name: "c", alt_name: None, shifted_name: Some("C") }),
        47 => Some(KeyCodeTableEnt { name: "v", alt_name: None, shifted_name: Some("V") }),
        48 => Some(KeyCodeTableEnt { name: "b", alt_name: None, shifted_name: Some("B") }),
        49 => Some(KeyCodeTableEnt { name: "n", alt_name: None, shifted_name: Some("N") }),
        50 => Some(KeyCodeTableEnt { name: "m", alt_name: None, shifted_name: Some("M") }),
        51 => Some(KeyCodeTableEnt { name: ",", alt_name: Some("comma"), shifted_name: Some("<") }),
        52 => Some(KeyCodeTableEnt { name: ".", alt_name: Some("dot"), shifted_name: Some(">") }),
        53 => Some(KeyCodeTableEnt { name: "/", alt_name: Some("slash"), shifted_name: Some("?") }),
        54 => Some(KeyCodeTableEnt { name: "rightshift", alt_name: None, shifted_name: None }),
        55 => Some(KeyCodeTableEnt { name: "kpasterisk", alt_name: None, shifted_name: None }),
        56 => Some(KeyCodeTableEnt { name: "leftalt", alt_name: Some(""), shifted_name: None }),
        57 => Some(KeyCodeTableEnt { name: "space", alt_name: None, shifted_name: None }),
        58 => Some(KeyCodeTableEnt { name: "capslock", alt_name: None, shifted_name: None }),
        59 => Some(KeyCodeTableEnt { name: "f1", alt_name: None, shifted_name: None }),
        60 => Some(KeyCodeTableEnt { name: "f2", alt_name: None, shifted_name: None }),
        61 => Some(KeyCodeTableEnt { name: "f3", alt_name: None, shifted_name: None }),
        62 => Some(KeyCodeTableEnt { name: "f4", alt_name: None, shifted_name: None }),
        63 => Some(KeyCodeTableEnt { name: "f5", alt_name: None, shifted_name: None }),
        64 => Some(KeyCodeTableEnt { name: "f6", alt_name: None, shifted_name: None }),
        65 => Some(KeyCodeTableEnt { name: "f7", alt_name: None, shifted_name: None }),
        66 => Some(KeyCodeTableEnt { name: "f8", alt_name: None, shifted_name: None }),
        67 => Some(KeyCodeTableEnt { name: "f9", alt_name: None, shifted_name: None }),
        68 => Some(KeyCodeTableEnt { name: "f10", alt_name: None, shifted_name: None }),
        69 => Some(KeyCodeTableEnt { name: "numlock", alt_name: None, shifted_name: None }),
        70 => Some(KeyCodeTableEnt { name: "scrolllock", alt_name: None, shifted_name: None }),
        71 => Some(KeyCodeTableEnt { name: "kp7", alt_name: None, shifted_name: None }),
        72 => Some(KeyCodeTableEnt { name: "kp8", alt_name: None, shifted_name: None }),
        73 => Some(KeyCodeTableEnt { name: "kp9", alt_name: None, shifted_name: None }),
        74 => Some(KeyCodeTableEnt { name: "kpminus", alt_name: None, shifted_name: None }),
        75 => Some(KeyCodeTableEnt { name: "kp4", alt_name: None, shifted_name: None }),
        76 => Some(KeyCodeTableEnt { name: "kp5", alt_name: None, shifted_name: None }),
        77 => Some(KeyCodeTableEnt { name: "kp6", alt_name: None, shifted_name: None }),
        78 => Some(KeyCodeTableEnt { name: "kpplus", alt_name: None, shifted_name: None }),
        79 => Some(KeyCodeTableEnt { name: "kp1", alt_name: None, shifted_name: None }),
        80 => Some(KeyCodeTableEnt { name: "kp2", alt_name: None, shifted_name: None }),
        81 => Some(KeyCodeTableEnt { name: "kp3", alt_name: None, shifted_name: None }),
        82 => Some(KeyCodeTableEnt { name: "kp0", alt_name: None, shifted_name: None }),
        83 => Some(KeyCodeTableEnt { name: "kpdot", alt_name: None, shifted_name: None }),
        84 => Some(KeyCodeTableEnt { name: "iso-level3-shift", alt_name: None, shifted_name: None }),
        85 => Some(KeyCodeTableEnt { name: "zenkakuhankaku", alt_name: None, shifted_name: None }),
        86 => Some(KeyCodeTableEnt { name: "102nd", alt_name: None, shifted_name: None }),
        87 => Some(KeyCodeTableEnt { name: "f11", alt_name: None, shifted_name: None }),
        88 => Some(KeyCodeTableEnt { name: "f12", alt_name: None, shifted_name: None }),
        89 => Some(KeyCodeTableEnt { name: "ro", alt_name: None, shifted_name: None }),
        90 => Some(KeyCodeTableEnt { name: "katakana", alt_name: None, shifted_name: None }),
        91 => Some(KeyCodeTableEnt { name: "hiragana", alt_name: None, shifted_name: None }),
        92 => Some(KeyCodeTableEnt { name: "henkan", alt_name: None, shifted_name: None }),
        93 => Some(KeyCodeTableEnt { name: "katakanahiragana", alt_name: None, shifted_name: None }),
        94 => Some(KeyCodeTableEnt { name: "muhenkan", alt_name: None, shifted_name: None }),
        95 => Some(KeyCodeTableEnt { name: "kpjpcomma", alt_name: None, shifted_name: None }),
        96 => Some(KeyCodeTableEnt { name: "kpenter", alt_name: None, shifted_name: None }),
        97 => Some(KeyCodeTableEnt { name: "rightcontrol", alt_name: None, shifted_name: None }),
        98 => Some(KeyCodeTableEnt { name: "kpslash", alt_name: None, shifted_name: None }),
        99 => Some(KeyCodeTableEnt { name: "sysrq", alt_name: None, shifted_name: None }),
        100 => Some(KeyCodeTableEnt { name: "rightalt", alt_name: None, shifted_name: None }),
        101 => Some(KeyCodeTableEnt { name: "linefeed", alt_name: None, shifted_name: None }),
        102 => Some(KeyCodeTableEnt { name: "home", alt_name: None, shifted_name: None }),
        103 => Some(KeyCodeTableEnt { name: "up", alt_name: None, shifted_name: None }),
        104 => Some(KeyCodeTableEnt { name: "pageup", alt_name: None, shifted_name: None }),
        105 => Some(KeyCodeTableEnt { name: "left", alt_name: None, shifted_name: None }),
        106 => Some(KeyCodeTableEnt { name: "right", alt_name: None, shifted_name: None }),
        107 => Some(KeyCodeTableEnt { name: "end", alt_name: None, shifted_name: None }),
        108 => Some(KeyCodeTableEnt { name: "down", alt_name: None, shifted_name: None }),
        109 => Some(KeyCodeTableEnt { name: "pagedown", alt_name: None, shifted_name: None }),
        110 => Some(KeyCodeTableEnt { name: "insert", alt_name: None, shifted_name: None }),
        111 => Some(KeyCodeTableEnt { name: "delete", alt_name: None, shifted_name: None }),
        112 => Some(KeyCodeTableEnt { name: "macro", alt_name: None, shifted_name: None }),
        113 => Some(KeyCodeTableEnt { name: "mute", alt_name: None, shifted_name: None }),
        114 => Some(KeyCodeTableEnt { name: "volumedown", alt_name: None, shifted_name: None }),
        115 => Some(KeyCodeTableEnt { name: "volumeup", alt_name: None, shifted_name: None }),
        116 => Some(KeyCodeTableEnt { name: "power", alt_name: None, shifted_name: None }),
        117 => Some(KeyCodeTableEnt { name: "kpequal", alt_name: None, shifted_name: None }),
        118 => Some(KeyCodeTableEnt { name: "kpplusminus", alt_name: None, shifted_name: None }),
        119 => Some(KeyCodeTableEnt { name: "pause", alt_name: None, shifted_name: None }),
        120 => Some(KeyCodeTableEnt { name: "scale", alt_name: None, shifted_name: None }),
        121 => Some(KeyCodeTableEnt { name: "kpcomma", alt_name: None, shifted_name: None }),
        122 => Some(KeyCodeTableEnt { name: "hangeul", alt_name: None, shifted_name: None }),
        123 => Some(KeyCodeTableEnt { name: "hanja", alt_name: None, shifted_name: None }),
        124 => Some(KeyCodeTableEnt { name: "yen", alt_name: None, shifted_name: None }),
        125 => Some(KeyCodeTableEnt { name: "leftmeta", alt_name: Some(""), shifted_name: None }),
        126 => Some(KeyCodeTableEnt { name: "rightmeta", alt_name: None, shifted_name: None }),
        127 => Some(KeyCodeTableEnt { name: "compose", alt_name: None, shifted_name: None }),
        128 => Some(KeyCodeTableEnt { name: "stop", alt_name: None, shifted_name: None }),
        129 => Some(KeyCodeTableEnt { name: "again", alt_name: None, shifted_name: None }),
        130 => Some(KeyCodeTableEnt { name: "props", alt_name: None, shifted_name: None }),
        131 => Some(KeyCodeTableEnt { name: "undo", alt_name: None, shifted_name: None }),
        132 => Some(KeyCodeTableEnt { name: "front", alt_name: None, shifted_name: None }),
        133 => Some(KeyCodeTableEnt { name: "copy", alt_name: None, shifted_name: None }),
        134 => Some(KeyCodeTableEnt { name: "open", alt_name: None, shifted_name: None }),
        135 => Some(KeyCodeTableEnt { name: "paste", alt_name: None, shifted_name: None }),
        136 => Some(KeyCodeTableEnt { name: "find", alt_name: None, shifted_name: None }),
        137 => Some(KeyCodeTableEnt { name: "cut", alt_name: None, shifted_name: None }),
        138 => Some(KeyCodeTableEnt { name: "help", alt_name: None, shifted_name: None }),
        139 => Some(KeyCodeTableEnt { name: "menu", alt_name: None, shifted_name: None }),
        140 => Some(KeyCodeTableEnt { name: "calc", alt_name: None, shifted_name: None }),
        141 => Some(KeyCodeTableEnt { name: "setup", alt_name: None, shifted_name: None }),
        142 => Some(KeyCodeTableEnt { name: "sleep", alt_name: None, shifted_name: None }),
        143 => Some(KeyCodeTableEnt { name: "wakeup", alt_name: None, shifted_name: None }),
        144 => Some(KeyCodeTableEnt { name: "file", alt_name: None, shifted_name: None }),
        145 => Some(KeyCodeTableEnt { name: "sendfile", alt_name: None, shifted_name: None }),
        146 => Some(KeyCodeTableEnt { name: "deletefile", alt_name: None, shifted_name: None }),
        147 => Some(KeyCodeTableEnt { name: "xfer", alt_name: None, shifted_name: None }),
        148 => Some(KeyCodeTableEnt { name: "scrolldown", alt_name: None, shifted_name: None }),
        149 => Some(KeyCodeTableEnt { name: "scrollup", alt_name: None, shifted_name: None }),
        150 => Some(KeyCodeTableEnt { name: "www", alt_name: None, shifted_name: None }),
        151 => Some(KeyCodeTableEnt { name: "msdos", alt_name: None, shifted_name: None }),
        152 => Some(KeyCodeTableEnt { name: "coffee", alt_name: None, shifted_name: None }),
        153 => Some(KeyCodeTableEnt { name: "display", alt_name: None, shifted_name: None }),
        154 => Some(KeyCodeTableEnt { name: "cyclewindows", alt_name: None, shifted_name: None }),
        155 => Some(KeyCodeTableEnt { name: "mail", alt_name: None, shifted_name: None }),
        156 => Some(KeyCodeTableEnt { name: "favorites", alt_name: Some("bookmarks"), shifted_name: None }),
        157 => Some(KeyCodeTableEnt { name: "computer", alt_name: None, shifted_name: None }),
        158 => Some(KeyCodeTableEnt { name: "back", alt_name: None, shifted_name: None }),
        159 => Some(KeyCodeTableEnt { name: "forward", alt_name: None, shifted_name: None }),
        160 => Some(KeyCodeTableEnt { name: "closecd", alt_name: None, shifted_name: None }),
        161 => Some(KeyCodeTableEnt { name: "ejectcd", alt_name: None, shifted_name: None }),
        162 => Some(KeyCodeTableEnt { name: "ejectclosecd", alt_name: None, shifted_name: None }),
        163 => Some(KeyCodeTableEnt { name: "nextsong", alt_name: None, shifted_name: None }),
        164 => Some(KeyCodeTableEnt { name: "playpause", alt_name: None, shifted_name: None }),
        165 => Some(KeyCodeTableEnt { name: "previoussong", alt_name: None, shifted_name: None }),
        166 => Some(KeyCodeTableEnt { name: "stopcd", alt_name: None, shifted_name: None }),
        167 => Some(KeyCodeTableEnt { name: "record", alt_name: None, shifted_name: None }),
        168 => Some(KeyCodeTableEnt { name: "rewind", alt_name: None, shifted_name: None }),
        169 => Some(KeyCodeTableEnt { name: "phone", alt_name: None, shifted_name: None }),
        170 => Some(KeyCodeTableEnt { name: "iso", alt_name: None, shifted_name: None }),
        171 => Some(KeyCodeTableEnt { name: "config", alt_name: None, shifted_name: None }),
        172 => Some(KeyCodeTableEnt { name: "homepage", alt_name: None, shifted_name: None }),
        173 => Some(KeyCodeTableEnt { name: "refresh", alt_name: None, shifted_name: None }),
        174 => Some(KeyCodeTableEnt { name: "exit", alt_name: None, shifted_name: None }),
        175 => Some(KeyCodeTableEnt { name: "move", alt_name: None, shifted_name: None }),
        176 => Some(KeyCodeTableEnt { name: "edit", alt_name: None, shifted_name: None }),
        177 => Some(KeyCodeTableEnt { name: "zoom", alt_name: None, shifted_name: None }),
        178 => Some(KeyCodeTableEnt { name: "mouseback", alt_name: None, shifted_name: None }),
        179 => Some(KeyCodeTableEnt { name: "kpleftparen", alt_name: None, shifted_name: None }),
        180 => Some(KeyCodeTableEnt { name: "kprightparen", alt_name: None, shifted_name: None }),
        181 => Some(KeyCodeTableEnt { name: "new", alt_name: None, shifted_name: None }),
        182 => Some(KeyCodeTableEnt { name: "redo", alt_name: None, shifted_name: None }),
        183 => Some(KeyCodeTableEnt { name: "f13", alt_name: None, shifted_name: None }),
        184 => Some(KeyCodeTableEnt { name: "f14", alt_name: None, shifted_name: None }),
        185 => Some(KeyCodeTableEnt { name: "f15", alt_name: None, shifted_name: None }),
        186 => Some(KeyCodeTableEnt { name: "f16", alt_name: None, shifted_name: None }),
        187 => Some(KeyCodeTableEnt { name: "f17", alt_name: None, shifted_name: None }),
        188 => Some(KeyCodeTableEnt { name: "f18", alt_name: None, shifted_name: None }),
        189 => Some(KeyCodeTableEnt { name: "f19", alt_name: None, shifted_name: None }),
        190 => Some(KeyCodeTableEnt { name: "f20", alt_name: None, shifted_name: None }),
        191 => Some(KeyCodeTableEnt { name: "f21", alt_name: Some("prog1"), shifted_name: None }),
        192 => Some(KeyCodeTableEnt { name: "f22", alt_name: Some("prog2"), shifted_name: None }),
        193 => Some(KeyCodeTableEnt { name: "f23", alt_name: Some("prog3"), shifted_name: None }),
        194 => Some(KeyCodeTableEnt { name: "f24", alt_name: Some("prog4"), shifted_name: None }),
        195 => Some(KeyCodeTableEnt { name: "noop", alt_name: None, shifted_name: None }),
        200 => Some(KeyCodeTableEnt { name: "playcd", alt_name: None, shifted_name: None }),
        201 => Some(KeyCodeTableEnt { name: "pausecd", alt_name: None, shifted_name: None }),
        202 => Some(KeyCodeTableEnt { name: "scrollright", alt_name: None, shifted_name: None }),
        203 => Some(KeyCodeTableEnt { name: "scrollleft", alt_name: None, shifted_name: None }),
        204 => Some(KeyCodeTableEnt { name: "dashboard", alt_name: None, shifted_name: None }),
        205 => Some(KeyCodeTableEnt { name: "suspend", alt_name: None, shifted_name: None }),
        206 => Some(KeyCodeTableEnt { name: "close", alt_name: None, shifted_name: None }),
        207 => Some(KeyCodeTableEnt { name: "play", alt_name: None, shifted_name: None }),
        208 => Some(KeyCodeTableEnt { name: "fastforward", alt_name: None, shifted_name: None }),
        209 => Some(KeyCodeTableEnt { name: "bassboost", alt_name: None, shifted_name: None }),
        210 => Some(KeyCodeTableEnt { name: "print", alt_name: None, shifted_name: None }),
        211 => Some(KeyCodeTableEnt { name: "hp", alt_name: None, shifted_name: None }),
        212 => Some(KeyCodeTableEnt { name: "camera", alt_name: None, shifted_name: None }),
        213 => Some(KeyCodeTableEnt { name: "sound", alt_name: None, shifted_name: None }),
        214 => Some(KeyCodeTableEnt { name: "question", alt_name: None, shifted_name: None }),
        215 => Some(KeyCodeTableEnt { name: "email", alt_name: None, shifted_name: None }),
        216 => Some(KeyCodeTableEnt { name: "chat", alt_name: None, shifted_name: None }),
        217 => Some(KeyCodeTableEnt { name: "search", alt_name: None, shifted_name: None }),
        218 => Some(KeyCodeTableEnt { name: "connect", alt_name: None, shifted_name: None }),
        219 => Some(KeyCodeTableEnt { name: "finance", alt_name: None, shifted_name: None }),
        220 => Some(KeyCodeTableEnt { name: "sport", alt_name: None, shifted_name: None }),
        221 => Some(KeyCodeTableEnt { name: "shop", alt_name: None, shifted_name: None }),
        222 => Some(KeyCodeTableEnt { name: "voicecommand", alt_name: None, shifted_name: None }),
        223 => Some(KeyCodeTableEnt { name: "cancel", alt_name: None, shifted_name: None }),
        224 => Some(KeyCodeTableEnt { name: "brightnessdown", alt_name: None, shifted_name: None }),
        225 => Some(KeyCodeTableEnt { name: "brightnessup", alt_name: None, shifted_name: None }),
        226 => Some(KeyCodeTableEnt { name: "media", alt_name: None, shifted_name: None }),
        227 => Some(KeyCodeTableEnt { name: "switchvideomode", alt_name: None, shifted_name: None }),
        228 => Some(KeyCodeTableEnt { name: "kbdillumtoggle", alt_name: None, shifted_name: None }),
        229 => Some(KeyCodeTableEnt { name: "kbdillumdown", alt_name: None, shifted_name: None }),
        230 => Some(KeyCodeTableEnt { name: "kbdillumup", alt_name: None, shifted_name: None }),
        231 => Some(KeyCodeTableEnt { name: "send", alt_name: None, shifted_name: None }),
        232 => Some(KeyCodeTableEnt { name: "reply", alt_name: None, shifted_name: None }),
        233 => Some(KeyCodeTableEnt { name: "forwardmail", alt_name: None, shifted_name: None }),
        234 => Some(KeyCodeTableEnt { name: "save", alt_name: None, shifted_name: None }),
        235 => Some(KeyCodeTableEnt { name: "documents", alt_name: None, shifted_name: None }),
        236 => Some(KeyCodeTableEnt { name: "battery", alt_name: None, shifted_name: None }),
        237 => Some(KeyCodeTableEnt { name: "bluetooth", alt_name: None, shifted_name: None }),
        238 => Some(KeyCodeTableEnt { name: "wlan", alt_name: None, shifted_name: None }),
        239 => Some(KeyCodeTableEnt { name: "uwb", alt_name: None, shifted_name: None }),
        240 => Some(KeyCodeTableEnt { name: "unknown", alt_name: None, shifted_name: None }),
        241 => Some(KeyCodeTableEnt { name: "next", alt_name: None, shifted_name: None }),
        242 => Some(KeyCodeTableEnt { name: "prev", alt_name: None, shifted_name: None }),
        243 => Some(KeyCodeTableEnt { name: "cycle", alt_name: None, shifted_name: None }),
        244 => Some(KeyCodeTableEnt { name: "auto", alt_name: None, shifted_name: None }),
        245 => Some(KeyCodeTableEnt { name: "off", alt_name: None, shifted_name: None }),
        246 => Some(KeyCodeTableEnt { name: "wwan", alt_name: None, shifted_name: None }),
        247 => Some(KeyCodeTableEnt { name: "rfkill", alt_name: None, shifted_name: None }),
        248 => Some(KeyCodeTableEnt { name: "micmute", alt_name: None, shifted_name: None }),
        249 => Some(KeyCodeTableEnt { name: "leftmouse", alt_name: None, shifted_name: None }),
        250 => Some(KeyCodeTableEnt { name: "middlemouse", alt_name: None, shifted_name: None }),
        251 => Some(KeyCodeTableEnt { name: "rightmouse", alt_name: None, shifted_name: None }),
        252 => Some(KeyCodeTableEnt { name: "mouse1", alt_name: None, shifted_name: None }),
        253 => Some(KeyCodeTableEnt { name: "mouse2", alt_name: None, shifted_name: None }),
        254 => Some(KeyCodeTableEnt { name: "fn", alt_name: None, shifted_name: None }),
        255 => Some(KeyCodeTableEnt { name: "mouseforward", alt_name: None, shifted_name: None }),
        _ => None,
    }
}


/// The modifier bit written by a one-letter token of a key sequence.
pub open spec fn mod_token(t: Seq<char>) -> Option<u8> {
    if t.len() != 1 {
        None
    } else if t[0] == 'C' {
        Some(MOD_CTRL)
    } else if t[0] == 'M' {
        Some(MOD_SUPER)
    } else if t[0] == 'A' {
        Some(MOD_ALT)
    } else if t[0] == 'S' {
        Some(MOD_SHIFT)
    } else if t[0] == 'G' {
        Some(MOD_ALT_GR)
    } else {
        None
    }
}

/// The union of the modifier tokens `parts`; `None` when one of them is not a
/// modifier. With `skip_empty`, empty tokens are ignored.
pub open spec fn modset_of(parts: Seq<Seq<char>>, skip_empty: bool) -> Option<u8>
    decreases parts.len(),
{
    if parts.len() == 0 {
        Some(0u8)
    } else {
        match modset_of(parts.drop_last(), skip_empty) {
            None => None,
            Some(m) => if skip_empty && parts.last().len() == 0 {
                Some(m)
            } else {
                match mod_token(parts.last()) {
                    Some(b) => Some(m | b),
                    None => None,
                }
            },
        }
    }
}

/// How key `code` is named by `key`: `Some(true)` when `key` is its shifted
/// name, `Some(false)` when it is its name or alternative name.
pub open spec fn entry_match(code: int, key: Seq<char>) -> Option<bool> {
    match key_entry(code as u8) {
        Some(e) => if e.shifted_name == Some(key) {
            Some(true)
        } else if e.name == key || e.alt_name == Some(key) {
            Some(false)
        } else {
            None
        },
        None => None,
    }
}

/// The first key, from code `i` on, that `key` names (see `entry_match`).
pub open spec fn find_key_from(key: Seq<char>, i: int) -> Option<(u8, bool)>
    decreases 256 - i,
{
    if i < 0 || i >= 256 {
        None
    } else {
        match entry_match(i, key) {
            Some(sh) => Some((i as u8, sh)),
            None => find_key_from(key, i + 1),
        }
    }
}

/// The first key, from code `i` on, whose name or alternative name is `key`.
pub open spec fn find_name_from(key: Seq<char>, i: int) -> Option<u8>
    decreases 256 - i,
{
    if i < 0 || i >= 256 {
        None
    } else {
        match key_entry(i as u8) {
            Some(e) => if e.name == key || e.alt_name == Some(key) {
                Some(i as u8)
            } else {
                find_name_from(key, i + 1)
            },
            None => find_name_from(key, i + 1),
        }
    }
}

/// The modifier set written as `C-M-...` (empty tokens are ignored).
pub open spec fn modset_spec(s: Seq<char>) -> Option<u8> {
    modset_of(split_seq(s, '-'), true)
}

/// The key and modifiers written as `C-S-name`: every token before the last
/// `-` is a modifier, and the last token names a key. A shifted name adds
/// Shift to the modifiers.
pub open spec fn key_sequence_spec(s: Seq<char>) -> Option<(u8, u8)> {
    let parts = split_seq(s, '-');
    match (modset_of(parts.drop_last(), false), find_key_from(parts.last(), 0)) {
        (Some(m), Some((code, shifted))) => Some((code, if shifted { m | MOD_SHIFT } else { m })),
        _ => None,
    }
}

/// Law: writing a modifier letter and `-` before a key name adds that
/// modifier to what the name gives: `C` Control, `M` Meta, `A` Alt, `S`
/// Shift and `G` AltGr (so `A-tab` is Tab with Alt).
pub proof fn law_modifier_prefix(name: Seq<char>, letter: char)
    requires
        !name.contains('-'),
        key_sequence_spec(name) is Some,
        letter == 'C' || letter == 'M' || letter == 'A' || letter == 'S' || letter == 'G',
    ensures
        key_sequence_spec(seq![letter, '-'] + name) == Some((
            key_sequence_spec(name).unwrap().0,
            key_sequence_spec(name).unwrap().1 | if letter == 'C' {
                MOD_CTRL
            } else if letter == 'M' {
                MOD_SUPER
            } else if letter == 'A' {
                MOD_ALT
            } else if letter == 'S' {
                MOD_SHIFT
            } else {
                MOD_ALT_GR
            },
        )),
{
    let pre = seq![letter];
    assert(seq![letter, '-'] + name =~= pre.push('-') + name);
    lemma_split_join(pre, name, '-');
    lemma_split_none(pre, '-');
    lemma_split_none(name, '-');
    let parts = split_seq(seq![letter, '-'] + name, '-');
    assert(parts =~= seq![pre, name]);
    assert(parts.drop_last() =~= seq![pre]);
    assert(seq![pre].drop_last() =~= Seq::<Seq<char>>::empty());
    assert(split_seq(name, '-').drop_last() =~= Seq::<Seq<char>>::empty());
    let b: u8 = mod_token(pre)->0;
    assert(modset_of(seq![pre], false) == Some(0u8 | b));
    let (code, sh) = find_key_from(name, 0)->0;
    let sft = MOD_SHIFT;
    assert((0u8 | b) == b) by (bit_vector);
    assert((0u8 | sft) | b == b | sft) by (bit_vector);
    assert((0u8 | b) | sft == b | sft) by (bit_vector);
}

/// Law: adding `-` and a modifier letter to a modifier set adds that
/// modifier: `C` Control, `M` Meta, `A` Alt, `S` Shift, `G` AltGr.
pub proof fn law_modset_add_letter(s: Seq<char>, letter: char)
    requires
        modset_spec(s) is Some,
        letter == 'C' || letter == 'M' || letter == 'A' || letter == 'S' || letter == 'G',
    ensures
        modset_spec(s.push('-') + seq![letter]) == Some(
            modset_spec(s).unwrap() | if letter == 'C' {
                MOD_CTRL
            } else if letter == 'M' {
                MOD_SUPER
            } else if letter == 'A' {
                MOD_ALT
            } else if letter == 'S' {
                MOD_SHIFT
            } else {
                MOD_ALT_GR
            },
        ),
{
    lemma_split_join(s, seq![letter], '-');
    lemma_split_none(seq![letter], '-');
    let parts = split_seq(s.push('-') + seq![letter], '-');
    assert(parts =~= split_seq(s, '-').push(seq![letter]));
    assert(parts.drop_last() =~= split_seq(s, '-'));
}

fn mod_token_exec(t: &[char]) -> (r: Option<u8>)
    ensures
        r == mod_token(t@),
{
    if t.len() != 1 {
        None
    } else if t[0] == 'C' {
        Some(MOD_CTRL)
    } else if t[0] == 'M' {
        Some(MOD_SUPER)
    } else if t[0] == 'A' {
        Some(MOD_ALT)
    } else if t[0] == 'S' {
        Some(MOD_SHIFT)
    } else if t[0] == 'G' {
        Some(MOD_ALT_GR)
    } else {
        None
    }
}

fn modset_of_parts(parts: &Vec<Vec<char>>, n: usize, skip_empty: bool) -> (r: Option<u8>)
    requires
        n <= parts@.len(),
    ensures
        r == modset_of(views_of(parts@).take(n as int), skip_empty),
{
    let mut m: u8 = 0;
    let mut i: usize = 0;
    assert(views_of(parts@).take(0) =~= Seq::<Seq<char>>::empty());
    while i < n
        invariant
            i <= n <= parts@.len(),
            modset_of(views_of(parts@).take(i as int), skip_empty) == Some(m),
        decreases n - i,
    {
        let part = &parts[i];
        assert(views_of(parts@).take(i + 1).drop_last() =~= views_of(parts@).take(i as int));
        assert(views_of(parts@).take(i + 1).last() == part@);
        if skip_empty && part.len() == 0 {
        } else {
            match mod_token_exec(part.as_slice()) {
                Some(b) => {
                    m = m | b;
                },
                None => {
                    proof {
                        lemma_modset_none_stays(views_of(parts@), i as int + 1, n as int, skip_empty);
                    }
                    return None;
                },
            }
        }
        i = i + 1;
    }
    Some(m)
}

proof fn lemma_modset_none_stays(parts: Seq<Seq<char>>, i: int, n: int, skip_empty: bool)
    requires
        0 <= i <= n <= parts.len(),
        modset_of(parts.take(i), skip_empty) is None,
    ensures
        modset_of(parts.take(n), skip_empty) is None,
    decreases n - i,
{
    if i < n {
        assert(parts.take(i + 1).drop_last() =~= parts.take(i));
        lemma_modset_none_stays(parts, i + 1, n, skip_empty);
    }
}

/// Which key, if any, `key` names when it is compared with key `code`.
fn entry_matches(code: u8, key: &[char]) -> (r: Option<bool>)
    ensures
        r == entry_match(code as int, key@),
{
    match keycode_table(code) {
        Some(e) => {
            if let Some(sh) = e.shifted_name {
                if chars_eq_str(key, sh) {
                    return Some(true);
                }
            }
            if chars_eq_str(key, e.name) {
                return Some(false);
            }
            if let Some(a) = e.alt_name {
                if chars_eq_str(key, a) {
                    return Some(false);
                }
            }
            None
        },
        None => None,
    }
}

/// The first key that `key` names, and whether it names its shifted form.
pub fn find_key(key: &[char]) -> (r: Option<(u8, bool)>)
    ensures
        r == find_key_from(key@, 0),
{
    let mut i: usize = 0;
    while i < 256
        invariant
            i <= 256,
            find_key_from(key@, 0) == find_key_from(key@, i as int),
        decreases 256 - i,
    {
        match entry_matches(i as u8, key) {
            Some(sh) => {
                return Some((i as u8, sh));
            },
            None => {},
        }
        i = i + 1;
    }
    None
}

/// The first key whose name or alternative name is `key`.
pub fn find_name(key: &[char]) -> (r: Option<u8>)
    ensures
        r == find_name_from(key@, 0),
{
    let mut i: usize = 0;
    while i < 256
        invariant
            i <= 256,
            find_name_from(key@, 0) == find_name_from(key@, i as int),
        decreases 256 - i,
    {
        match keycode_table(i as u8) {
            Some(e) => {
                if chars_eq_str(key, e.name) {
                    return Some(i as u8);
                }
                if let Some(a) = e.alt_name {
                    if chars_eq_str(key, a) {
                        return Some(i as u8);
                    }
                }
            },
            None => {},
        }
        i = i + 1;
    }
    None
}

/// Parses a modifier set such as `C-M`; empty tokens are ignored.
pub fn parse_modset_chars(s: &[char]) -> (r: Option<u8>)
    ensures
        r == modset_spec(s@),
{
    let parts = split_chars(s, '-');
    assert(views_of(parts@).take(parts@.len() as int) =~= views_of(parts@));
    modset_of_parts(&parts, parts.len(), true)
}

/// Parses a modifier set such as `C-M`; empty tokens are ignored.
pub fn parse_modset(s: &str) -> (r: Option<u8>)
    ensures
        r == modset_spec(s@),
{
    let v = crate::text::str_chars(s);
    parse_modset_chars(v.as_slice())
}

/// Parses a key sequence such as `C-a` into its key code and modifiers.
pub fn parse_key_sequence_chars(s: &[char]) -> (r: Option<(u8, u8)>)
    ensures
        r == key_sequence_spec(s@),
{
    let parts = split_chars(s, '-');
    proof {
        lemma_split_nonempty(s@, '-');
    }
    let n = parts.len() - 1;
    assert(views_of(parts@).take(n as int) =~= split_seq(s@, '-').drop_last());
    let mods = modset_of_parts(&parts, n, false);
    match mods {
        None => None,
        Some(m) => {
            let key = &parts[n];
            match find_key(key.as_slice()) {
                Some((code, shifted)) => {
                    if shifted {
                        Some((code, m | MOD_SHIFT))
                    } else {
                        Some((code, m))
                    }
                },
                None => None,
            }
        },
    }
}

/// Parses a key sequence such as `C-a` into its key code and modifiers.
pub fn parse_key_sequence(s: &str) -> (r: Option<(u8, u8)>)
    ensures
        r == key_sequence_spec(s@),
{
    let v = crate::text::str_chars(s);
    parse_key_sequence_chars(v.as_slice())
}

/// The code of the key whose name or alternative name is `name`.
pub fn lookup_keycode(name: &str) -> (r: Option<u8>)
    ensures
        r == find_name_from(name@, 0),
{
    let v = crate::text::str_chars(name);
    find_name(v.as_slice())
}

} // verus!
