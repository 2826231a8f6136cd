//! Building a configuration from its text: layers, global options, device
//! ids, aliases and key mappings; matching devices against the ids; adding
//! single mappings at run time.

use vstd::prelude::*;
use crate::config::{
    ChordView, Chord, Config, ConfigId, ConfigView, Descriptor, Layer, LayerType, LayerView,
    new_layer_view, is_mapped, MAX_LAYERS, MAX_CONSTITUENTS, ID_EXCLUDED, ID_KEYBOARD, ID_KEY,
};
use crate::config_parse::{
    descriptor_spec, descriptor_post, find_layer, layer_index, layer_index_from, parse_descriptor,
};
use crate::ini::{ini_parse_string, ini_spec, IniEntryView, IniSectionView, IniSection, IniEntry};
use crate::keys::{
    key_sequence_spec, modset_spec, parse_key_sequence_chars, parse_modset_chars, MOD_ALT,
    MOD_ALT_GR, MOD_CTRL, MOD_SHIFT, MOD_SUPER,
};
use crate::text::{
    chars_eq, chars_eq_str, contains_char, parse_i64, parse_unsigned, signed_value, split_chars,
    split_seq, str_chars, string_from_chars, sub_chars, unsigned_value, views_of,
    lemma_split_nonempty, starts_with_str, trim_chars, trim_seq,
};

verus! {

pub open spec fn set_layer(cv: ConfigView, i: int, l: LayerView) -> ConfigView {
    ConfigView { layers: cv.layers.update(i, l), ..cv }
}

fn set_keymap(config: &mut Config, li: usize, code: u8, d: Descriptor)
    requires
        li < old(config).layers@.len(),
        old(config).layers@[li as int].keymap@.len() == 256,
    ensures
        final(config)@ == set_layer(
            old(config)@,
            li as int,
            LayerView {
                keymap: old(config)@.layers[li as int].keymap.update(code as int, d),
                ..old(config)@.layers[li as int]
            },
        ),
{
    config.layers[li].keymap[code as usize] = d;
    assert(config@.layers =~= set_layer(
        old(config)@,
        li as int,
        LayerView {
            keymap: old(config)@.layers[li as int].keymap.update(code as int, d),
            ..old(config)@.layers[li as int]
        },
    ).layers);
}


/// Every layer has one keymap entry per key code.
pub open spec fn keymaps_ok(cv: ConfigView) -> bool {
    forall|i: int| 0 <= i < cv.layers.len() ==> (#[trigger] cv.layers[i]).keymap.len() == 256
}

/// The layer named `name` (created with type `lt` when there is none), and
/// the configuration after; an error when a new layer would exceed
/// `MAX_LAYERS`.
pub open spec fn create_layer_spec(cv: ConfigView, name: Seq<char>, lt: LayerType) -> (Result<int, Seq<char>>, ConfigView) {
    match layer_index(cv, name) {
        Some(i) => (Ok(i), cv),
        None => if cv.layers.len() >= MAX_LAYERS {
            (Err("max layers exceeded"@), cv)
        } else {
            (Ok(cv.layers.len() as int), ConfigView { layers: cv.layers.push(new_layer_view(name, lt)), ..cv })
        },
    }
}

pub open spec fn with_mods(cv: ConfigView, i: int, mods: u8) -> ConfigView {
    set_layer(cv, i, LayerView { mods, ..cv.layers[i] })
}

/// The sections that do not describe layers.
pub open spec fn is_special_section(name: Seq<char>) -> bool {
    name == "ids"@ || name == "global"@ || name == "aliases"@
}

/// The layer a section describes: the one named by the section's whole name.
pub open spec fn section_layer_name(name: Seq<char>) -> Seq<char> {
    name
}

/// Creating the layer of one section, named by the whole section name: a
/// composite layer where the name holds `+`, a plain layer otherwise.
pub open spec fn first_pass_section(cv: ConfigView, name: Seq<char>) -> (Result<(), Seq<char>>, ConfigView) {
    if is_special_section(name) {
        (Ok(()), cv)
    } else {
        let lt = if name.contains('+') { LayerType::Composite } else { LayerType::Normal };
        let (r, cv1) = create_layer_spec(cv, name, lt);
        match r {
            Ok(_) => (Ok(()), cv1),
            Err(e) => (Err(e), cv1),
        }
    }
}

/// Creating the layers of the sections `secs`, in order.
pub open spec fn first_pass(secs: Seq<IniSectionView>, cv: ConfigView) -> (Result<(), Seq<char>>, ConfigView)
    decreases secs.len(),
{
    if secs.len() == 0 {
        (Ok(()), cv)
    } else {
        let (r, cv1) = first_pass(secs.drop_last(), cv);
        match r {
            Err(e) => (Err(e), cv1),
            Ok(_) => first_pass_section(cv1, secs.last().name),
        }
    }
}

/// Creating a default layer `name` and giving it modifiers `mods`.
pub open spec fn default_layer(cv: ConfigView, name: Seq<char>, mods: u8) -> (Result<(), Seq<char>>, ConfigView) {
    let (r, cv1) = create_layer_spec(cv, name, LayerType::Normal);
    match r {
        Err(e) => (Err(e), cv1),
        Ok(i) => (Ok(()), with_mods(cv1, i, mods)),
    }
}

/// Creating the default layers: `main`, then `control`, `shift`, `alt`,
/// `meta` and `altgr` with their modifiers.
pub open spec fn default_layers(cv: ConfigView) -> (Result<(), Seq<char>>, ConfigView) {
    let (r0, cv0) = create_layer_spec(cv, "main"@, LayerType::Layout);
    if r0 is Err {
        (Err(r0->Err_0), cv0)
    } else {
        let (r1, cv1) = default_layer(cv0, "control"@, MOD_CTRL);
        if r1 is Err {
            (r1, cv1)
        } else {
            let (r2, cv2) = default_layer(cv1, "shift"@, MOD_SHIFT);
            if r2 is Err {
                (r2, cv2)
            } else {
                let (r3, cv3) = default_layer(cv2, "alt"@, MOD_ALT);
                if r3 is Err {
                    (r3, cv3)
                } else {
                    let (r4, cv4) = default_layer(cv3, "meta"@, MOD_SUPER);
                    if r4 is Err {
                        (r4, cv4)
                    } else {
                        default_layer(cv4, "altgr"@, MOD_ALT_GR)
                    }
                }
            }
        }
    }
}

/// An entry of `[ids]`: `*` matches every keyboard; `-id` excludes a device;
/// any other id names a keyboard.
pub open spec fn id_entry(cv: ConfigView, key: Seq<char>) -> ConfigView {
    if key == "*"@ {
        ConfigView { wildcard: 1, ..cv }
    } else if key.len() > 0 && key[0] == '-' {
        ConfigView { ids: cv.ids.push((key.drop_first(), ID_EXCLUDED)), ..cv }
    } else {
        ConfigView { ids: cv.ids.push((key, ID_KEYBOARD | ID_KEY)), ..cv }
    }
}

/// A number option: the signed number written, or 0.
pub open spec fn i64_arg(v: Seq<char>) -> i64 {
    match signed_value(v) {
        Some(x) => if i64::MIN <= x <= i64::MAX {
            x as i64
        } else {
            0
        },
        None => 0,
    }
}

/// A flag option: the number written (up to 255), or 0.
pub open spec fn u8_arg(v: Seq<char>) -> u8 {
    match unsigned_value(v) {
        Some(x) => if x <= 255 {
            x as u8
        } else {
            0
        },
        None => 0,
    }
}

/// An entry of `[global]`, and the number of warnings it gives (an unknown
/// option gives one).
pub open spec fn global_entry(cv: ConfigView, key: Seq<char>, val: Seq<char>) -> (ConfigView, nat) {
    if key == "macro_timeout"@ {
        (ConfigView { macro_timeout: i64_arg(val), ..cv }, 0)
    } else if key == "macro_sequence_timeout"@ {
        (ConfigView { macro_sequence_timeout: i64_arg(val), ..cv }, 0)
    } else if key == "macro_repeat_timeout"@ {
        (ConfigView { macro_repeat_timeout: i64_arg(val), ..cv }, 0)
    } else if key == "oneshot_timeout"@ {
        (ConfigView { oneshot_timeout: i64_arg(val), ..cv }, 0)
    } else if key == "overload_tap_timeout"@ {
        (ConfigView { overload_tap_timeout: i64_arg(val), ..cv }, 0)
    } else if key == "chord_timeout"@ || key == "chord_interkey_timeout"@ {
        (ConfigView { chord_interkey_timeout: i64_arg(val), ..cv }, 0)
    } else if key == "chord_hold_timeout"@ {
        (ConfigView { chord_hold_timeout: i64_arg(val), ..cv }, 0)
    } else if key == "layer_indicator"@ {
        (ConfigView { layer_indicator: u8_arg(val), ..cv }, 0)
    } else if key == "disable_modifier_guard"@ {
        (ConfigView { disable_modifier_guard: u8_arg(val), ..cv }, 0)
    } else if key == "default_layout"@ {
        (ConfigView { default_layout: val, ..cv }, 0)
    } else {
        (cv, 1)
    }
}

/// The layers `parts` of a composite layer (at most `MAX_CONSTITUENTS`),
/// each found or created.
pub open spec fn constituents_spec(parts: Seq<Seq<char>>, cv: ConfigView) -> (Result<Seq<usize>, Seq<char>>, ConfigView)
    decreases parts.len(),
{
    if parts.len() == 0 {
        (Ok(Seq::empty()), cv)
    } else {
        let (r, cv1) = constituents_spec(parts.drop_last(), cv);
        match r {
            Err(e) => (Err(e), cv1),
            Ok(cs) => if parts.len() > MAX_CONSTITUENTS {
                (Ok(cs), cv1)
            } else {
                let (r2, cv2) = create_layer_spec(cv1, parts.last(), LayerType::Normal);
                match r2 {
                    Err(e) => (Err(e), cv2),
                    Ok(i) => (Ok(cs.push(i as usize)), cv2),
                }
            },
        }
    }
}

/// The key codes of the `+`-separated parts of a chord that name keys, at
/// most `MAX_CONSTITUENTS` of them.
pub open spec fn chord_keys(parts: Seq<Seq<char>>) -> Seq<u8>
    decreases parts.len(),
{
    if parts.len() == 0 {
        Seq::empty()
    } else {
        let ks = chord_keys(parts.drop_last());
        if ks.len() >= MAX_CONSTITUENTS {
            ks
        } else {
            match key_sequence_spec(parts.last()) {
                Some((code, _)) => ks.push(code),
                None => ks,
            }
        }
    }
}

/// One entry of a layer section: `include` is skipped; `key = descriptor`
/// maps a key; `a+b = descriptor` adds a chord. Other entries are ignored.
pub open spec fn layer_entry(cv: ConfigView, li: int, e: IniEntryView) -> (Result<(), Seq<char>>, ConfigView) {
    if e.key == "include"@ {
        (Ok(()), cv)
    } else {
        match key_sequence_spec(e.key) {
            Some((code, _)) => match e.val {
                None => (Ok(()), cv),
                Some(v) => {
                    let (r, cv1) = descriptor_spec(v, cv);
                    match r {
                        Err(m) => (Err(m), cv1),
                        Ok(d) => (
                            Ok(()),
                            set_layer(cv1, li, LayerView { keymap: cv1.layers[li].keymap.update(code as int, d), ..cv1.layers[li] }),
                        ),
                    }
                },
            },
            None => if e.key.contains('+') {
                match e.val {
                    None => (Ok(()), cv),
                    Some(v) => {
                        let (r, cv1) = descriptor_spec(v, cv);
                        match r {
                            Err(m) => (Err(m), cv1),
                            Ok(d) => (
                                Ok(()),
                                set_layer(
                                    cv1,
                                    li,
                                    LayerView {
                                        chords: cv1.layers[li].chords.push(
                                            ChordView { keys: chord_keys(split_seq(e.key, '+')), d },
                                        ),
                                        ..cv1.layers[li]
                                    },
                                ),
                            ),
                        }
                    },
                }
            } else {
                (Ok(()), cv)
            },
        }
    }
}

/// The entries `es` of the section of layer `li`, in order.
pub open spec fn layer_entries(es: Seq<IniEntryView>, li: int, cv: ConfigView) -> (Result<(), Seq<char>>, ConfigView)
    decreases es.len(),
{
    if es.len() == 0 {
        (Ok(()), cv)
    } else {
        let (r, cv1) = layer_entries(es.drop_last(), li, cv);
        match r {
            Err(e) => (Err(e), cv1),
            Ok(_) => layer_entry(cv1, li, es.last()),
        }
    }
}

/// The entries `es` of `[global]`, and the warnings they give.
pub open spec fn global_entries(es: Seq<IniEntryView>, cv: ConfigView) -> (ConfigView, nat)
    decreases es.len(),
{
    if es.len() == 0 {
        (cv, 0)
    } else {
        let (cv1, w) = global_entries(es.drop_last(), cv);
        match es.last().val {
            Some(v) => {
                let (cv2, w2) = global_entry(cv1, es.last().key, v);
                (cv2, w + w2)
            },
            None => (cv1, w),
        }
    }
}

/// Law: in the `[global]` section, the last entry of a known option with a
/// value decides the field it names: the timeouts take the number written,
/// the flags the small number written, `default_layout` the text written; an
/// unknown option changes nothing and gives a warning.
pub proof fn law_global_option(es: Seq<IniEntryView>, e: IniEntryView, cv: ConfigView)
    requires
        e.val is Some,
    ensures
        ({
            let before = global_entries(es, cv);
            let after = global_entries(es.push(e), cv);
            let c = after.0;
            let v = e.val.unwrap();
            &&& (e.key == "macro_timeout"@ ==> c.macro_timeout == i64_arg(v))
            &&& (e.key == "macro_sequence_timeout"@ ==> c.macro_sequence_timeout == i64_arg(v))
            &&& (e.key == "macro_repeat_timeout"@ ==> c.macro_repeat_timeout == i64_arg(v))
            &&& (e.key == "oneshot_timeout"@ ==> c.oneshot_timeout == i64_arg(v))
            &&& (e.key == "overload_tap_timeout"@ ==> c.overload_tap_timeout == i64_arg(v))
            &&& (e.key == "chord_timeout"@ || e.key == "chord_interkey_timeout"@ ==> c.chord_interkey_timeout == i64_arg(v))
            &&& (e.key == "chord_hold_timeout"@ ==> c.chord_hold_timeout == i64_arg(v))
            &&& (e.key == "layer_indicator"@ ==> c.layer_indicator == u8_arg(v))
            &&& (e.key == "disable_modifier_guard"@ ==> c.disable_modifier_guard == u8_arg(v))
            &&& (e.key == "default_layout"@ ==> c.default_layout == v)
            &&& c.layers == before.0.layers
            &&& (after.1 == before.1 + 1 <==> c == before.0 && !(e.key == "macro_timeout"@ || e.key
                == "macro_sequence_timeout"@ || e.key == "macro_repeat_timeout"@ || e.key == "oneshot_timeout"@
                || e.key == "overload_tap_timeout"@ || e.key == "chord_timeout"@ || e.key == "chord_interkey_timeout"@
                || e.key == "chord_hold_timeout"@ || e.key == "layer_indicator"@ || e.key == "disable_modifier_guard"@
                || e.key == "default_layout"@))
        }),
{
    assert(es.push(e).drop_last() =~= es);
    reveal_strlit("macro_timeout");
    assert("macro_timeout"@.len() == 13 && "macro_timeout"@[0] == 'm');
    reveal_strlit("macro_sequence_timeout");
    assert("macro_sequence_timeout"@.len() == 22 && "macro_sequence_timeout"@[0] == 'm');
    reveal_strlit("macro_repeat_timeout");
    assert("macro_repeat_timeout"@.len() == 20 && "macro_repeat_timeout"@[0] == 'm');
    reveal_strlit("oneshot_timeout");
    assert("oneshot_timeout"@.len() == 15 && "oneshot_timeout"@[0] == 'o');
    reveal_strlit("overload_tap_timeout");
    assert("overload_tap_timeout"@.len() == 20 && "overload_tap_timeout"@[0] == 'o');
    reveal_strlit("chord_timeout");
    assert("chord_timeout"@.len() == 13 && "chord_timeout"@[0] == 'c');
    reveal_strlit("chord_interkey_timeout");
    assert("chord_interkey_timeout"@.len() == 22 && "chord_interkey_timeout"@[0] == 'c');
    reveal_strlit("chord_hold_timeout");
    assert("chord_hold_timeout"@.len() == 18 && "chord_hold_timeout"@[0] == 'c');
    reveal_strlit("layer_indicator");
    assert("layer_indicator"@.len() == 15 && "layer_indicator"@[0] == 'l');
    reveal_strlit("disable_modifier_guard");
    assert("disable_modifier_guard"@.len() == 22 && "disable_modifier_guard"@[0] == 'd');
    reveal_strlit("default_layout");
    assert("default_layout"@.len() == 14 && "default_layout"@[0] == 'd');
}

/// Law: a number written in decimal is the value an option takes.
pub proof fn law_i64_arg_digits(v: Seq<char>, n: int)
    requires
        signed_value(v) == Some(n),
        i64::MIN <= n <= i64::MAX,
    ensures
        i64_arg(v) == n,
{
}

/// The entries `es` of `[ids]`.
pub open spec fn id_entries(es: Seq<IniEntryView>, cv: ConfigView) -> ConfigView
    decreases es.len(),
{
    if es.len() == 0 {
        cv
    } else {
        id_entry(id_entries(es.drop_last(), cv), es.last().key)
    }
}

/// The entries `es` of `[aliases]` (those with a value).
pub open spec fn alias_entries(es: Seq<IniEntryView>, cv: ConfigView) -> ConfigView
    decreases es.len(),
{
    if es.len() == 0 {
        cv
    } else {
        let cv1 = alias_entries(es.drop_last(), cv);
        match es.last().val {
            Some(v) => ConfigView { aliases: cv1.aliases.push((es.last().key, v)), ..cv1 },
            None => cv1,
        }
    }
}

/// One section, and the warnings it gives.
pub open spec fn section_spec(sec: IniSectionView, cv: ConfigView) -> (Result<nat, Seq<char>>, ConfigView) {
    if sec.name == "ids"@ {
        (Ok(0), id_entries(sec.entries, cv))
    } else if sec.name == "global"@ {
        let (cv1, w) = global_entries(sec.entries, cv);
        (Ok(w), cv1)
    } else if sec.name == "aliases"@ {
        (Ok(0), alias_entries(sec.entries, cv))
    } else {
        match layer_index(cv, section_layer_name(sec.name)) {
            None => (Ok(0), cv),
            Some(li) => {
                let (rc, cv1) = if sec.name.contains('+') {
                    let (r, c1) = constituents_spec(split_seq(sec.name, '+'), cv);
                    match r {
                        Err(e) => (Err(e), c1),
                        Ok(cs) => (Ok(()), set_layer(c1, li, LayerView { constituents: cs, ..c1.layers[li] })),
                    }
                } else {
                    (Ok(()), cv)
                };
                match rc {
                    Err(e) => (Err(e), cv1),
                    Ok(_) => {
                        let (r2, cv2) = layer_entries(sec.entries, li, cv1);
                        match r2 {
                            Err(e) => (Err(e), cv2),
                            Ok(_) => (Ok(0), cv2),
                        }
                    },
                }
            },
        }
    }
}

/// The sections `secs`, in order, and the warnings they give.
pub open spec fn sections_spec(secs: Seq<IniSectionView>, cv: ConfigView) -> (Result<nat, Seq<char>>, ConfigView)
    decreases secs.len(),
{
    if secs.len() == 0 {
        (Ok(0), cv)
    } else {
        let (r, cv1) = sections_spec(secs.drop_last(), cv);
        match r {
            Err(e) => (Err(e), cv1),
            Ok(w) => {
                let (r2, cv2) = section_spec(secs.last(), cv1);
                match r2 {
                    Err(e) => (Err(e), cv2),
                    Ok(w2) => (Ok(w + w2), cv2),
                }
            },
        }
    }
}

/// The first mapping of key `code` in the keymaps `cons` of `keymaps`.
pub open spec fn first_mapped(keymaps: Seq<Seq<Descriptor>>, cons: Seq<usize>, code: int) -> Option<Descriptor>
    decreases cons.len(),
{
    if cons.len() == 0 {
        None
    } else if cons[0] < keymaps.len() && 0 <= code < keymaps[cons[0] as int].len() && is_mapped(keymaps[cons[0] as int][code]) {
        Some(keymaps[cons[0] as int][code])
    } else {
        first_mapped(keymaps, cons.drop_first(), code)
    }
}

/// A composite layer maps every key it leaves unmapped as its first
/// constituent that maps it does (`keymaps` are the keymaps of all layers).
pub open spec fn inherit_layer(keymaps: Seq<Seq<Descriptor>>, l: LayerView) -> LayerView {
    if l.layer_type == LayerType::Composite {
        LayerView {
            keymap: Seq::new(
                l.keymap.len(),
                |c: int| if is_mapped(l.keymap[c]) {
                    l.keymap[c]
                } else {
                    match first_mapped(keymaps, l.constituents, c) {
                        Some(d) => d,
                        None => l.keymap[c],
                    }
                },
            ),
            ..l
        }
    } else {
        l
    }
}

pub open spec fn keymaps_of(cv: ConfigView) -> Seq<Seq<Descriptor>> {
    cv.layers.map_values(|l: LayerView| l.keymap)
}

pub open spec fn inherit_spec(cv: ConfigView) -> ConfigView {
    ConfigView { layers: cv.layers.map_values(|l: LayerView| inherit_layer(keymaps_of(cv), l)), ..cv }
}

/// Parsing configuration text into `cv`: the layers of all sections are
/// created first, then the default layers, then every section is read in
/// order; finally composite layers inherit the mappings of their
/// constituents. The result is the number of warnings, or the first error.
pub open spec fn config_parse_spec(cv: ConfigView, content: Seq<char>) -> (Result<nat, Seq<char>>, ConfigView) {
    match ini_spec(content) {
        None => (Err("failed to parse INI"@), cv),
        Some(secs) => {
            let (r1, cv1) = first_pass(secs, cv);
            match r1 {
                Err(e) => (Err(e), cv1),
                Ok(_) => {
                    let (r2, cv2) = default_layers(cv1);
                    match r2 {
                        Err(e) => (Err(e), cv2),
                        Ok(_) => {
                            let (r3, cv3) = sections_spec(secs, cv2);
                            match r3 {
                                Err(e) => (Err(e), cv3),
                                Ok(w) => (Ok(w), inherit_spec(cv3)),
                            }
                        },
                    }
                },
            }
        },
    }
}


/// An exec result agrees with a spec result.
pub open spec fn unit_res(r: Result<(), String>, s: Result<(), Seq<char>>) -> bool {
    match (r, s) {
        (Ok(_), Ok(_)) => true,
        (Err(m), Err(e)) => m@ == e,
        _ => false,
    }
}

fn create_layer(config: &mut Config, name: &[char], lt: LayerType) -> (r: Result<usize, String>)
    requires
        keymaps_ok(old(config)@),
    ensures
        ({
            let (s, cv) = create_layer_spec(old(config)@, name@, lt);
            &&& final(config)@ == cv
            &&& keymaps_ok(cv)
            &&& match (r, s) {
                (Ok(i), Ok(j)) => i == j && i < final(config).layers@.len(),
                (Err(m), Err(e)) => m@ == e,
                _ => false,
            }
        }),
{
    match find_layer(config, name) {
        Some(i) => Ok(i),
        None => {
            if config.layers.len() >= MAX_LAYERS {
                Err(String::from_str("max layers exceeded"))
            } else {
                let idx = config.layers.len();
                let l = Layer::new(string_from_chars(name), lt);
                config.layers.push(l);
                assert(config@.layers =~= old(config)@.layers.push(new_layer_view(name@, lt)));
                assert(config@ =~= create_layer_spec(old(config)@, name@, lt).1);
                Ok(idx)
            }
        },
    }
}

fn set_mods(config: &mut Config, i: usize, mods: u8)
    requires
        i < old(config).layers@.len(),
        keymaps_ok(old(config)@),
    ensures
        final(config)@ == with_mods(old(config)@, i as int, mods),
        keymaps_ok(final(config)@),
{
    config.layers[i].mods = mods;
    assert(config@.layers =~= with_mods(old(config)@, i as int, mods).layers);
    assert(config@ =~= with_mods(old(config)@, i as int, mods));
}

fn first_pass_section_exec(config: &mut Config, name: &[char]) -> (r: Result<(), String>)
    requires
        keymaps_ok(old(config)@),
    ensures
        ({
            let (s, cv) = first_pass_section(old(config)@, name@);
            final(config)@ == cv && keymaps_ok(cv) && unit_res(r, s)
        }),
{
    if chars_eq_str(name, "ids") || chars_eq_str(name, "global") || chars_eq_str(name, "aliases") {
        return Ok(());
    }
    let lt = if contains_char(name, '+') { LayerType::Composite } else { LayerType::Normal };
    match create_layer(config, name, lt) {
        Ok(_) => Ok(()),
        Err(e) => Err(e),
    }
}

proof fn lemma_first_pass_err_stays(secs: Seq<IniSectionView>, cv: ConfigView, j: int)
    requires
        0 <= j <= secs.len(),
        first_pass(secs.take(j), cv).0 is Err,
    ensures
        first_pass(secs, cv) == first_pass(secs.take(j), cv),
    decreases secs.len() - j,
{
    if j < secs.len() {
        assert(secs.take(j + 1).drop_last() =~= secs.take(j));
        lemma_first_pass_err_stays(secs, cv, j + 1);
    } else {
        assert(secs.take(j) =~= secs);
    }
}

fn first_pass_exec(ini: &Vec<IniSection>, config: &mut Config) -> (r: Result<(), String>)
    requires
        keymaps_ok(old(config)@),
    ensures
        ({
            let (s, cv) = first_pass(ini@.map_values(|x: IniSection| x@), old(config)@);
            final(config)@ == cv && keymaps_ok(cv) && unit_res(r, s)
        }),
{
    let ghost secs = ini@.map_values(|x: IniSection| x@);
    let ghost cv0 = config@;
    let mut k: usize = 0;
    assert(secs.take(0) =~= Seq::<IniSectionView>::empty());
    while k < ini.len()
        invariant
            k <= ini@.len(),
            secs == ini@.map_values(|x: IniSection| x@),
            first_pass(secs.take(k as int), cv0) == (Ok::<(), Seq<char>>(()), config@),
            cv0 == old(config)@,
            keymaps_ok(config@),
        decreases ini.len() - k,
    {
        assert(secs.take(k + 1).drop_last() =~= secs.take(k as int));
        let name = str_chars(ini[k].name.as_str());
        assert(secs.take(k + 1).last().name == name@);
        let r = first_pass_section_exec(config, name.as_slice());
        match r {
            Err(e) => {
                proof {
                    assert(first_pass(secs.take(k + 1), cv0).0 is Err);
                    lemma_first_pass_err_stays(secs, cv0, k + 1);
                }
                return Err(e);
            },
            Ok(_) => {},
        }
        k = k + 1;
    }
    assert(secs.take(ini@.len() as int) =~= secs);
    Ok(())
}

fn default_layer_exec(config: &mut Config, name: &str, mods: u8) -> (r: Result<(), String>)
    requires
        keymaps_ok(old(config)@),
    ensures
        ({
            let (s, cv) = default_layer(old(config)@, name@, mods);
            final(config)@ == cv && keymaps_ok(cv) && unit_res(r, s)
        }),
{
    let v = str_chars(name);
    match create_layer(config, v.as_slice(), LayerType::Normal) {
        Err(e) => Err(e),
        Ok(i) => {
            set_mods(config, i, mods);
            Ok(())
        },
    }
}

fn default_layers_exec(config: &mut Config) -> (r: Result<(), String>)
    requires
        keymaps_ok(old(config)@),
    ensures
        ({
            let (s, cv) = default_layers(old(config)@);
            final(config)@ == cv && keymaps_ok(cv) && unit_res(r, s)
        }),
{
    let main = str_chars("main");
    match create_layer(config, main.as_slice(), LayerType::Layout) {
        Err(e) => {
            return Err(e);
        },
        Ok(_) => {},
    }
    match default_layer_exec(config, "control", MOD_CTRL) {
        Err(e) => {
            return Err(e);
        },
        Ok(_) => {},
    }
    match default_layer_exec(config, "shift", MOD_SHIFT) {
        Err(e) => {
            return Err(e);
        },
        Ok(_) => {},
    }
    match default_layer_exec(config, "alt", MOD_ALT) {
        Err(e) => {
            return Err(e);
        },
        Ok(_) => {},
    }
    match default_layer_exec(config, "meta", MOD_SUPER) {
        Err(e) => {
            return Err(e);
        },
        Ok(_) => {},
    }
    default_layer_exec(config, "altgr", MOD_ALT_GR)
}


pub open spec fn entries_view(es: Seq<IniEntry>) -> Seq<IniEntryView> {
    es.map_values(|e: IniEntry| e@)
}

fn id_entries_exec(config: &mut Config, es: &Vec<IniEntry>)
    requires
        keymaps_ok(old(config)@),
    ensures
        final(config)@ == id_entries(entries_view(es@), old(config)@),
        keymaps_ok(final(config)@),
{
    let ghost ev = entries_view(es@);
    let mut k: usize = 0;
    assert(ev.take(0) =~= Seq::<IniEntryView>::empty());
    while k < es.len()
        invariant
            k <= es@.len(),
            ev == entries_view(es@),
            config@ == id_entries(ev.take(k as int), old(config)@),
            keymaps_ok(config@),
        decreases es.len() - k,
    {
        assert(ev.take(k + 1).drop_last() =~= ev.take(k as int));
        let key = str_chars(es[k].key.as_str());
        assert(ev.take(k + 1).last().key == key@);
        let ghost before = config@;
        if chars_eq_str(key.as_slice(), "*") {
            config.wildcard = 1;
            assert(config@ =~= id_entry(before, key@));
        } else if key.len() > 0 && key[0] == '-' {
            let rest = sub_chars(key.as_slice(), 1, key.len());
            assert(rest@ == key@.drop_first());
            config.ids.push(ConfigId { id: string_from_chars(rest.as_slice()), flags: ID_EXCLUDED });
            assert(config@.ids =~= before.ids.push((key@.drop_first(), ID_EXCLUDED)));
            assert(config@ =~= id_entry(before, key@));
        } else {
            config.ids.push(ConfigId { id: string_from_chars(key.as_slice()), flags: ID_KEYBOARD | ID_KEY });
            assert(config@.ids =~= before.ids.push((key@, ID_KEYBOARD | ID_KEY)));
            assert(config@ =~= id_entry(before, key@));
        }
        k = k + 1;
    }
    assert(ev.take(es@.len() as int) =~= ev);
}

fn alias_entries_exec(config: &mut Config, es: &Vec<IniEntry>)
    requires
        keymaps_ok(old(config)@),
    ensures
        final(config)@ == alias_entries(entries_view(es@), old(config)@),
        keymaps_ok(final(config)@),
{
    let ghost ev = entries_view(es@);
    let mut k: usize = 0;
    assert(ev.take(0) =~= Seq::<IniEntryView>::empty());
    while k < es.len()
        invariant
            k <= es@.len(),
            ev == entries_view(es@),
            config@ == alias_entries(ev.take(k as int), old(config)@),
            keymaps_ok(config@),
        decreases es.len() - k,
    {
        assert(ev.take(k + 1).drop_last() =~= ev.take(k as int));
        let ghost before = config@;
        match &es[k].val {
            Some(v) => {
                let pair = (es[k].key.clone(), v.clone());
                config.aliases.push(pair);
                assert(config@.aliases =~= before.aliases.push((es@[k as int].key@, v@)));
                assert(config@ =~= alias_entries(ev.take(k + 1), old(config)@));
            },
            None => {},
        }
        k = k + 1;
    }
    assert(ev.take(es@.len() as int) =~= ev);
}

fn i64_arg_exec(v: &[char]) -> (r: i64)
    ensures
        r == i64_arg(v@),
{
    match parse_i64(v) {
        Some(x) => x,
        None => 0,
    }
}

fn u8_arg_exec(v: &[char]) -> (r: u8)
    ensures
        r == u8_arg(v@),
{
    match parse_unsigned(v, 255) {
        Some(x) => x as u8,
        None => 0,
    }
}

fn global_entry_exec(config: &mut Config, key: &[char], val: &[char]) -> (w: usize)
    requires
        keymaps_ok(old(config)@),
    ensures
        (final(config)@, w as nat) == global_entry(old(config)@, key@, val@),
        keymaps_ok(final(config)@),
{
    if chars_eq_str(key, "macro_timeout") {
        config.macro_timeout = i64_arg_exec(val);
    } else if chars_eq_str(key, "macro_sequence_timeout") {
        config.macro_sequence_timeout = i64_arg_exec(val);
    } else if chars_eq_str(key, "macro_repeat_timeout") {
        config.macro_repeat_timeout = i64_arg_exec(val);
    } else if chars_eq_str(key, "oneshot_timeout") {
        config.oneshot_timeout = i64_arg_exec(val);
    } else if chars_eq_str(key, "overload_tap_timeout") {
        config.overload_tap_timeout = i64_arg_exec(val);
    } else if chars_eq_str(key, "chord_timeout") || chars_eq_str(key, "chord_interkey_timeout") {
        config.chord_interkey_timeout = i64_arg_exec(val);
    } else if chars_eq_str(key, "chord_hold_timeout") {
        config.chord_hold_timeout = i64_arg_exec(val);
    } else if chars_eq_str(key, "layer_indicator") {
        config.layer_indicator = u8_arg_exec(val);
    } else if chars_eq_str(key, "disable_modifier_guard") {
        config.disable_modifier_guard = u8_arg_exec(val);
    } else if chars_eq_str(key, "default_layout") {
        config.default_layout = string_from_chars(val);
    } else {
        return 1;
    }
    assert(config@ =~= global_entry(old(config)@, key@, val@).0);
    0
}

/// `a + b`, or `usize::MAX` when that is larger.
pub open spec fn sat(n: nat) -> usize {
    if n > usize::MAX {
        usize::MAX
    } else {
        n as usize
    }
}

fn global_entries_exec(config: &mut Config, es: &Vec<IniEntry>) -> (w: usize)
    requires
        keymaps_ok(old(config)@),
    ensures
        final(config)@ == global_entries(entries_view(es@), old(config)@).0,
        w == sat(global_entries(entries_view(es@), old(config)@).1),
        keymaps_ok(final(config)@),
{
    let ghost ev = entries_view(es@);
    let mut w: usize = 0;
    let mut k: usize = 0;
    assert(ev.take(0) =~= Seq::<IniEntryView>::empty());
    while k < es.len()
        invariant
            k <= es@.len(),
            ev == entries_view(es@),
            config@ == global_entries(ev.take(k as int), old(config)@).0,
            w == sat(global_entries(ev.take(k as int), old(config)@).1),
            keymaps_ok(config@),
        decreases es.len() - k,
    {
        assert(ev.take(k + 1).drop_last() =~= ev.take(k as int));
        match &es[k].val {
            Some(v) => {
                let key = str_chars(es[k].key.as_str());
                let val = str_chars(v.as_str());
                let w2 = global_entry_exec(config, key.as_slice(), val.as_slice());
                w = w.saturating_add(w2);
            },
            None => {},
        }
        k = k + 1;
    }
    assert(ev.take(es@.len() as int) =~= ev);
    w
}

proof fn lemma_constituents_err_stays(parts: Seq<Seq<char>>, cv: ConfigView, j: int)
    requires
        0 <= j <= parts.len(),
        constituents_spec(parts.take(j), cv).0 is Err,
    ensures
        constituents_spec(parts, cv) == constituents_spec(parts.take(j), cv),
    decreases parts.len() - j,
{
    if j < parts.len() {
        assert(parts.take(j + 1).drop_last() =~= parts.take(j));
        lemma_constituents_err_stays(parts, cv, j + 1);
    } else {
        assert(parts.take(j) =~= parts);
    }
}

fn constituents_exec(config: &mut Config, parts: &Vec<Vec<char>>) -> (r: Result<Vec<usize>, String>)
    requires
        keymaps_ok(old(config)@),
    ensures
        ({
            let (s, cv) = constituents_spec(views_of(parts@), old(config)@);
            &&& final(config)@ == cv
            &&& keymaps_ok(cv)
            &&& final(config).layers@.len() >= old(config).layers@.len()
            &&& match (r, s) {
                (Ok(v), Ok(w)) => v@ == w,
                (Err(m), Err(e)) => m@ == e,
                _ => false,
            }
        }),
{
    let ghost pv = views_of(parts@);
    let mut cs: Vec<usize> = Vec::new();
    let mut k: usize = 0;
    assert(pv.take(0) =~= Seq::<Seq<char>>::empty());
    while k < parts.len()
        invariant
            k <= parts@.len(),
            pv == views_of(parts@),
            constituents_spec(pv.take(k as int), old(config)@) == (Ok::<Seq<usize>, Seq<char>>(cs@), config@),
            keymaps_ok(config@),
            config.layers@.len() >= old(config).layers@.len(),
            cs@.len() <= k,
            cs@.len() <= MAX_CONSTITUENTS,
        decreases parts.len() - k,
    {
        assert(pv.take(k + 1).drop_last() =~= pv.take(k as int));
        if k + 1 <= MAX_CONSTITUENTS {
            match create_layer(config, parts[k].as_slice(), LayerType::Normal) {
                Err(e) => {
                    proof {
                        lemma_constituents_err_stays(pv, old(config)@, k + 1);
                        assert(pv.take(parts@.len() as int) =~= pv);
                    }
                    return Err(e);
                },
                Ok(i) => {
                    cs.push(i);
                },
            }
        }
        k = k + 1;
    }
    assert(pv.take(parts@.len() as int) =~= pv);
    Ok(cs)
}

fn chord_keys_exec(parts: &Vec<Vec<char>>) -> (r: Vec<u8>)
    ensures
        r@ == chord_keys(views_of(parts@)),
{
    let ghost pv = views_of(parts@);
    let mut ks: Vec<u8> = Vec::new();
    let mut k: usize = 0;
    assert(pv.take(0) =~= Seq::<Seq<char>>::empty());
    while k < parts.len()
        invariant
            k <= parts@.len(),
            pv == views_of(parts@),
            chord_keys(pv.take(k as int)) == ks@,
        decreases parts.len() - k,
    {
        assert(pv.take(k + 1).drop_last() =~= pv.take(k as int));
        if ks.len() < MAX_CONSTITUENTS {
            match parse_key_sequence_chars(parts[k].as_slice()) {
                Some((code, _)) => {
                    ks.push(code);
                },
                None => {},
            }
        }
        k = k + 1;
    }
    assert(pv.take(parts@.len() as int) =~= pv);
    ks
}

fn layer_entry_exec(config: &mut Config, li: usize, e: &IniEntry) -> (r: Result<(), String>)
    requires
        keymaps_ok(old(config)@),
        li < old(config).layers@.len(),
    ensures
        ({
            let (s, cv) = layer_entry(old(config)@, li as int, e@);
            final(config)@ == cv && keymaps_ok(cv) && unit_res(r, s)
        }),
        final(config).layers@.len() == old(config).layers@.len(),
{
    let key = str_chars(e.key.as_str());
    if chars_eq_str(key.as_slice(), "include") {
        return Ok(());
    }
    match parse_key_sequence_chars(key.as_slice()) {
        Some((code, _)) => match &e.val {
            None => Ok(()),
            Some(v) => {
                let vc = str_chars(v.as_str());
                let r = parse_descriptor(vc.as_slice(), config);
                match r {
                    Err(m) => Err(m),
                    Ok(d) => {
                        assert(config@.layers[li as int] == config.layers@[li as int]@);
                        set_keymap(config, li, code, d);
                        assert(keymaps_ok(config@));
                        Ok(())
                    },
                }
            },
        },
        None => {
            if contains_char(key.as_slice(), '+') {
                match &e.val {
                    None => Ok(()),
                    Some(v) => {
                        let vc = str_chars(v.as_str());
                        let r = parse_descriptor(vc.as_slice(), config);
                        match r {
                            Err(m) => Err(m),
                            Ok(d) => {
                                let parts = split_chars(key.as_slice(), '+');
                                let keys = chord_keys_exec(&parts);
                                let ghost before = config@;
                                let chord = Chord { keys, d };
                                config.layers[li].chords.push(chord);
                                assert(config@.layers[li as int].chords =~= before.layers[li as int].chords.push(chord@));
                                assert(config@.layers =~= layer_entry(old(config)@, li as int, e@).1.layers);
                                assert(config@ =~= layer_entry(old(config)@, li as int, e@).1);
                                Ok(())
                            },
                        }
                    },
                }
            } else {
                Ok(())
            }
        },
    }
}

proof fn lemma_layer_entries_err_stays(es: Seq<IniEntryView>, li: int, cv: ConfigView, j: int)
    requires
        0 <= j <= es.len(),
        layer_entries(es.take(j), li, cv).0 is Err,
    ensures
        layer_entries(es, li, cv) == layer_entries(es.take(j), li, cv),
    decreases es.len() - j,
{
    if j < es.len() {
        assert(es.take(j + 1).drop_last() =~= es.take(j));
        lemma_layer_entries_err_stays(es, li, cv, j + 1);
    } else {
        assert(es.take(j) =~= es);
    }
}

fn layer_entries_exec(config: &mut Config, li: usize, es: &Vec<IniEntry>) -> (r: Result<(), String>)
    requires
        keymaps_ok(old(config)@),
        li < old(config).layers@.len(),
    ensures
        ({
            let (s, cv) = layer_entries(entries_view(es@), li as int, old(config)@);
            final(config)@ == cv && keymaps_ok(cv) && unit_res(r, s)
        }),
        final(config).layers@.len() == old(config).layers@.len(),
{
    let ghost ev = entries_view(es@);
    let mut k: usize = 0;
    assert(ev.take(0) =~= Seq::<IniEntryView>::empty());
    while k < es.len()
        invariant
            k <= es@.len(),
            ev == entries_view(es@),
            layer_entries(ev.take(k as int), li as int, old(config)@) == (Ok::<(), Seq<char>>(()), config@),
            keymaps_ok(config@),
            li < config.layers@.len(),
            config.layers@.len() == old(config).layers@.len(),
        decreases es.len() - k,
    {
        assert(ev.take(k + 1).drop_last() =~= ev.take(k as int));
        let r = layer_entry_exec(config, li, &es[k]);
        match r {
            Err(m) => {
                proof {
                    lemma_layer_entries_err_stays(ev, li as int, old(config)@, k + 1);
                    assert(ev.take(es@.len() as int) =~= ev);
                }
                return Err(m);
            },
            Ok(_) => {},
        }
        k = k + 1;
    }
    assert(ev.take(es@.len() as int) =~= ev);
    Ok(())
}


/// The layer a section describes (see `section_layer_name`).
fn section_layer_name_exec(name: &[char]) -> (r: Vec<char>)
    ensures
        r@ == section_layer_name(name@),
{
    sub_chars(name, 0, name.len())
}

fn section_exec(config: &mut Config, sec: &IniSection) -> (r: Result<usize, String>)
    requires
        keymaps_ok(old(config)@),
    ensures
        ({
            let (s, cv) = section_spec(sec@, old(config)@);
            &&& final(config)@ == cv
            &&& keymaps_ok(cv)
            &&& match (r, s) {
                (Ok(w), Ok(w2)) => w == sat(w2),
                (Err(m), Err(e)) => m@ == e,
                _ => false,
            }
        }),
{
    let name = str_chars(sec.name.as_str());
    if chars_eq_str(name.as_slice(), "ids") {
        id_entries_exec(config, &sec.entries);
        return Ok(0);
    }
    if chars_eq_str(name.as_slice(), "global") {
        let w = global_entries_exec(config, &sec.entries);
        return Ok(w);
    }
    if chars_eq_str(name.as_slice(), "aliases") {
        alias_entries_exec(config, &sec.entries);
        return Ok(0);
    }
    let lname = section_layer_name_exec(name.as_slice());
    match find_layer(config, lname.as_slice()) {
        None => Ok(0),
        Some(li) => {
            if contains_char(name.as_slice(), '+') {
                let parts = split_chars(name.as_slice(), '+');
                match constituents_exec(config, &parts) {
                    Err(e) => {
                        return Err(e);
                    },
                    Ok(cs) => {
                        let ghost before = config@;
                        config.layers[li].constituents = cs;
                        assert(config@.layers =~= set_layer(before, li as int, LayerView { constituents: cs@, ..before.layers[li as int] }).layers);
                        assert(config@ =~= set_layer(before, li as int, LayerView { constituents: cs@, ..before.layers[li as int] }));
                    },
                }
            }
            match layer_entries_exec(config, li, &sec.entries) {
                Err(e) => Err(e),
                Ok(_) => Ok(0),
            }
        },
    }
}

proof fn lemma_sections_err_stays(secs: Seq<IniSectionView>, cv: ConfigView, j: int)
    requires
        0 <= j <= secs.len(),
        sections_spec(secs.take(j), cv).0 is Err,
    ensures
        sections_spec(secs, cv) == sections_spec(secs.take(j), cv),
    decreases secs.len() - j,
{
    if j < secs.len() {
        assert(secs.take(j + 1).drop_last() =~= secs.take(j));
        lemma_sections_err_stays(secs, cv, j + 1);
    } else {
        assert(secs.take(j) =~= secs);
    }
}

fn sections_exec(ini: &Vec<IniSection>, config: &mut Config) -> (r: Result<usize, String>)
    requires
        keymaps_ok(old(config)@),
    ensures
        ({
            let (s, cv) = sections_spec(ini@.map_values(|x: IniSection| x@), old(config)@);
            &&& final(config)@ == cv
            &&& keymaps_ok(cv)
            &&& match (r, s) {
                (Ok(w), Ok(w2)) => w == sat(w2),
                (Err(m), Err(e)) => m@ == e,
                _ => false,
            }
        }),
{
    let ghost secs = ini@.map_values(|x: IniSection| x@);
    let ghost cv0 = config@;
    let mut w: usize = 0;
    let mut k: usize = 0;
    assert(secs.take(0) =~= Seq::<IniSectionView>::empty());
    while k < ini.len()
        invariant
            k <= ini@.len(),
            secs == ini@.map_values(|x: IniSection| x@),
            cv0 == old(config)@,
            sections_spec(secs.take(k as int), cv0).1 == config@,
            sections_spec(secs.take(k as int), cv0).0 matches Ok(wt) && w == sat(wt),
            keymaps_ok(config@),
        decreases ini.len() - k,
    {
        assert(secs.take(k + 1).drop_last() =~= secs.take(k as int));
        let r = section_exec(config, &ini[k]);
        match r {
            Err(e) => {
                proof {
                    lemma_sections_err_stays(secs, cv0, k + 1);
                }
                return Err(e);
            },
            Ok(w2) => {
                w = w.saturating_add(w2);
            },
        }
        k = k + 1;
    }
    assert(secs.take(ini@.len() as int) =~= secs);
    Ok(w)
}

fn first_mapped_exec(snap: &Vec<Vec<Descriptor>>, cons: &Vec<usize>, code: usize) -> (r: Option<Descriptor>)
    ensures
        r == first_mapped(snap@.map_values(|v: Vec<Descriptor>| v@), cons@, code as int),
{
    let ghost km = snap@.map_values(|v: Vec<Descriptor>| v@);
    let mut j: usize = 0;
    assert(cons@.skip(0) =~= cons@);
    while j < cons.len()
        invariant
            j <= cons@.len(),
            km == snap@.map_values(|v: Vec<Descriptor>| v@),
            first_mapped(km, cons@, code as int) == first_mapped(km, cons@.skip(j as int), code as int),
        decreases cons.len() - j,
    {
        assert(cons@.skip(j as int).drop_first() =~= cons@.skip(j + 1));
        let li = cons[j];
        if li < snap.len() && code < snap[li].len() && snap[li][code].mapped() {
            return Some(snap[li][code]);
        }
        j = j + 1;
    }
    None
}

fn inherit_exec(config: &mut Config)
    requires
        keymaps_ok(old(config)@),
    ensures
        final(config)@ == inherit_spec(old(config)@),
        keymaps_ok(final(config)@),
{
    let n = config.layers.len();
    let mut snap: Vec<Vec<Descriptor>> = Vec::new();
    let mut i: usize = 0;
    while i < n
        invariant
            i <= n == config.layers@.len(),
            config@ == old(config)@,
            snap@.map_values(|v: Vec<Descriptor>| v@) =~= keymaps_of(config@).take(i as int),
        decreases n - i,
    {
        let mut km: Vec<Descriptor> = Vec::new();
        let src = &config.layers[i].keymap;
        let mut c: usize = 0;
        while c < src.len()
            invariant
                c <= src@.len(),
                km@ =~= src@.take(c as int),
            decreases src.len() - c,
        {
            km.push(src[c]);
            c = c + 1;
        }
        assert(src@.take(src@.len() as int) =~= src@);
        assert(config@.layers[i as int].keymap == src@);
        let ghost before = snap@.map_values(|v: Vec<Descriptor>| v@);
        snap.push(km);
        assert(snap@.map_values(|v: Vec<Descriptor>| v@) =~= before.push(km@));
        assert(keymaps_of(config@).take(i + 1) =~= keymaps_of(config@).take(i as int).push(config@.layers[i as int].keymap));
        i = i + 1;
    }
    assert(keymaps_of(config@).take(n as int) =~= keymaps_of(config@));
    let ghost km0 = keymaps_of(config@);
    let ghost cv0 = config@;
    let mut i: usize = 0;
    while i < n
        invariant
            i <= n == config.layers@.len(),
            cv0 == old(config)@,
            km0 == keymaps_of(cv0),
            snap@.map_values(|v: Vec<Descriptor>| v@) == km0,
            keymaps_ok(cv0),
            keymaps_ok(config@),
            config@ == (ConfigView { layers: config@.layers, ..cv0 }),
            config@.layers.len() == cv0.layers.len(),
            forall|j: int| 0 <= j < i ==> config@.layers[j] == inherit_layer(km0, cv0.layers[j]),
            forall|j: int| i <= j < n ==> config@.layers[j] == cv0.layers[j],
        decreases n - i,
    {
        if config.layers[i].layer_type == LayerType::Composite {
            let mut c: usize = 0;
            let ghost l0 = cv0.layers[i as int];
            while c < 256
                invariant
                    c <= 256,
                    i < n == config.layers@.len(),
                    km0 == keymaps_of(cv0),
                    snap@.map_values(|v: Vec<Descriptor>| v@) == km0,
                    l0 == cv0.layers[i as int],
                    l0.layer_type == LayerType::Composite,
                    l0.keymap.len() == 256,
                    config@ == (ConfigView { layers: config@.layers, ..cv0 }),
                    config@.layers.len() == cv0.layers.len(),
                    forall|j: int| 0 <= j < i ==> config@.layers[j] == inherit_layer(km0, cv0.layers[j]),
                    forall|j: int| i < j < n ==> config@.layers[j] == cv0.layers[j],
                    config@.layers[i as int] == (LayerView { keymap: config@.layers[i as int].keymap, ..l0 }),
                    config@.layers[i as int].keymap.len() == 256,
                    forall|k: int| 0 <= k < c ==> config@.layers[i as int].keymap[k] == #[trigger] inherit_layer(km0, l0).keymap[k],
                    forall|k: int| c <= k < 256 ==> config@.layers[i as int].keymap[k] == l0.keymap[k],
                decreases 256 - c,
            {
                assert(config.layers@[i as int].keymap@[c as int] == l0.keymap[c as int]);
                if !config.layers[i].keymap[c].mapped() {
                    assert(config.layers@[i as int].constituents@ == l0.constituents);
                    let found = first_mapped_exec(&snap, &config.layers[i].constituents, c);
                    match found {
                        Some(d) => {
                            let ghost before = config@;
                            config.layers[i].keymap[c] = d;
                            assert(config@.layers[i as int].keymap =~= before.layers[i as int].keymap.update(c as int, d));
                            assert(config@.layers =~= before.layers.update(i as int, LayerView { keymap: before.layers[i as int].keymap.update(c as int, d), ..before.layers[i as int] }));
                        },
                        None => {},
                    }
                }
                c = c + 1;
            }
            assert(config@.layers[i as int].keymap =~= inherit_layer(km0, l0).keymap);
        }
        i = i + 1;
    }
    assert(config@.layers =~= inherit_spec(cv0).layers);
    assert(config@ =~= inherit_spec(cv0));
}


/// Parses configuration text into `config` (see `config_parse_spec`); the
/// result is the number of warnings (saturating at `usize::MAX`), or the first
/// error. On an error, `config` holds what was read before it.
pub fn config_parse_string(config: &mut Config, content: &str) -> (r: Result<usize, String>)
    requires
        keymaps_ok(old(config)@),
    ensures
        ({
            let (s, cv) = config_parse_spec(old(config)@, content@);
            &&& final(config)@ == cv
            &&& keymaps_ok(cv)
            &&& match (r, s) {
                (Ok(w), Ok(w2)) => w == sat(w2),
                (Err(m), Err(e)) => m@ == e,
                _ => false,
            }
        }),
{
    let ini = match ini_parse_string(content) {
        Some(ini) => ini,
        None => {
            return Err(String::from_str("failed to parse INI"));
        },
    };
    match first_pass_exec(&ini.sections, config) {
        Err(e) => {
            return Err(e);
        },
        Ok(_) => {},
    }
    match default_layers_exec(config) {
        Err(e) => {
            return Err(e);
        },
        Ok(_) => {},
    }
    match sections_exec(&ini.sections, config) {
        Err(e) => Err(e),
        Ok(w) => {
            inherit_exec(config);
            Ok(w)
        },
    }
}

/// True when an id of `ids` equal to `id` has all the flags `f`.
pub open spec fn has_id(ids: Seq<(Seq<char>, u8)>, id: Seq<char>, excluded: bool) -> bool {
    exists|i: int| 0 <= i < ids.len() && ids[i].0 == id && ((ids[i].1 & ID_EXCLUDED != 0) == excluded)
}

/// How well device `id` matches the configuration: 0 when an id excludes it
/// or nothing names it, 2 when an id names it, 1 when only the wildcard
/// matches it.
pub open spec fn check_match_spec(cv: ConfigView, id: Seq<char>) -> i32 {
    if has_id(cv.ids, id, true) {
        0
    } else if has_id(cv.ids, id, false) {
        2
    } else if cv.wildcard != 0 {
        1
    } else {
        0
    }
}

/// How well device `id` matches the configuration (see `check_match_spec`).
/// The device's flags do not change the result.
pub fn config_check_match(config: &Config, id: &str, _flags: u8) -> (r: i32)
    ensures
        r == check_match_spec(config@, id@),
{
    let idv = str_chars(id);
    let mut named = false;
    let mut k: usize = 0;
    while k < config.ids.len()
        invariant
            k <= config.ids@.len(),
            idv@ == id@,
            forall|j: int| 0 <= j < k ==> !(config@.ids[j].0 == id@ && (config@.ids[j].1 & ID_EXCLUDED != 0)),
            named == (exists|j: int| 0 <= j < k && config@.ids[j].0 == id@ && (config@.ids[j].1 & ID_EXCLUDED == 0)),
        decreases config.ids.len() - k,
    {
        let e = &config.ids[k];
        assert(config@.ids[k as int] == (e.id@, e.flags));
        if chars_eq_str(idv.as_slice(), e.id.as_str()) {
            if e.flags & ID_EXCLUDED != 0 {
                return 0;
            }
            named = true;
        }
        k = k + 1;
    }
    if named {
        2
    } else if config.wildcard != 0 {
        1
    } else {
        0
    }
}

/// Adding one mapping written `layer.key = descriptor`: the text must hold
/// exactly one `=`, and the trimmed part before it exactly one `.`.
pub open spec fn add_entry_spec(cv: ConfigView, exp: Seq<char>) -> (Result<(), Seq<char>>, ConfigView) {
    let parts = split_seq(exp, '=');
    if parts.len() != 2 {
        (Err("invalid entry expression"@), cv)
    } else {
        let key_parts = split_seq(crate::text::trim_seq(parts[0]), '.');
        if key_parts.len() != 2 {
            (Err("invalid key part"@), cv)
        } else {
            match layer_index(cv, key_parts[0]) {
                None => (Err("layer not found: "@ + key_parts[0]), cv),
                Some(li) => match key_sequence_spec(key_parts[1]) {
                    None => (Err("invalid key: "@ + key_parts[1]), cv),
                    Some((code, _)) => {
                        let (r, cv1) = descriptor_spec(crate::text::trim_seq(parts[1]), cv);
                        match r {
                            Err(e) => (Err(e), cv1),
                            Ok(d) => (
                                Ok(()),
                                set_layer(cv1, li, LayerView { keymap: cv1.layers[li].keymap.update(code as int, d), ..cv1.layers[li] }),
                            ),
                        }
                    },
                },
            }
        }
    }
}

/// Adds one mapping written `layer.key = descriptor` (see `add_entry_spec`).
pub fn config_add_entry(config: &mut Config, exp: &str) -> (r: Result<(), String>)
    requires
        keymaps_ok(old(config)@),
    ensures
        ({
            let (s, cv) = add_entry_spec(old(config)@, exp@);
            final(config)@ == cv && keymaps_ok(cv) && unit_res(r, s)
        }),
{
    let ev = str_chars(exp);
    let parts = split_chars(ev.as_slice(), '=');
    if parts.len() != 2 {
        return Err(String::from_str("invalid entry expression"));
    }
    assert(parts@[0]@ == split_seq(exp@, '=')[0]);
    assert(parts@[1]@ == split_seq(exp@, '=')[1]);
    let left = crate::text::trim_chars(parts[0].as_slice());
    let key_parts = split_chars(left.as_slice(), '.');
    if key_parts.len() != 2 {
        return Err(String::from_str("invalid key part"));
    }
    let ghost kp = split_seq(crate::text::trim_seq(split_seq(exp@, '=')[0]), '.');
    assert(key_parts@[0]@ == kp[0]);
    assert(key_parts@[1]@ == kp[1]);
    let li = match find_layer(config, key_parts[0].as_slice()) {
        None => {
            return Err(crate::config_parse::message("layer not found: ", key_parts[0].as_slice()));
        },
        Some(li) => li,
    };
    let code = match parse_key_sequence_chars(key_parts[1].as_slice()) {
        None => {
            return Err(crate::config_parse::message("invalid key: ", key_parts[1].as_slice()));
        },
        Some((code, _)) => code,
    };
    let val = crate::text::trim_chars(parts[1].as_slice());
    let r = parse_descriptor(val.as_slice(), config);
    match r {
        Err(e) => Err(e),
        Ok(d) => {
            assert(config@.layers[li as int] == config.layers@[li as int]@);
            set_keymap(config, li, code, d);
            Ok(())
        },
    }
}

/// A configuration being read, and the layer whose section is being read.
pub struct ParserContext {
    pub config: Config,
    pub current_layer: Option<usize>,
}

impl ParserContext {
    /// A context that reads into a configuration with no layers yet, the
    /// default timeouts and nothing else, and is in no layer's section.
    pub fn new() -> (c: ParserContext)
        ensures
            c.config@ == (ConfigView { layers: Seq::empty(), ..crate::config::new_config_view() }),
            c.current_layer is None,
    {
        let mut config = Config::new();
        config.layers = Vec::new();
        assert(config@.layers =~= Seq::<LayerView>::empty());
        ParserContext { config, current_layer: None }
    }
}

/// The file a line of a configuration includes: the rest of the line, trimmed,
/// when the trimmed line starts with `include` and a space.
pub open spec fn include_target(line: Seq<char>) -> Option<Seq<char>> {
    let t = trim_seq(line);
    if t.len() >= 8 && t.take(8) == "include "@ {
        Some(trim_seq(t.skip(8)))
    } else {
        None
    }
}

/// The file line `line` includes (see `include_target`).
pub fn include_path(line: &str) -> (r: Option<String>)
    ensures
        match r {
            Some(p) => include_target(line@) == Some(p@),
            None => include_target(line@) is None,
        },
{
    let chars = str_chars(line);
    let t = trim_chars(chars.as_slice());
    proof {
        reveal_strlit("include ");
    }
    if starts_with_str(t.as_slice(), "include ") {
        let rest = sub_chars(t.as_slice(), 8, t.len());
        assert(rest@ =~= t@.skip(8));
        let p = trim_chars(rest.as_slice());
        Some(string_from_chars(p.as_slice()))
    } else {
        None
    }
}

} // verus!
