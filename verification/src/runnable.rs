//! Configurations the keyboard can run (`kbd_config_ok`): a new
//! configuration is one, and parsing text into one, or adding a mapping to
//! one, leaves one.

use vstd::prelude::*;
use crate::config::{new_config_view, ConfigView, Descriptor, LayerView, MAX_LAYERS, unmapped};
use crate::config_impl::{
    add_entry_spec, alias_entries, config_parse_spec, constituents_spec, create_layer_spec, default_layer,
    default_layers, first_mapped, first_pass, first_pass_section, global_entries, global_entry, id_entries,
    id_entry, inherit_layer, inherit_spec, keymaps_of, layer_entries, layer_entry, section_layer_name, section_spec,
    sections_spec, set_layer, with_mods,
};
use crate::config_parse::{
    descriptor_spec, fn_call_spec, is_command_call, is_macro_call, layer_index, layer_macro_op, layer_op,
    lemma_args_shorter, lemma_layer_index_bound, overload_to_op, with_command, with_descriptor, with_macro,
};
use crate::ini::{IniEntryView, IniSectionView, ini_spec};
use crate::keyboard::{desc_ok, kbd_config_ok, Keyboard};
use crate::config::Config;
use crate::config_impl::config_parse_string;
use crate::keys::key_sequence_spec;
use crate::text::split_seq;

verus! {

/// A descriptor that refers to layers below `nl` and descriptors below `nd`
/// does so below any larger bounds.
proof fn lemma_desc_ok_grow(d: Descriptor, nl: int, nd: int, nl2: int, nd2: int)
    requires
        desc_ok(d, nl, nd),
        nl <= nl2,
        nd <= nd2,
    ensures
        desc_ok(d, nl2, nd2),
{
}

/// The index of a layer found by name is one of the layers.
proof fn lemma_found_layer(cv: ConfigView, name: Seq<char>)
    requires
        kbd_config_ok(cv),
    ensures
        layer_index(cv, name) matches Some(l) ==> 0 <= l < cv.layers.len() <= MAX_LAYERS && (l as i16) as int == l,
{
    lemma_layer_index_bound(cv.layers, name, 0);
}

/// Appending a descriptor that refers only to existing layers and
/// descriptors keeps a configuration runnable.
proof fn lemma_push_descriptor(cv: ConfigView, d: Descriptor)
    requires
        kbd_config_ok(cv),
        desc_ok(d, cv.layers.len() as int, cv.descriptors.len() as int),
    ensures
        kbd_config_ok(with_descriptor(cv, d)),
{
    let cv2 = with_descriptor(cv, d);
    let nl = cv.layers.len() as int;
    let nd = cv.descriptors.len() as int;
    assert forall|i: int, c: int| 0 <= i < nl && 0 <= c < 256 implies desc_ok(
        #[trigger] cv2.layers[i].keymap[c],
        nl,
        nd + 1,
    ) by {
        assert(desc_ok(cv.layers[i].keymap[c], nl, nd));
    }
    assert forall|i: int| 0 <= i < nd + 1 implies desc_ok(#[trigger] cv2.descriptors[i], nl, i) by {
        if i < nd {
            assert(desc_ok(cv.descriptors[i], nl, i));
        }
    }
}

/// Whatever parsing descriptor text `s` gives: the layers stay, descriptors
/// are only appended, the configuration stays runnable, and the descriptor
/// refers only to existing layers and descriptors.
pub proof fn lemma_descriptor_runnable(s: Seq<char>, cv: ConfigView)
    requires
        kbd_config_ok(cv),
    ensures
        ({
            let (r, cv1) = descriptor_spec(s, cv);
            &&& kbd_config_ok(cv1)
            &&& cv1.layers == cv.layers
            &&& cv.descriptors.len() <= cv1.descriptors.len()
            &&& (r matches Ok(d) ==> desc_ok(d, cv.layers.len() as int, cv1.descriptors.len() as int))
        }),
    decreases s.len(),
{
    let nl = cv.layers.len() as int;
    if s.len() == 0 {
    } else if key_sequence_spec(s) is Some {
    } else if is_command_call(s) {
        assert(kbd_config_ok(with_command(cv, s.subrange(8, s.len() - 1))));
    } else if is_macro_call(s) || s.len() == 1 {
    } else {
        match fn_call_spec(s) {
            None => {},
            Some((name, args)) => {
                lemma_args_shorter(s);
                let n = args.len();
                if layer_op(name) is Some {
                    if n == 1 {
                        lemma_found_layer(cv, args[0]);
                    }
                } else if layer_macro_op(name) is Some {
                    if n == 2 {
                        lemma_found_layer(cv, args[0]);
                    }
                } else if name == "clearm"@ {
                } else if name == "overload"@ || name == "oneshotk"@ {
                    if n == 2 {
                        lemma_found_layer(cv, args[0]);
                        if layer_index(cv, args[0]) is Some {
                            lemma_descriptor_runnable(args[1], cv);
                            let (r, cv1) = descriptor_spec(args[1], cv);
                            if let Ok(a) = r {
                                lemma_push_descriptor(cv1, a);
                            }
                        }
                    }
                } else if overload_to_op(name) is Some {
                    if n == 3 {
                        lemma_found_layer(cv, args[0]);
                        if layer_index(cv, args[0]) is Some {
                            lemma_descriptor_runnable(args[1], cv);
                            let (r, cv1) = descriptor_spec(args[1], cv);
                            if let Ok(a) = r {
                                lemma_push_descriptor(cv1, a);
                            }
                        }
                    }
                } else if name == "overloadi"@ || name == "timeout"@ {
                    if n == 3 {
                        let second = if name == "overloadi"@ {
                            args[1]
                        } else {
                            args[2]
                        };
                        lemma_descriptor_runnable(args[0], cv);
                        let (r1, cv1) = descriptor_spec(args[0], cv);
                        if let Ok(a1) = r1 {
                            lemma_descriptor_runnable(second, cv1);
                            let (r2, cv2) = descriptor_spec(second, cv1);
                            if let Ok(a2) = r2 {
                                let n2 = cv2.descriptors.len() as int;
                                lemma_desc_ok_grow(a1, nl, cv1.descriptors.len() as int, nl, n2);
                                lemma_push_descriptor(cv2, a1);
                                let cv3 = with_descriptor(cv2, a1);
                                lemma_desc_ok_grow(a2, nl, n2, nl, n2 + 1);
                                lemma_push_descriptor(cv3, a2);
                            }
                        }
                    }
                }
            },
        }
    }
}

/// Creating a layer (when there is room) keeps a configuration runnable;
/// the layer found or made is one of the layers.
proof fn lemma_create_layer(cv: ConfigView, name: Seq<char>, lt: crate::config::LayerType)
    requires
        kbd_config_ok(cv),
    ensures
        ({
            let (r, cv1) = create_layer_spec(cv, name, lt);
            &&& kbd_config_ok(cv1)
            &&& cv.layers.len() <= cv1.layers.len()
            &&& cv1.descriptors == cv.descriptors
            &&& (r matches Ok(i) ==> 0 <= i < cv1.layers.len())
        }),
{
    lemma_layer_index_bound(cv.layers, name, 0);
    let (r, cv1) = create_layer_spec(cv, name, lt);
    let nl = cv.layers.len() as int;
    let nd = cv.descriptors.len() as int;
    if layer_index(cv, name) is None && cv.layers.len() < MAX_LAYERS {
        assert forall|i: int| 0 <= i < cv1.layers.len() implies (#[trigger] cv1.layers[i]).keymap.len() == 256 by {
            if i < nl {
                assert(cv.layers[i].keymap.len() == 256);
            }
        }
        assert forall|i: int, c: int| 0 <= i < nl + 1 && 0 <= c < 256 implies desc_ok(
            #[trigger] cv1.layers[i].keymap[c],
            nl + 1,
            nd,
        ) by {
            if i < nl {
                assert(desc_ok(cv.layers[i].keymap[c], nl, nd));
            } else {
                assert(cv1.layers[i].keymap[c] == unmapped());
            }
        }
        assert forall|i: int| 0 <= i < nd implies desc_ok(#[trigger] cv1.descriptors[i], nl + 1, i) by {
            assert(desc_ok(cv.descriptors[i], nl, i));
        }
    }
}

/// Replacing layer `li` by one with the same keymap keeps a configuration
/// runnable.
proof fn lemma_set_layer_same_keymap(cv: ConfigView, li: int, l: LayerView)
    requires
        kbd_config_ok(cv),
        0 <= li < cv.layers.len(),
        l.keymap == cv.layers[li].keymap,
    ensures
        kbd_config_ok(set_layer(cv, li, l)),
        set_layer(cv, li, l).layers.len() == cv.layers.len(),
        set_layer(cv, li, l).descriptors == cv.descriptors,
{
    let cv1 = set_layer(cv, li, l);
    let nl = cv.layers.len() as int;
    let nd = cv.descriptors.len() as int;
    assert forall|i: int| 0 <= i < nl implies (#[trigger] cv1.layers[i]).keymap.len() == 256 by {
        assert(cv.layers[i].keymap.len() == 256);
    }
    assert forall|i: int, c: int| 0 <= i < nl && 0 <= c < 256 implies desc_ok(#[trigger] cv1.layers[i].keymap[c], nl, nd) by {
        assert(desc_ok(cv.layers[i].keymap[c], nl, nd));
    }
}

/// Mapping key `code` of layer `li` to a descriptor that refers only to
/// existing layers and descriptors keeps a configuration runnable.
proof fn lemma_set_key(cv: ConfigView, li: int, code: int, d: Descriptor)
    requires
        kbd_config_ok(cv),
        0 <= li < cv.layers.len(),
        0 <= code < 256,
        desc_ok(d, cv.layers.len() as int, cv.descriptors.len() as int),
    ensures
        ({
            let cv1 = set_layer(cv, li, LayerView { keymap: cv.layers[li].keymap.update(code, d), ..cv.layers[li] });
            &&& kbd_config_ok(cv1)
            &&& cv1.layers.len() == cv.layers.len()
            &&& cv1.descriptors == cv.descriptors
        }),
{
    let cv1 = set_layer(cv, li, LayerView { keymap: cv.layers[li].keymap.update(code, d), ..cv.layers[li] });
    let nl = cv.layers.len() as int;
    let nd = cv.descriptors.len() as int;
    assert(cv.layers[li].keymap.len() == 256);
    assert forall|i: int| 0 <= i < nl implies (#[trigger] cv1.layers[i]).keymap.len() == 256 by {
        assert(cv.layers[i].keymap.len() == 256);
    }
    assert forall|i: int, c: int| 0 <= i < nl && 0 <= c < 256 implies desc_ok(#[trigger] cv1.layers[i].keymap[c], nl, nd) by {
        assert(desc_ok(cv.layers[i].keymap[c], nl, nd));
    }
}

/// One entry of a layer section keeps a configuration runnable.
proof fn lemma_layer_entry(cv: ConfigView, li: int, e: IniEntryView)
    requires
        kbd_config_ok(cv),
        0 <= li < cv.layers.len(),
    ensures
        kbd_config_ok(layer_entry(cv, li, e).1),
        layer_entry(cv, li, e).1.layers.len() == cv.layers.len(),
{
    if e.key != "include"@ {
        if let Some(v) = e.val {
            lemma_descriptor_runnable(v, cv);
            let (r, cv1) = descriptor_spec(v, cv);
            if let Ok(d) = r {
                match key_sequence_spec(e.key) {
                    Some((code, _)) => {
                        lemma_set_key(cv1, li, code as int, d);
                    },
                    None => {
                        if e.key.contains('+') {
                            let l = LayerView {
                                chords: cv1.layers[li].chords.push(
                                    crate::config::ChordView {
                                        keys: crate::config_impl::chord_keys(split_seq(e.key, '+')),
                                        d,
                                    },
                                ),
                                ..cv1.layers[li]
                            };
                            lemma_set_layer_same_keymap(cv1, li, l);
                        }
                    },
                }
            }
        }
    }
}

/// The entries of a layer section keep a configuration runnable.
proof fn lemma_layer_entries(es: Seq<IniEntryView>, li: int, cv: ConfigView)
    requires
        kbd_config_ok(cv),
        0 <= li < cv.layers.len(),
    ensures
        kbd_config_ok(layer_entries(es, li, cv).1),
        layer_entries(es, li, cv).1.layers.len() == cv.layers.len(),
    decreases es.len(),
{
    if es.len() > 0 {
        lemma_layer_entries(es.drop_last(), li, cv);
        let (r, cv1) = layer_entries(es.drop_last(), li, cv);
        if r is Ok {
            lemma_layer_entry(cv1, li, es.last());
        }
    }
}

/// Finding or creating the constituents of a composite layer keeps a
/// configuration runnable.
proof fn lemma_constituents(parts: Seq<Seq<char>>, cv: ConfigView)
    requires
        kbd_config_ok(cv),
    ensures
        kbd_config_ok(constituents_spec(parts, cv).1),
        cv.layers.len() <= constituents_spec(parts, cv).1.layers.len(),
    decreases parts.len(),
{
    if parts.len() > 0 {
        lemma_constituents(parts.drop_last(), cv);
        let (r, cv1) = constituents_spec(parts.drop_last(), cv);
        if r is Ok && parts.len() <= crate::config::MAX_CONSTITUENTS {
            lemma_create_layer(cv1, parts.last(), crate::config::LayerType::Normal);
        }
    }
}

/// The entries of `[ids]`, `[global]` and `[aliases]` leave the layers and
/// the descriptors as they are.
proof fn lemma_plain_entries(es: Seq<IniEntryView>, cv: ConfigView)
    ensures
        id_entries(es, cv).layers == cv.layers,
        id_entries(es, cv).descriptors == cv.descriptors,
        global_entries(es, cv).0.layers == cv.layers,
        global_entries(es, cv).0.descriptors == cv.descriptors,
        alias_entries(es, cv).layers == cv.layers,
        alias_entries(es, cv).descriptors == cv.descriptors,
    decreases es.len(),
{
    if es.len() > 0 {
        lemma_plain_entries(es.drop_last(), cv);
        let (cv1, _) = global_entries(es.drop_last(), cv);
        if let Some(v) = es.last().val {
            assert(global_entry(cv1, es.last().key, v).0.layers == cv1.layers);
        }
        assert(id_entry(id_entries(es.drop_last(), cv), es.last().key).layers == cv.layers);
    }
}

/// A configuration with the same layers and descriptors as a runnable one
/// is runnable.
proof fn lemma_same_parts(cv: ConfigView, cv1: ConfigView)
    requires
        kbd_config_ok(cv),
        cv1.layers == cv.layers,
        cv1.descriptors == cv.descriptors,
    ensures
        kbd_config_ok(cv1),
{
}

/// One section keeps a configuration runnable.
proof fn lemma_section(sec: IniSectionView, cv: ConfigView)
    requires
        kbd_config_ok(cv),
    ensures
        kbd_config_ok(section_spec(sec, cv).1),
{
    lemma_plain_entries(sec.entries, cv);
    if sec.name == "ids"@ {
        lemma_same_parts(cv, id_entries(sec.entries, cv));
    } else if sec.name == "global"@ {
        lemma_same_parts(cv, global_entries(sec.entries, cv).0);
    } else if sec.name == "aliases"@ {
        lemma_same_parts(cv, alias_entries(sec.entries, cv));
    } else {
        lemma_layer_index_bound(cv.layers, section_layer_name(sec.name), 0);
        if let Some(li) = layer_index(cv, section_layer_name(sec.name)) {
            if sec.name.contains('+') {
                lemma_constituents(split_seq(sec.name, '+'), cv);
                let (r, c1) = constituents_spec(split_seq(sec.name, '+'), cv);
                if let Ok(cs) = r {
                    let l = LayerView { constituents: cs, ..c1.layers[li] };
                    lemma_set_layer_same_keymap(c1, li, l);
                    lemma_layer_entries(sec.entries, li, set_layer(c1, li, l));
                }
            } else {
                lemma_layer_entries(sec.entries, li, cv);
            }
        }
    }
}

/// The sections keep a configuration runnable.
proof fn lemma_sections(secs: Seq<IniSectionView>, cv: ConfigView)
    requires
        kbd_config_ok(cv),
    ensures
        kbd_config_ok(sections_spec(secs, cv).1),
    decreases secs.len(),
{
    if secs.len() > 0 {
        lemma_sections(secs.drop_last(), cv);
        let (r, cv1) = sections_spec(secs.drop_last(), cv);
        if r is Ok {
            lemma_section(secs.last(), cv1);
        }
    }
}

/// Creating the layers of the sections keeps a configuration runnable.
proof fn lemma_first_pass(secs: Seq<IniSectionView>, cv: ConfigView)
    requires
        kbd_config_ok(cv),
    ensures
        kbd_config_ok(first_pass(secs, cv).1),
    decreases secs.len(),
{
    if secs.len() > 0 {
        lemma_first_pass(secs.drop_last(), cv);
        let (r, cv1) = first_pass(secs.drop_last(), cv);
        if r is Ok {
            let name = secs.last().name;
            if !crate::config_impl::is_special_section(name) {
                let lt = if name.contains('+') {
                    crate::config::LayerType::Composite
                } else {
                    crate::config::LayerType::Normal
                };
                lemma_create_layer(cv1, name, lt);
            }
        }
    }
}

/// Creating a default layer keeps a configuration runnable.
proof fn lemma_default_layer(cv: ConfigView, name: Seq<char>, mods: u8)
    requires
        kbd_config_ok(cv),
    ensures
        kbd_config_ok(default_layer(cv, name, mods).1),
{
    lemma_create_layer(cv, name, crate::config::LayerType::Normal);
    let (r, cv1) = create_layer_spec(cv, name, crate::config::LayerType::Normal);
    if let Ok(i) = r {
        lemma_set_layer_same_keymap(cv1, i, LayerView { mods, ..cv1.layers[i] });
    }
}

/// Creating the default layers keeps a configuration runnable.
proof fn lemma_default_layers(cv: ConfigView)
    requires
        kbd_config_ok(cv),
    ensures
        kbd_config_ok(default_layers(cv).1),
{
    lemma_create_layer(cv, "main"@, crate::config::LayerType::Layout);
    let (_, cv0) = create_layer_spec(cv, "main"@, crate::config::LayerType::Layout);
    lemma_default_layer(cv0, "control"@, crate::keys::MOD_CTRL);
    let (_, cv1) = default_layer(cv0, "control"@, crate::keys::MOD_CTRL);
    lemma_default_layer(cv1, "shift"@, crate::keys::MOD_SHIFT);
    let (_, cv2) = default_layer(cv1, "shift"@, crate::keys::MOD_SHIFT);
    lemma_default_layer(cv2, "alt"@, crate::keys::MOD_ALT);
    let (_, cv3) = default_layer(cv2, "alt"@, crate::keys::MOD_ALT);
    lemma_default_layer(cv3, "meta"@, crate::keys::MOD_SUPER);
    let (_, cv4) = default_layer(cv3, "meta"@, crate::keys::MOD_SUPER);
    lemma_default_layer(cv4, "altgr"@, crate::keys::MOD_ALT_GR);
}

/// What a composite layer inherits is some layer's mapping of the key.
proof fn lemma_first_mapped(keymaps: Seq<Seq<Descriptor>>, cons: Seq<usize>, code: int)
    ensures
        first_mapped(keymaps, cons, code) matches Some(d) ==> exists|j: int|
            0 <= j < keymaps.len() && 0 <= code < keymaps[j].len() && #[trigger] keymaps[j][code] == d,
    decreases cons.len(),
{
    if cons.len() > 0 {
        lemma_first_mapped(keymaps, cons.drop_first(), code);
    }
}

/// Inheriting the mappings of constituents keeps a configuration runnable.
proof fn lemma_inherit(cv: ConfigView)
    requires
        kbd_config_ok(cv),
    ensures
        kbd_config_ok(inherit_spec(cv)),
{
    let cv1 = inherit_spec(cv);
    let km = keymaps_of(cv);
    let nl = cv.layers.len() as int;
    let nd = cv.descriptors.len() as int;
    assert forall|i: int| 0 <= i < nl implies (#[trigger] cv1.layers[i]).keymap.len() == 256 by {
        assert(cv.layers[i].keymap.len() == 256);
    }
    assert forall|i: int, c: int| 0 <= i < nl && 0 <= c < 256 implies desc_ok(#[trigger] cv1.layers[i].keymap[c], nl, nd) by {
        assert(cv.layers[i].keymap.len() == 256);
        assert(desc_ok(cv.layers[i].keymap[c], nl, nd));
        let l = cv.layers[i];
        lemma_first_mapped(km, l.constituents, c);
        if let Some(d) = first_mapped(km, l.constituents, c) {
            let j = choose|j: int| 0 <= j < km.len() && 0 <= c < km[j].len() && #[trigger] km[j][c] == d;
            assert(desc_ok(cv.layers[j].keymap[c], nl, nd));
        }
        assert(cv1.layers[i] == inherit_layer(km, l));
    }
}

/// Law: a new configuration can be run by the keyboard.
pub proof fn lemma_new_config_runnable()
    ensures
        kbd_config_ok(new_config_view()),
{
    let cv = new_config_view();
    assert forall|i: int, c: int| 0 <= i < cv.layers.len() && 0 <= c < 256 implies desc_ok(
        #[trigger] cv.layers[i].keymap[c],
        cv.layers.len() as int,
        0,
    ) by {
        assert(cv.layers[i].keymap[c] == unmapped());
    }
}

/// Law: parsing configuration text into a configuration the keyboard can
/// run leaves one it can run, whatever the text and whether or not parsing
/// succeeds.
pub proof fn lemma_parsed_config_runnable(cv: ConfigView, content: Seq<char>)
    requires
        kbd_config_ok(cv),
    ensures
        kbd_config_ok(config_parse_spec(cv, content).1),
{
    if let Some(secs) = ini_spec(content) {
        lemma_first_pass(secs, cv);
        let (r1, cv1) = first_pass(secs, cv);
        if r1 is Ok {
            lemma_default_layers(cv1);
            let (r2, cv2) = default_layers(cv1);
            if r2 is Ok {
                lemma_sections(secs, cv2);
                let (r3, cv3) = sections_spec(secs, cv2);
                if r3 is Ok {
                    lemma_inherit(cv3);
                }
            }
        }
    }
}

/// Law: adding a mapping to a configuration the keyboard can run leaves one
/// it can run, whether or not the mapping is accepted.
pub proof fn lemma_added_entry_runnable(cv: ConfigView, exp: Seq<char>)
    requires
        kbd_config_ok(cv),
    ensures
        kbd_config_ok(add_entry_spec(cv, exp).1),
{
    let parts = split_seq(exp, '=');
    if parts.len() == 2 {
        let key_parts = split_seq(crate::text::trim_seq(parts[0]), '.');
        if key_parts.len() == 2 {
            lemma_layer_index_bound(cv.layers, key_parts[0], 0);
            if let Some(li) = layer_index(cv, key_parts[0]) {
                if let Some((code, _)) = key_sequence_spec(key_parts[1]) {
                    lemma_descriptor_runnable(crate::text::trim_seq(parts[1]), cv);
                    let (r, cv1) = descriptor_spec(crate::text::trim_seq(parts[1]), cv);
                    if let Ok(d) = r {
                        lemma_set_key(cv1, li, code as int, d);
                    }
                }
            }
        }
    }
}

/// A keyboard running the configuration that configuration text `content`
/// gives, parsed into a new configuration; the parse error otherwise.
pub fn keyboard_from_text(content: &str) -> (r: Result<Keyboard, String>)
    ensures
        ({
            let (res, cv) = config_parse_spec(new_config_view(), content@);
            match (r, res) {
                (Ok(k), Ok(_)) => k.inv() && k.config_view() == cv && k.keystate_view() == Seq::new(256, |c: int| 0u8),
                (Err(m), Err(e)) => m@ == e,
                _ => false,
            }
        }),
{
    let mut cfg = Config::new();
    proof {
        lemma_new_config_runnable();
    }
    match config_parse_string(&mut cfg, content) {
        Ok(_) => {
            proof {
                lemma_parsed_config_runnable(new_config_view(), content@);
            }
            Ok(Keyboard::new(cfg))
        },
        Err(e) => Err(e),
    }
}

} // verus!
