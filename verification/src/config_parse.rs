//! Parsing of descriptors (what a key does, e.g. `C-a`, `layer(nav)`,
//! `overload(control, esc)`) and of macro expressions.

use vstd::prelude::*;
use crate::config::{
    Config, ConfigView, DescKeySequence, DescLayer, DescLayerMacro, DescOverload, DescOverloadIdle,
    DescOverloadTo, DescTimeout, Descriptor, DescriptorData, LayerView, Macro, MacroEntry,
    MacroEntryType, Op, unmapped,
};
use crate::keys::{
    find_key_from, key_entry, key_sequence_spec, keycode_table, parse_key_sequence_chars, MOD_SHIFT,
};
use crate::text::{
    chars_eq_str, is_space, char_is_space, parse_unsigned, split_chars, split_seq,
    starts_with_str, str_chars, string_from_chars, sub_chars, trim_chars, trim_seq,
    unsigned_value, views_of, lemma_split_nonempty,
};

verus! {

/// The whitespace-separated tokens of `s`.
pub open spec fn tokens_of(s: Seq<char>) -> Seq<Seq<char>>
    decreases s.len(),
{
    if s.len() == 0 {
        Seq::empty()
    } else {
        let r = tokens_of(s.drop_last());
        let c = s.last();
        if is_space(c) {
            r
        } else if s.len() >= 2 && !is_space(s[s.len() - 2]) && r.len() > 0 {
            r.update(r.len() - 1, r.last().push(c))
        } else {
            r.push(seq![c])
        }
    }
}

/// Exec form of `tokens_of`.
pub fn tokens(s: &[char]) -> (r: Vec<Vec<char>>)
    ensures
        views_of(r@) == tokens_of(s@),
{
    let mut toks: Vec<Vec<char>> = Vec::new();
    let mut cur: Vec<char> = Vec::new();
    let mut in_tok = false;
    let mut i: usize = 0;
    assert(s@.take(0) =~= Seq::<char>::empty());
    while i < s.len()
        invariant
            i <= s@.len(),
            in_tok == (i > 0 && !is_space(s@[i - 1])),
            in_tok ==> views_of(toks@).push(cur@) == tokens_of(s@.take(i as int)),
            !in_tok ==> views_of(toks@) == tokens_of(s@.take(i as int)),
            in_tok ==> tokens_of(s@.take(i as int)).len() > 0,
        decreases s.len() - i,
    {
        let c = s[i];
        proof {
            assert(s@.take(i + 1).drop_last() =~= s@.take(i as int));
            assert(s@.take(i + 1).last() == c);
            if i > 0 {
                assert(s@.take(i + 1)[i - 1] == s@[i - 1]);
            }
        }
        if char_is_space(c) {
            if in_tok {
                let ghost before = views_of(toks@);
                let done = cur;
                cur = Vec::new();
                toks.push(done);
                assert(views_of(toks@) =~= before.push(done@));
            }
            in_tok = false;
        } else {
            if in_tok {
                cur.push(c);
                assert(views_of(toks@).push(cur@) =~= tokens_of(s@.take(i + 1)));
            } else {
                cur = Vec::new();
                cur.push(c);
                assert(cur@ =~= seq![c]);
                assert(views_of(toks@).push(cur@) =~= tokens_of(s@.take(i + 1)));
            }
            in_tok = true;
        }
        i = i + 1;
    }
    assert(s@.take(s@.len() as int) =~= s@);
    if in_tok {
        let ghost before = views_of(toks@);
        toks.push(cur);
        assert(views_of(toks@) =~= before.push(cur@));
    }
    toks
}

/// The macro entry of a key sequence: `code | mods << 8`.
pub open spec fn key_sequence_entry(code: u8, mods: u8) -> MacroEntry {
    MacroEntry {
        entry_type: MacroEntryType::KeySequence,
        data: (code as u32) | ((mods as u32) << 8u32),
    }
}

/// The macro entry that types character `c`, looking for a key from code `i`
/// on whose name is `c` (or whose shifted name is `c`, adding Shift).
pub open spec fn char_key_from(c: char, i: int) -> Option<MacroEntry>
    decreases 256 - i,
{
    if i < 0 || i >= 256 {
        None
    } else {
        match key_entry(i as u8) {
            Some(e) => if e.name == seq![c] {
                Some(key_sequence_entry(i as u8, 0))
            } else if e.shifted_name == Some(seq![c]) {
                Some(key_sequence_entry(i as u8, MOD_SHIFT))
            } else {
                char_key_from(c, i + 1)
            },
            None => char_key_from(c, i + 1),
        }
    }
}

/// The macro entry that types `c`: a key when one is named `c`, otherwise a
/// unicode entry for a non-ASCII character.
pub open spec fn char_entry(c: char) -> Option<MacroEntry> {
    match char_key_from(c, 0) {
        Some(e) => Some(e),
        None => if (c as u32) >= 128 {
            Some(MacroEntry { entry_type: MacroEntryType::Unicode, data: c as u32 })
        } else {
            None
        },
    }
}

/// Key `code` types character `c`: unshifted when its name is `c`, with
/// Shift when its shifted name is `c`.
pub open spec fn key_types(code: u8, shift: bool, c: char) -> bool {
    match key_entry(code) {
        Some(k) => if shift {
            k.shifted_name == Some(seq![c])
        } else {
            k.name == seq![c]
        },
        None => false,
    }
}

proof fn lemma_char_key_from(c: char, i: int)
    requires
        0 <= i <= 256,
    ensures
        char_key_from(c, i) is Some ==> exists|j: int, sh: bool|
            0 <= j < 256 && #[trigger] key_types(j as u8, sh, c) && char_key_from(c, i).unwrap() == key_sequence_entry(
                j as u8,
                if sh {
                    MOD_SHIFT
                } else {
                    0
                },
            ),
    decreases 256 - i,
{
    if i < 256 {
        lemma_char_key_from(c, i + 1);
        let ke = key_entry(i as u8);
        let rest = char_key_from(c, i + 1);
        assert(char_key_from(c, i) == match ke {
            Some(k) => if k.name == seq![c] {
                Some(key_sequence_entry(i as u8, 0))
            } else if k.shifted_name == Some(seq![c]) {
                Some(key_sequence_entry(i as u8, MOD_SHIFT))
            } else {
                rest
            },
            None => rest,
        });
        match ke {
            Some(k) => {
                if k.name == seq![c] {
                    assert(key_types(i as u8, false, c));
                } else if k.shifted_name == Some(seq![c]) {
                    assert(key_types(i as u8, true, c));
                } else {
                    assert(!key_types(i as u8, false, c) && !key_types(i as u8, true, c));
                }
            },
            None => {
                assert(!key_types(i as u8, false, c) && !key_types(i as u8, true, c));
            },
        }
    }
}

proof fn lemma_char_key_complete(c: char, i: int, j: int)
    requires
        0 <= i <= j < 256,
        key_types(j as u8, false, c) || key_types(j as u8, true, c),
    ensures
        char_key_from(c, i) is Some,
    decreases j - i,
{
    if i < j {
        lemma_char_key_complete(c, i + 1, j);
    }
    let ke = key_entry(i as u8);
    let rest = char_key_from(c, i + 1);
    assert(char_key_from(c, i) == match ke {
        Some(k) => if k.name == seq![c] {
            Some(key_sequence_entry(i as u8, 0))
        } else if k.shifted_name == Some(seq![c]) {
            Some(key_sequence_entry(i as u8, MOD_SHIFT))
        } else {
            rest
        },
        None => rest,
    });
}

/// Law: the macro entry of a character types that character: the key it
/// presses (the low byte) is named by the character, without modifiers, or
/// has the character as its shifted name, with Shift (the byte above); and
/// every character some key types gets such an entry.
pub proof fn law_macro_char_typed(c: char)
    ensures
        (char_entry(c) matches Some(e) && e.entry_type == MacroEntryType::KeySequence) ==> {
            let e = char_entry(c).unwrap();
            &&& (e.data >> 8u32 == 0 || e.data >> 8u32 == MOD_SHIFT as u32)
            &&& key_types((e.data & 0xffu32) as u8, e.data >> 8u32 == MOD_SHIFT as u32, c)
        },
        (exists|j: int| 0 <= j < 256 && (#[trigger] key_types(j as u8, false, c) || key_types(j as u8, true, c)))
            ==> (char_entry(c) matches Some(e) && e.entry_type == MacroEntryType::KeySequence),
{
    lemma_char_key_from(c, 0);
    if let Some(e) = char_key_from(c, 0) {
        let (j, sh) = choose|j: int, sh: bool|
            0 <= j < 256 && #[trigger] key_types(j as u8, sh, c) && e == key_sequence_entry(
                j as u8,
                if sh {
                    MOD_SHIFT
                } else {
                    0
                },
            );
        let code = j as u8;
        let m: u8 = if sh { MOD_SHIFT } else { 0 };
        assert(((code as u32) | ((m as u32) << 8u32)) & 0xffu32 == code as u32) by (bit_vector);
        assert(((code as u32) | ((m as u32) << 8u32)) >> 8u32 == m as u32) by (bit_vector);
        assert(((code as u32) | ((m as u32) << 8u32)) & 0xffu32 < 256) by (bit_vector);
        assert(char_entry(c) == Some(e));
        assert(e.entry_type == MacroEntryType::KeySequence);
    } else {
        assert forall|j: int| 0 <= j < 256 && (#[trigger] key_types(j as u8, false, c) || key_types(j as u8, true, c))
            implies false by {
            lemma_char_key_complete(c, 0, j);
        }
    }
}

pub fn key_sequence_entry_exec(code: u8, mods: u8) -> (e: MacroEntry)
    ensures
        e == key_sequence_entry(code, mods),
{
    MacroEntry {
        entry_type: MacroEntryType::KeySequence,
        data: (code as u32) | ((mods as u32) << 8u32),
    }
}

fn char_entry_exec(c: char) -> (r: Option<MacroEntry>)
    ensures
        r == char_entry(c),
{
    let single: Vec<char> = vec![c];
    assert(single@ =~= seq![c]);
    let mut i: usize = 0;
    while i < 256
        invariant
            i <= 256,
            single@ == seq![c],
            char_key_from(c, 0) == char_key_from(c, i as int),
        decreases 256 - i,
    {
        match keycode_table(i as u8) {
            Some(e) => {
                if chars_eq_str(single.as_slice(), e.name) {
                    return Some(key_sequence_entry_exec(i as u8, 0));
                }
                if let Some(sh) = e.shifted_name {
                    if chars_eq_str(single.as_slice(), sh) {
                        return Some(key_sequence_entry_exec(i as u8, MOD_SHIFT));
                    }
                }
            },
            None => {},
        }
        i = i + 1;
    }
    if (c as u32) >= 128 {
        Some(MacroEntry { entry_type: MacroEntryType::Unicode, data: c as u32 })
    } else {
        None
    }
}

/// The entries of one `+`-separated part of a chorded macro token: a number
/// is a timeout, a key is held, anything else is skipped.
pub open spec fn plus_part_entries(p: Seq<char>) -> Seq<MacroEntry> {
    match unsigned_value(p) {
        Some(v) if v <= 65535 => seq![MacroEntry { entry_type: MacroEntryType::Timeout, data: v as u32 }],
        _ => match key_sequence_spec(p) {
            Some((code, mods)) => seq![MacroEntry { entry_type: MacroEntryType::Hold, data: code as u32 }],
            None => Seq::empty(),
        },
    }
}

/// The entries of the parts `parts` (see `plus_part_entries`), in order.
pub open spec fn plus_parts_entries(parts: Seq<Seq<char>>) -> Seq<MacroEntry>
    decreases parts.len(),
{
    if parts.len() == 0 {
        Seq::empty()
    } else {
        plus_parts_entries(parts.drop_last()) + plus_part_entries(parts.last())
    }
}

/// The entries typing the characters of `t` one by one.
pub open spec fn chars_entries(t: Seq<char>) -> Option<Seq<MacroEntry>>
    decreases t.len(),
{
    if t.len() == 0 {
        Some(Seq::empty())
    } else {
        match (chars_entries(t.drop_last()), char_entry(t.last())) {
            (Some(es), Some(e)) => Some(es.push(e)),
            _ => None,
        }
    }
}

/// The entries of one token of a macro body: a key sequence; keys joined by
/// `+` (held together, with timeouts between them, then all released); a
/// timeout in milliseconds; or characters to type.
pub open spec fn token_entries(tok: Seq<char>) -> Option<Seq<MacroEntry>> {
    match key_sequence_spec(tok) {
        Some((code, mods)) => Some(seq![key_sequence_entry(code, mods)]),
        None => if tok.contains('+') {
            Some(
                plus_parts_entries(split_seq(tok, '+')).push(
                    MacroEntry { entry_type: MacroEntryType::Release, data: 0 },
                ),
            )
        } else {
            match unsigned_value(tok) {
                Some(v) if v <= 65535 => Some(
                    seq![MacroEntry { entry_type: MacroEntryType::Timeout, data: v as u32 }],
                ),
                _ => chars_entries(tok),
            }
        },
    }
}

/// The entries of the tokens `toks`; the error names the first bad token.
pub open spec fn tokens_entries(toks: Seq<Seq<char>>) -> Result<Seq<MacroEntry>, Seq<char>>
    decreases toks.len(),
{
    if toks.len() == 0 {
        Ok(Seq::empty())
    } else {
        match tokens_entries(toks.drop_last()) {
            Err(e) => Err(e),
            Ok(es) => match token_entries(toks.last()) {
                Some(more) => Ok(es + more),
                None => Err("invalid macro token: "@ + toks.last()),
            },
        }
    }
}

/// The entries of a macro body: its whitespace-separated tokens in order.
pub open spec fn macro_body_spec(body: Seq<char>) -> Result<Seq<MacroEntry>, Seq<char>> {
    tokens_entries(tokens_of(body))
}

/// True when `s` is written `macro(...)`.
pub open spec fn is_macro_call(s: Seq<char>) -> bool {
    s.len() >= 7 && s.take(6) == "macro("@ && s.last() == ')'
}

/// A macro expression: `macro(body)`, a key sequence, or a single character.
pub open spec fn macro_expr_spec(s: Seq<char>) -> Result<Seq<MacroEntry>, Seq<char>> {
    if is_macro_call(s) {
        macro_body_spec(s.subrange(6, s.len() - 1))
    } else {
        match key_sequence_spec(s) {
            Some((code, mods)) => Ok(seq![key_sequence_entry(code, mods)]),
            None => if s.len() == 1 {
                Ok(seq![MacroEntry { entry_type: MacroEntryType::Unicode, data: s[0] as u32 }])
            } else {
                Err("invalid macro: "@ + s)
            },
        }
    }
}

/// The string `prefix` followed by `detail`.
pub fn message(prefix: &str, detail: &[char]) -> (m: String)
    ensures
        m@ == prefix@ + detail@,
{
    let d = string_from_chars(detail);
    let mut m = String::from_str(prefix);
    m.append(d.as_str());
    m
}

fn plus_part_entries_exec(p: &[char], out: &mut Vec<MacroEntry>)
    ensures
        final(out)@ == old(out)@ + plus_part_entries(p@),
{
    match parse_unsigned(p, 65535) {
        Some(v) => {
            out.push(MacroEntry { entry_type: MacroEntryType::Timeout, data: v as u32 });
            assert(plus_part_entries(p@) =~= seq![MacroEntry { entry_type: MacroEntryType::Timeout, data: v as u32 }]);
        },
        None => {
            match parse_key_sequence_chars(p) {
                Some((code, _mods)) => {
                    out.push(MacroEntry { entry_type: MacroEntryType::Hold, data: code as u32 });
                },
                None => {
                    assert(out@ =~= out@ + Seq::<MacroEntry>::empty());
                },
            }
        },
    }
}

fn token_entries_exec(tok: &[char]) -> (r: Option<Vec<MacroEntry>>)
    ensures
        match r {
            Some(v) => token_entries(tok@) == Some(v@),
            None => token_entries(tok@) is None,
        },
{
    match parse_key_sequence_chars(tok) {
        Some((code, mods)) => {
            let v = vec![key_sequence_entry_exec(code, mods)];
            assert(v@ =~= seq![key_sequence_entry(code, mods)]);
            return Some(v);
        },
        None => {},
    }
    if crate::text::contains_char(tok, '+') {
        let parts = split_chars(tok, '+');
        let mut out: Vec<MacroEntry> = Vec::new();
        let mut i: usize = 0;
        assert(views_of(parts@).take(0) =~= Seq::<Seq<char>>::empty());
        while i < parts.len()
            invariant
                i <= parts@.len(),
                out@ == plus_parts_entries(views_of(parts@).take(i as int)),
            decreases parts.len() - i,
        {
            assert(views_of(parts@).take(i + 1).drop_last() =~= views_of(parts@).take(i as int));
            plus_part_entries_exec(parts[i].as_slice(), &mut out);
            i = i + 1;
        }
        assert(views_of(parts@).take(parts@.len() as int) =~= views_of(parts@));
        out.push(MacroEntry { entry_type: MacroEntryType::Release, data: 0 });
        return Some(out);
    }
    match parse_unsigned(tok, 65535) {
        Some(v) => {
            let out = vec![MacroEntry { entry_type: MacroEntryType::Timeout, data: v as u32 }];
            assert(out@ =~= seq![MacroEntry { entry_type: MacroEntryType::Timeout, data: v as u32 }]);
            return Some(out);
        },
        None => {},
    }
    assert(!tok@.contains('+'));
    assert(token_entries(tok@) == chars_entries(tok@));
    let mut out: Vec<MacroEntry> = Vec::new();
    let mut i: usize = 0;
    assert(tok@.take(0) =~= Seq::<char>::empty());
    while i < tok.len()
        invariant
            i <= tok@.len(),
            chars_entries(tok@.take(i as int)) == Some(out@),
            token_entries(tok@) == chars_entries(tok@),
        decreases tok.len() - i,
    {
        assert(tok@.take(i + 1).drop_last() =~= tok@.take(i as int));
        match char_entry_exec(tok[i]) {
            Some(e) => {
                out.push(e);
            },
            None => {
                proof {
                    lemma_chars_none_stays(tok@, i as int + 1);
                }
                return None;
            },
        }
        i = i + 1;
    }
    assert(tok@.take(tok@.len() as int) =~= tok@);
    Some(out)
}

proof fn lemma_chars_none_stays(t: Seq<char>, j: int)
    requires
        0 <= j <= t.len(),
        chars_entries(t.take(j)) is None,
    ensures
        chars_entries(t) is None,
    decreases t.len() - j,
{
    if j < t.len() {
        assert(t.take(j + 1).drop_last() =~= t.take(j));
        lemma_chars_none_stays(t, j + 1);
    } else {
        assert(t.take(j) =~= t);
    }
}

proof fn lemma_tokens_err_stays(toks: Seq<Seq<char>>, j: int)
    requires
        0 <= j <= toks.len(),
        tokens_entries(toks.take(j)) is Err,
    ensures
        tokens_entries(toks) == tokens_entries(toks.take(j)),
    decreases toks.len() - j,
{
    if j < toks.len() {
        assert(toks.take(j + 1).drop_last() =~= toks.take(j));
        lemma_tokens_err_stays(toks, j + 1);
    } else {
        assert(toks.take(j) =~= toks);
    }
}

/// Parses a macro body into its entries (see `macro_body_spec`).
pub fn parse_macro_body(body: &[char]) -> (r: Result<Vec<MacroEntry>, String>)
    ensures
        match (r, macro_body_spec(body@)) {
            (Ok(v), Ok(es)) => v@ == es,
            (Err(m), Err(e)) => m@ == e,
            _ => false,
        },
{
    let toks = tokens(body);
    let ghost tv = views_of(toks@);
    let mut out: Vec<MacroEntry> = Vec::new();
    let mut i: usize = 0;
    assert(tv.take(0) =~= Seq::<Seq<char>>::empty());
    while i < toks.len()
        invariant
            i <= toks@.len(),
            tv == views_of(toks@),
            tv == tokens_of(body@),
            tokens_entries(tv.take(i as int)) == Ok::<Seq<MacroEntry>, Seq<char>>(out@),
        decreases toks.len() - i,
    {
        assert(tv.take(i + 1).drop_last() =~= tv.take(i as int));
        assert(tv.take(i + 1).last() == toks@[i as int]@);
        match token_entries_exec(toks[i].as_slice()) {
            Some(more) => {
                let ghost before = out@;
                let mut k: usize = 0;
                while k < more.len()
                    invariant
                        k <= more@.len(),
                        out@ == before + more@.take(k as int),
                    decreases more.len() - k,
                {
                    out.push(more[k]);
                    assert(more@.take(k + 1) =~= more@.take(k as int).push(more@[k as int]));
                    assert(before + more@.take(k + 1) =~= (before + more@.take(k as int)).push(more@[k as int]));
                    k = k + 1;
                }
                assert(more@.take(more@.len() as int) =~= more@);
            },
            None => {
                let m = message("invalid macro token: ", toks[i].as_slice());
                proof {
                    lemma_tokens_err_stays(tv, i as int + 1);
                }
                return Err(m);
            },
        }
        i = i + 1;
    }
    assert(tv.take(toks@.len() as int) =~= tv);
    Ok(out)
}

/// Parses a macro expression (see `macro_expr_spec`).
pub fn parse_macro_expr(s: &[char]) -> (r: Result<Vec<MacroEntry>, String>)
    ensures
        match (r, macro_expr_spec(s@)) {
            (Ok(v), Ok(es)) => v@ == es,
            (Err(m), Err(e)) => m@ == e,
            _ => false,
        },
{
    let n = s.len();
    proof {
        reveal_strlit("macro(");
    }
    if n >= 7 && s[n - 1] == ')' && starts_with_str(s, "macro(") {
        let body = sub_chars(s, 6, n - 1);
        return parse_macro_body(body.as_slice());
    }
    match parse_key_sequence_chars(s) {
        Some((code, mods)) => {
            let v = vec![key_sequence_entry_exec(code, mods)];
            assert(v@ =~= seq![key_sequence_entry(code, mods)]);
            Ok(v)
        },
        None => {
            if n == 1 {
                let v = vec![MacroEntry { entry_type: MacroEntryType::Unicode, data: s[0] as u32 }];
                assert(v@ =~= seq![MacroEntry { entry_type: MacroEntryType::Unicode, data: s@[0] as u32 }]);
                Ok(v)
            } else {
                Err(message("invalid macro: ", s))
            }
        },
    }
}

/// Parses a macro expression: `macro(...)`, a key sequence, or a single
/// character (see `macro_expr_spec`).
pub fn config_parse_macro_expression(s: &str) -> (r: Result<Macro, String>)
    ensures
        match (r, macro_expr_spec(s@)) {
            (Ok(m), Ok(es)) => m@ == es,
            (Err(m), Err(e)) => m@ == e,
            _ => false,
        },
{
    let v = str_chars(s);
    match parse_macro_expr(v.as_slice()) {
        Ok(entries) => Ok(Macro { entries }),
        Err(e) => Err(e),
    }
}


pub open spec fn is_alnum(c: char) -> bool {
    ('a' <= c && c <= 'z') || ('A' <= c && c <= 'Z') || ('0' <= c && c <= '9')
}

/// Number of leading ASCII letters and digits of `s`.
pub open spec fn alnum_len(s: Seq<char>) -> nat
    decreases s.len(),
{
    if s.len() > 0 && is_alnum(s[0]) {
        1 + alnum_len(s.drop_first())
    } else {
        0
    }
}

proof fn lemma_alnum_len(s: Seq<char>, i: int)
    requires
        0 <= i <= s.len(),
        forall|j: int| 0 <= j < i ==> is_alnum(#[trigger] s[j]),
        i == s.len() || !is_alnum(s[i]),
    ensures
        alnum_len(s) == i,
    decreases i,
{
    if i > 0 {
        assert forall|j: int| 0 <= j < i - 1 implies is_alnum(#[trigger] s.drop_first()[j]) by {
            assert(s.drop_first()[j] == s[j + 1]);
        }
        lemma_alnum_len(s.drop_first(), i - 1);
    }
}

/// The pieces of `s` between commas that are outside parentheses, with the
/// nesting depth after `s`.
pub open spec fn split_top_state(s: Seq<char>) -> (Seq<Seq<char>>, nat)
    decreases s.len(),
{
    if s.len() == 0 {
        (seq![Seq::<char>::empty()], 0)
    } else {
        let (parts, d) = split_top_state(s.drop_last());
        let c = s.last();
        if c == ',' && d == 0 {
            (parts.push(Seq::<char>::empty()), 0)
        } else {
            let p2 = parts.update(parts.len() - 1, parts.last().push(c));
            if c == '(' {
                (p2, d + 1)
            } else if c == ')' {
                (p2, if d > 0 { (d - 1) as nat } else { 0 })
            } else {
                (p2, d)
            }
        }
    }
}

pub proof fn lemma_split_top(s: Seq<char>)
    ensures
        split_top_state(s).0.len() >= 1,
        forall|i: int| 0 <= i < split_top_state(s).0.len() ==> (#[trigger] split_top_state(s).0[i]).len() <= s.len(),
    decreases s.len(),
{
    if s.len() > 0 {
        lemma_split_top(s.drop_last());
    }
}

pub proof fn lemma_trim_len(s: Seq<char>)
    ensures
        trim_seq(s).len() <= s.len(),
{
    lemma_trim_start_len(s);
    lemma_trim_end_len(crate::text::trim_start_seq(s));
}

pub proof fn lemma_trim_start_len(s: Seq<char>)
    ensures
        crate::text::trim_start_seq(s).len() <= s.len(),
    decreases s.len(),
{
    if s.len() > 0 && is_space(s[0]) {
        lemma_trim_start_len(s.drop_first());
    }
}

pub proof fn lemma_trim_end_len(s: Seq<char>)
    ensures
        crate::text::trim_end_seq(s).len() <= s.len(),
    decreases s.len(),
{
    if s.len() > 0 && is_space(s.last()) {
        lemma_trim_end_len(s.drop_last());
    }
}

/// The trimmed arguments written between the parentheses of a call.
pub open spec fn args_of(content: Seq<char>) -> Seq<Seq<char>> {
    split_top_state(content).0.map_values(|p: Seq<char>| trim_seq(p))
}

/// A call `name(arg, ...)`: a name of ASCII letters and digits, then the
/// arguments in parentheses that end the text.
pub open spec fn fn_call_spec(s: Seq<char>) -> Option<(Seq<char>, Seq<Seq<char>>)> {
    let n = alnum_len(s);
    if n >= 1 && s.len() >= n + 2 && s[n as int] == '(' && s.last() == ')' {
        Some((s.take(n as int), args_of(s.subrange(n + 1int, s.len() - 1))))
    } else if n >= 1 && n == s.len() {
        Some((s, Seq::empty()))
    } else {
        None
    }
}

pub proof fn lemma_args_shorter(s: Seq<char>)
    requires
        fn_call_spec(s) is Some,
    ensures
        forall|i: int| 0 <= i < fn_call_spec(s).unwrap().1.len() ==> (#[trigger] fn_call_spec(s).unwrap().1[i]).len() < s.len(),
{
    let n = alnum_len(s);
    if n == s.len() {
        return;
    }
    let content = s.subrange(n + 1int, s.len() - 1);
    lemma_split_top(content);
    assert forall|i: int| 0 <= i < fn_call_spec(s).unwrap().1.len() implies (#[trigger] fn_call_spec(s).unwrap().1[i]).len() < s.len() by {
        lemma_trim_len(split_top_state(content).0[i]);
    }
}

fn split_top(s: &[char]) -> (r: Vec<Vec<char>>)
    ensures
        views_of(r@) == split_top_state(s@).0,
{
    let mut parts: Vec<Vec<char>> = Vec::new();
    let mut cur: Vec<char> = Vec::new();
    let mut depth: usize = 0;
    let mut i: usize = 0;
    assert(s@.take(0) =~= Seq::<char>::empty());
    while i < s.len()
        invariant
            i <= s@.len(),
            depth <= i,
            views_of(parts@).push(cur@) == split_top_state(s@.take(i as int)).0,
            depth == split_top_state(s@.take(i as int)).1,
        decreases s.len() - i,
    {
        let c = s[i];
        proof {
            assert(s@.take(i + 1).drop_last() =~= s@.take(i as int));
            assert(s@.take(i + 1).last() == c);
            lemma_split_top(s@.take(i as int));
        }
        if c == ',' && depth == 0 {
            let ghost before = views_of(parts@);
            let done = cur;
            cur = Vec::new();
            parts.push(done);
            assert(views_of(parts@) =~= before.push(done@));
            assert(views_of(parts@).push(cur@) =~= split_top_state(s@.take(i + 1)).0);
        } else {
            cur.push(c);
            assert(views_of(parts@).push(cur@) =~= split_top_state(s@.take(i + 1)).0);
            if c == '(' {
                depth = depth + 1;
            } else if c == ')' {
                if depth > 0 {
                    depth = depth - 1;
                }
            }
        }
        i = i + 1;
    }
    assert(s@.take(s@.len() as int) =~= s@);
    let ghost before = views_of(parts@);
    parts.push(cur);
    assert(views_of(parts@) =~= before.push(cur@));
    parts
}

fn parse_fn_call(s: &[char]) -> (r: Option<(Vec<char>, Vec<Vec<char>>)>)
    ensures
        match (r, fn_call_spec(s@)) {
            (Some((name, args)), Some((n2, a2))) => name@ == n2 && views_of(args@) == a2,
            (None, None) => true,
            _ => false,
        },
{
    let mut n: usize = 0;
    while n < s.len() && (('a' <= s[n] && s[n] <= 'z') || ('A' <= s[n] && s[n] <= 'Z') || ('0' <= s[n] && s[n] <= '9'))
        invariant
            n <= s@.len(),
            forall|j: int| 0 <= j < n ==> is_alnum(#[trigger] s@[j]),
        decreases s.len() - n,
    {
        n = n + 1;
    }
    proof {
        lemma_alnum_len(s@, n as int);
    }
    if n >= 1 && s.len() - n >= 2 && s[n] == '(' && s[s.len() - 1] == ')' {
        let name = sub_chars(s, 0, n);
        let content = sub_chars(s, n + 1, s.len() - 1);
        let parts = split_top(content.as_slice());
        let mut args: Vec<Vec<char>> = Vec::new();
        let mut i: usize = 0;
        while i < parts.len()
            invariant
                i <= parts@.len(),
                views_of(parts@) == split_top_state(content@).0,
                views_of(args@) =~= views_of(parts@).take(i as int).map_values(|p: Seq<char>| trim_seq(p)),
            decreases parts.len() - i,
        {
            let a = trim_chars(parts[i].as_slice());
            let ghost before = views_of(args@);
            args.push(a);
            assert(views_of(args@) =~= before.push(a@));
            assert(views_of(parts@).take(i + 1).map_values(|p: Seq<char>| trim_seq(p)) =~= views_of(parts@).take(i as int).map_values(|p: Seq<char>| trim_seq(p)).push(trim_seq(parts@[i as int]@)));
            i = i + 1;
        }
        assert(views_of(parts@).take(parts@.len() as int) =~= views_of(parts@));
        Some((name, args))
    } else if n >= 1 && n == s.len() {
        let name = sub_chars(s, 0, n);
        assert(name@ =~= s@);
        let args: Vec<Vec<char>> = Vec::new();
        assert(views_of(args@) =~= Seq::<Seq<char>>::empty());
        Some((name, args))
    } else {
        None
    }
}

/// The index of the first layer named `name`, from layer `i` on.
pub open spec fn layer_index_from(layers: Seq<LayerView>, name: Seq<char>, i: int) -> Option<int>
    decreases layers.len() - i,
{
    if i < 0 || i >= layers.len() {
        None
    } else if layers[i].name == name {
        Some(i)
    } else {
        layer_index_from(layers, name, i + 1)
    }
}

/// The index of the first layer named `name`.
pub open spec fn layer_index(cv: ConfigView, name: Seq<char>) -> Option<int> {
    layer_index_from(cv.layers, name, 0)
}

pub proof fn lemma_layer_index_bound(layers: Seq<LayerView>, name: Seq<char>, i: int)
    ensures
        layer_index_from(layers, name, i) matches Some(k) ==> i <= k < layers.len() && layers[k].name == name,
    decreases layers.len() - i,
{
    if 0 <= i < layers.len() && layers[i].name != name {
        lemma_layer_index_bound(layers, name, i + 1);
    }
}

/// The index of the first layer named `name`.
pub fn find_layer(config: &Config, name: &[char]) -> (r: Option<usize>)
    ensures
        match r {
            Some(i) => layer_index(config@, name@) == Some(i as int) && i < config.layers@.len(),
            None => layer_index(config@, name@) is None,
        },
{
    let mut i: usize = 0;
    while i < config.layers.len()
        invariant
            i <= config.layers@.len(),
            layer_index(config@, name@) == layer_index_from(config@.layers, name@, i as int),
        decreases config.layers.len() - i,
    {
        assert(config@.layers[i as int].name == config.layers@[i as int].name@);
        if chars_eq_str(name, config.layers[i].name.as_str()) {
            return Some(i);
        }
        i = i + 1;
    }
    None
}

/// The index of the first layer named `name`.
pub fn config_get_layer_index(config: &Config, name: &str) -> (r: Option<usize>)
    ensures
        match r {
            Some(i) => layer_index(config@, name@) == Some(i as int) && i < config.layers@.len(),
            None => layer_index(config@, name@) is None,
        },
{
    let v = str_chars(name);
    find_layer(config, v.as_slice())
}


/// Parser state: the number of warnings given so far and the line being read.
#[derive(Clone, Copy, Debug)]
pub struct ParseCtx {
    pub nr_warnings: usize,
    pub current_line: usize,
}

impl ParseCtx {
    pub fn new() -> (c: ParseCtx)
        ensures
            c.nr_warnings == 0,
            c.current_line == 0,
    {
        ParseCtx { nr_warnings: 0, current_line: 0 }
    }
}

pub open spec fn with_descriptor(cv: ConfigView, d: Descriptor) -> ConfigView {
    ConfigView { descriptors: cv.descriptors.push(d), ..cv }
}

pub open spec fn with_macro(cv: ConfigView, m: Seq<MacroEntry>) -> ConfigView {
    ConfigView { macros: cv.macros.push(m), ..cv }
}

pub open spec fn with_command(cv: ConfigView, c: Seq<char>) -> ConfigView {
    ConfigView { commands: cv.commands.push(c), ..cv }
}

/// Actions that take one layer.
pub open spec fn layer_op(name: Seq<char>) -> Option<Op> {
    if name == "layer"@ {
        Some(Op::Layer)
    } else if name == "toggle"@ {
        Some(Op::Toggle)
    } else if name == "swap"@ {
        Some(Op::Swap)
    } else if name == "oneshot"@ {
        Some(Op::Oneshot)
    } else if name == "layout"@ {
        Some(Op::Layout)
    } else {
        None
    }
}

/// Actions that take a layer and a macro.
pub open spec fn layer_macro_op(name: Seq<char>) -> Option<Op> {
    if name == "layerm"@ {
        Some(Op::LayerM)
    } else if name == "togglem"@ {
        Some(Op::ToggleM)
    } else if name == "swapm"@ {
        Some(Op::SwapM)
    } else if name == "oneshotm"@ {
        Some(Op::OneshotM)
    } else {
        None
    }
}

/// Actions that take a layer, an action and a timeout.
pub open spec fn overload_to_op(name: Seq<char>) -> Option<Op> {
    if name == "overloadt"@ || name == "overload2"@ {
        Some(Op::OverloadTimeout)
    } else if name == "overloadt2"@ {
        Some(Op::OverloadTimeoutTap)
    } else {
        None
    }
}

/// A timeout argument: a number up to 65535, or 0 when it is not one.
pub open spec fn timeout_arg(a: Seq<char>) -> u16 {
    match unsigned_value(a) {
        Some(v) => if v <= 65535 {
            v as u16
        } else {
            0
        },
        None => 0,
    }
}

/// True when `s` is written `command(...)`.
pub open spec fn is_command_call(s: Seq<char>) -> bool {
    s.len() >= 9 && s.take(8) == "command("@ && s.last() == ')'
}

pub open spec fn layer_desc(op: Op, l: int) -> Descriptor {
    Descriptor { op, data: DescriptorData::Layer(DescLayer { idx: l as i16 }) }
}

/// What the descriptor text `s` means, and the configuration after the
/// descriptors, macros and commands it needs are appended:
/// - empty text is `clear`;
/// - a key sequence (`C-a`);
/// - `command(...)`;
/// - a macro expression (`macro(...)` or a single character);
/// - an action `name(args)`, or `name` alone for no arguments (`layer`,
///   `toggle`, `swap`, `oneshot`, `layout`,
///   `layerm`, `togglem`, `swapm`, `oneshotm`, `clearm`, `overload`,
///   `oneshotk`, `overloadt`, `overload2`, `overloadt2`, `overloadi`,
///   `timeout`, `clear`, `repeat`).
/// Anything else, an unknown action, a wrong number of arguments or an
/// unknown layer is an error.
pub open spec fn descriptor_spec(s: Seq<char>, cv: ConfigView) -> (Result<Descriptor, Seq<char>>, ConfigView)
    decreases s.len(),
{
    if s.len() == 0 {
        (Ok(Descriptor { op: Op::Clear, data: DescriptorData::NoData }), cv)
    } else {
        match key_sequence_spec(s) {
            Some((code, mods)) => (
                Ok(
                    Descriptor {
                        op: Op::KeySequence,
                        data: DescriptorData::KeySequence(DescKeySequence { code, mods }),
                    },
                ),
                cv,
            ),
            None => if is_command_call(s) {
                (
                    Ok(
                        Descriptor {
                            op: Op::Command,
                            data: DescriptorData::Command(cv.commands.len() as usize),
                        },
                    ),
                    with_command(cv, s.subrange(8, s.len() - 1)),
                )
            } else if is_macro_call(s) || s.len() == 1 {
                match macro_expr_spec(s) {
                    Ok(m) => (
                        Ok(
                            Descriptor {
                                op: Op::Macro,
                                data: DescriptorData::Macro(cv.macros.len() as usize),
                            },
                        ),
                        with_macro(cv, m),
                    ),
                    Err(e) => (Err(e), cv),
                }
            } else {
                match fn_call_spec(s) {
                    None => (Err("invalid descriptor: "@ + s), cv),
                    Some((name, args)) => {
                        proof {
                            lemma_args_shorter(s);
                        }
                        let n = args.len();
                        if layer_op(name) is Some {
                            if n != 1 {
                                (Err("invalid arguments: "@ + name), cv)
                            } else {
                                match layer_index(cv, args[0]) {
                                    None => (Err("Unknown layer "@ + args[0]), cv),
                                    Some(l) => (Ok(layer_desc(layer_op(name).unwrap(), l)), cv),
                                }
                            }
                        } else if layer_macro_op(name) is Some {
                            if n != 2 {
                                (Err("invalid arguments: "@ + name), cv)
                            } else {
                                match layer_index(cv, args[0]) {
                                    None => (Err("Unknown layer "@ + args[0]), cv),
                                    Some(l) => match macro_expr_spec(args[1]) {
                                        Err(e) => (Err(e), cv),
                                        Ok(m) => (
                                            Ok(
                                                Descriptor {
                                                    op: layer_macro_op(name).unwrap(),
                                                    data: DescriptorData::LayerMacro(
                                                        DescLayerMacro {
                                                            idx: l as i16,
                                                            macro_idx: cv.macros.len() as usize,
                                                        },
                                                    ),
                                                },
                                            ),
                                            with_macro(cv, m),
                                        ),
                                    },
                                }
                            }
                        } else if name == "clearm"@ {
                            if n != 1 {
                                (Err("invalid arguments: "@ + name), cv)
                            } else {
                                match macro_expr_spec(args[0]) {
                                    Err(e) => (Err(e), cv),
                                    Ok(m) => (
                                        Ok(
                                            Descriptor {
                                                op: Op::ClearM,
                                                data: DescriptorData::Macro(cv.macros.len() as usize),
                                            },
                                        ),
                                        with_macro(cv, m),
                                    ),
                                }
                            }
                        } else if name == "overload"@ || name == "oneshotk"@ {
                            if n != 2 {
                                (Err("invalid arguments: "@ + name), cv)
                            } else {
                                match layer_index(cv, args[0]) {
                                    None => (Err("Unknown layer "@ + args[0]), cv),
                                    Some(l) => {
                                        let (r, cv1) = descriptor_spec(args[1], cv);
                                        match r {
                                            Err(e) => (Err(e), cv1),
                                            Ok(a) => {
                                                let ov = DescOverload {
                                                    layer_idx: l as i16,
                                                    action_idx: cv1.descriptors.len() as usize,
                                                };
                                                (
                                                    Ok(
                                                        if name == "overload"@ {
                                                            Descriptor {
                                                                op: Op::Overload,
                                                                data: DescriptorData::Overload(ov),
                                                            }
                                                        } else {
                                                            Descriptor {
                                                                op: Op::OneshotK,
                                                                data: DescriptorData::LayerAction(ov),
                                                            }
                                                        },
                                                    ),
                                                    with_descriptor(cv1, a),
                                                )
                                            },
                                        }
                                    },
                                }
                            }
                        } else if overload_to_op(name) is Some {
                            if n != 3 {
                                (Err("invalid arguments: "@ + name), cv)
                            } else {
                                match layer_index(cv, args[0]) {
                                    None => (Err("Unknown layer "@ + args[0]), cv),
                                    Some(l) => {
                                        let (r, cv1) = descriptor_spec(args[1], cv);
                                        match r {
                                            Err(e) => (Err(e), cv1),
                                            Ok(a) => (
                                                Ok(
                                                    Descriptor {
                                                        op: overload_to_op(name).unwrap(),
                                                        data: DescriptorData::OverloadTo(
                                                            DescOverloadTo {
                                                                layer_idx: l as i16,
                                                                action_idx: cv1.descriptors.len() as usize,
                                                                timeout: timeout_arg(args[2]),
                                                            },
                                                        ),
                                                    },
                                                ),
                                                with_descriptor(cv1, a),
                                            ),
                                        }
                                    },
                                }
                            }
                        } else if name == "overloadi"@ || name == "timeout"@ {
                            if n != 3 {
                                (Err("invalid arguments: "@ + name), cv)
                            } else {
                                let second = if name == "overloadi"@ {
                                    args[1]
                                } else {
                                    args[2]
                                };
                                let t = if name == "overloadi"@ {
                                    timeout_arg(args[2])
                                } else {
                                    timeout_arg(args[1])
                                };
                                let (r1, cv1) = descriptor_spec(args[0], cv);
                                match r1 {
                                    Err(e) => (Err(e), cv1),
                                    Ok(a1) => {
                                        let (r2, cv2) = descriptor_spec(second, cv1);
                                        match r2 {
                                            Err(e) => (Err(e), cv2),
                                            Ok(a2) => {
                                                let i1 = cv2.descriptors.len() as usize;
                                                let i2 = (cv2.descriptors.len() + 1) as usize;
                                                (
                                                    Ok(
                                                        if name == "overloadi"@ {
                                                            Descriptor {
                                                                op: Op::OverloadIdleTimeout,
                                                                data: DescriptorData::OverloadIdle(
                                                                    DescOverloadIdle {
                                                                        action1_idx: i1,
                                                                        action2_idx: i2,
                                                                        timeout: t,
                                                                    },
                                                                ),
                                                            }
                                                        } else {
                                                            Descriptor {
                                                                op: Op::Timeout,
                                                                data: DescriptorData::Timeout(
                                                                    DescTimeout {
                                                                        action1_idx: i1,
                                                                        timeout: t,
                                                                        action2_idx: i2,
                                                                    },
                                                                ),
                                                            }
                                                        },
                                                    ),
                                                    with_descriptor(with_descriptor(cv2, a1), a2),
                                                )
                                            },
                                        }
                                    },
                                }
                            }
                        } else if name == "clear"@ {
                            (Ok(Descriptor { op: Op::Clear, data: DescriptorData::NoData }), cv)
                        } else if name == "repeat"@ {
                            (Ok(Descriptor { op: Op::Repeat, data: DescriptorData::NoData }), cv)
                        } else {
                            (Err("unknown function: "@ + name), cv)
                        }
                    },
                }
            }
        }
    }
}


fn layer_op_exec(name: &[char]) -> (r: Option<Op>)
    ensures
        r == layer_op(name@),
{
    if chars_eq_str(name, "layer") {
        Some(Op::Layer)
    } else if chars_eq_str(name, "toggle") {
        Some(Op::Toggle)
    } else if chars_eq_str(name, "swap") {
        Some(Op::Swap)
    } else if chars_eq_str(name, "oneshot") {
        Some(Op::Oneshot)
    } else if chars_eq_str(name, "layout") {
        Some(Op::Layout)
    } else {
        None
    }
}

fn layer_macro_op_exec(name: &[char]) -> (r: Option<Op>)
    ensures
        r == layer_macro_op(name@),
{
    if chars_eq_str(name, "layerm") {
        Some(Op::LayerM)
    } else if chars_eq_str(name, "togglem") {
        Some(Op::ToggleM)
    } else if chars_eq_str(name, "swapm") {
        Some(Op::SwapM)
    } else if chars_eq_str(name, "oneshotm") {
        Some(Op::OneshotM)
    } else {
        None
    }
}

fn overload_to_op_exec(name: &[char]) -> (r: Option<Op>)
    ensures
        r == overload_to_op(name@),
{
    if chars_eq_str(name, "overloadt") || chars_eq_str(name, "overload2") {
        Some(Op::OverloadTimeout)
    } else if chars_eq_str(name, "overloadt2") {
        Some(Op::OverloadTimeoutTap)
    } else {
        None
    }
}

fn timeout_arg_exec(a: &[char]) -> (t: u16)
    ensures
        t == timeout_arg(a@),
{
    match parse_unsigned(a, 65535) {
        Some(v) => v as u16,
        None => 0,
    }
}

/// The result of parsing descriptor text `s` when the configuration was `pre`
/// before and is `post` after (see `descriptor_spec`).
pub open spec fn descriptor_post(
    s: Seq<char>,
    pre: ConfigView,
    post: ConfigView,
    r: Result<Descriptor, String>,
) -> bool {
    let (res, cv) = descriptor_spec(s, pre);
    post == cv && match (r, res) {
        (Ok(d), Ok(d2)) => d == d2,
        (Err(m), Err(e)) => m@ == e,
        _ => false,
    }
}

fn push_descriptor(config: &mut Config, d: Descriptor)
    ensures
        final(config)@ == with_descriptor(old(config)@, d),
{
    config.descriptors.push(d);
    assert(config@ =~= with_descriptor(old(config)@, d));
}

fn push_macro(config: &mut Config, entries: Vec<MacroEntry>)
    ensures
        final(config)@ == with_macro(old(config)@, entries@),
{
    let m = Macro { entries };
    config.macros.push(m);
    assert(config@.macros =~= old(config)@.macros.push(m@));
    assert(config@ =~= with_macro(old(config)@, entries@));
}

fn push_command(config: &mut Config, c: &[char])
    ensures
        final(config)@ == with_command(old(config)@, c@),
{
    let s = string_from_chars(c);
    config.commands.push(s);
    assert(config@.commands =~= old(config)@.commands.push(c@));
    assert(config@ =~= with_command(old(config)@, c@));
}

/// Parses descriptor text (see `descriptor_spec`), appending to `config` the
/// descriptors, macros and commands that the result refers to.
pub fn parse_descriptor(s: &[char], config: &mut Config) -> (r: Result<Descriptor, String>)
    ensures
        descriptor_post(s@, old(config)@, final(config)@, r),
        final(config)@.layers == old(config)@.layers,
    decreases s@.len(),
{
    let n = s.len();
    if n == 0 {
        return Ok(Descriptor { op: Op::Clear, data: DescriptorData::NoData });
    }
    match parse_key_sequence_chars(s) {
        Some((code, mods)) => {
            return Ok(
                Descriptor {
                    op: Op::KeySequence,
                    data: DescriptorData::KeySequence(DescKeySequence { code, mods }),
                },
            );
        },
        None => {},
    }
    proof {
        reveal_strlit("command(");
        reveal_strlit("macro(");
    }
    if n >= 9 && s[n - 1] == ')' && starts_with_str(s, "command(") {
        let cmd = sub_chars(s, 8, n - 1);
        let idx = config.commands.len();
        push_command(config, cmd.as_slice());
        return Ok(Descriptor { op: Op::Command, data: DescriptorData::Command(idx) });
    }
    if (n >= 7 && s[n - 1] == ')' && starts_with_str(s, "macro(")) || n == 1 {
        match parse_macro_expr(s) {
            Ok(entries) => {
                let idx = config.macros.len();
                push_macro(config, entries);
                return Ok(Descriptor { op: Op::Macro, data: DescriptorData::Macro(idx) });
            },
            Err(e) => {
                return Err(e);
            },
        }
    }
    let call = parse_fn_call(s);
    match call {
        None => Err(message("invalid descriptor: ", s)),
        Some((name, args)) => {
            proof {
                lemma_args_shorter(s@);
            }
            let ghost av = views_of(args@);
            assert(forall|i: int| 0 <= i < args@.len() ==> args@[i]@ == #[trigger] av[i]);
            let nargs = args.len();
            let lop = layer_op_exec(name.as_slice());
            let lmop = layer_macro_op_exec(name.as_slice());
            let toop = overload_to_op_exec(name.as_slice());
            if let Some(op) = lop {
                if nargs != 1 {
                    return Err(message("invalid arguments: ", name.as_slice()));
                }
                match find_layer(config, args[0].as_slice()) {
                    None => Err(message("Unknown layer ", args[0].as_slice())),
                    Some(l) => Ok(Descriptor { op, data: DescriptorData::Layer(DescLayer { idx: l as i16 }) }),
                }
            } else if let Some(op) = lmop {
                if nargs != 2 {
                    return Err(message("invalid arguments: ", name.as_slice()));
                }
                match find_layer(config, args[0].as_slice()) {
                    None => Err(message("Unknown layer ", args[0].as_slice())),
                    Some(l) => match parse_macro_expr(args[1].as_slice()) {
                        Err(e) => Err(e),
                        Ok(entries) => {
                            let idx = config.macros.len();
                            push_macro(config, entries);
                            Ok(
                                Descriptor {
                                    op,
                                    data: DescriptorData::LayerMacro(
                                        DescLayerMacro { idx: l as i16, macro_idx: idx },
                                    ),
                                },
                            )
                        },
                    },
                }
            } else if chars_eq_str(name.as_slice(), "clearm") {
                if nargs != 1 {
                    return Err(message("invalid arguments: ", name.as_slice()));
                }
                match parse_macro_expr(args[0].as_slice()) {
                    Err(e) => Err(e),
                    Ok(entries) => {
                        let idx = config.macros.len();
                        push_macro(config, entries);
                        Ok(Descriptor { op: Op::ClearM, data: DescriptorData::Macro(idx) })
                    },
                }
            } else if chars_eq_str(name.as_slice(), "overload") || chars_eq_str(name.as_slice(), "oneshotk") {
                if nargs != 2 {
                    return Err(message("invalid arguments: ", name.as_slice()));
                }
                match find_layer(config, args[0].as_slice()) {
                    None => Err(message("Unknown layer ", args[0].as_slice())),
                    Some(l) => {
                        let r = parse_descriptor(args[1].as_slice(), config);
                        match r {
                            Err(e) => Err(e),
                            Ok(a) => {
                                let idx = config.descriptors.len();
                                push_descriptor(config, a);
                                let ov = DescOverload { layer_idx: l as i16, action_idx: idx };
                                if chars_eq_str(name.as_slice(), "overload") {
                                    Ok(Descriptor { op: Op::Overload, data: DescriptorData::Overload(ov) })
                                } else {
                                    Ok(Descriptor { op: Op::OneshotK, data: DescriptorData::LayerAction(ov) })
                                }
                            },
                        }
                    },
                }
            } else if let Some(op) = toop {
                if nargs != 3 {
                    return Err(message("invalid arguments: ", name.as_slice()));
                }
                match find_layer(config, args[0].as_slice()) {
                    None => Err(message("Unknown layer ", args[0].as_slice())),
                    Some(l) => {
                        let r = parse_descriptor(args[1].as_slice(), config);
                        match r {
                            Err(e) => Err(e),
                            Ok(a) => {
                                let idx = config.descriptors.len();
                                push_descriptor(config, a);
                                let timeout = timeout_arg_exec(args[2].as_slice());
                                Ok(
                                    Descriptor {
                                        op,
                                        data: DescriptorData::OverloadTo(
                                            DescOverloadTo { layer_idx: l as i16, action_idx: idx, timeout },
                                        ),
                                    },
                                )
                            },
                        }
                    },
                }
            } else if chars_eq_str(name.as_slice(), "overloadi") || chars_eq_str(name.as_slice(), "timeout") {
                if nargs != 3 {
                    return Err(message("invalid arguments: ", name.as_slice()));
                }
                let is_idle = chars_eq_str(name.as_slice(), "overloadi");
                let second: usize = if is_idle {
                    1
                } else {
                    2
                };
                let t = if is_idle {
                    timeout_arg_exec(args[2].as_slice())
                } else {
                    timeout_arg_exec(args[1].as_slice())
                };
                let r1 = parse_descriptor(args[0].as_slice(), config);
                match r1 {
                    Err(e) => Err(e),
                    Ok(a1) => {
                        let r2 = parse_descriptor(args[second].as_slice(), config);
                        match r2 {
                            Err(e) => Err(e),
                            Ok(a2) => {
                                let i1 = config.descriptors.len();
                                push_descriptor(config, a1);
                                let i2 = config.descriptors.len();
                                push_descriptor(config, a2);
                                if is_idle {
                                    Ok(
                                        Descriptor {
                                            op: Op::OverloadIdleTimeout,
                                            data: DescriptorData::OverloadIdle(
                                                DescOverloadIdle { action1_idx: i1, action2_idx: i2, timeout: t },
                                            ),
                                        },
                                    )
                                } else {
                                    Ok(
                                        Descriptor {
                                            op: Op::Timeout,
                                            data: DescriptorData::Timeout(
                                                DescTimeout { action1_idx: i1, timeout: t, action2_idx: i2 },
                                            ),
                                        },
                                    )
                                }
                            },
                        }
                    },
                }
            } else if chars_eq_str(name.as_slice(), "clear") {
                Ok(Descriptor { op: Op::Clear, data: DescriptorData::NoData })
            } else if chars_eq_str(name.as_slice(), "repeat") {
                Ok(Descriptor { op: Op::Repeat, data: DescriptorData::NoData })
            } else {
                Err(message("unknown function: ", name.as_slice()))
            }
        },
    }
}

/// Parses descriptor text (see `descriptor_spec`), appending to `config` the
/// descriptors, macros and commands that the result refers to. Parsing a
/// descriptor gives no warnings, so `ctx` is left as it is.
pub fn config_parse_descriptor(s: &str, config: &mut Config, ctx: &mut ParseCtx) -> (r: Result<Descriptor, String>)
    ensures
        descriptor_post(s@, old(config)@, final(config)@, r),
        *final(ctx) == *old(ctx),
{
    let v = str_chars(s);
    parse_descriptor(v.as_slice(), config)
}

} // verus!
