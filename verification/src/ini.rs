//! The INI-style file format of the configuration: `[section]` headers,
//! `key = value` or bare `key` entries, and `#` comment lines.

use vstd::prelude::*;
use crate::text::{
    first_index_of, find_char, split_chars, split_seq, string_from_chars, str_chars, sub_chars,
    trim_chars, trim_seq, views_of,
};

verus! {

#[derive(Clone, Debug)]
pub struct IniEntry {
    pub key: String,
    pub val: Option<String>,
    /// Line number (from 1).
    pub lnum: usize,
}

#[derive(Clone, Debug)]
pub struct IniSection {
    pub name: String,
    /// Line number (from 1) of the header.
    pub lnum: usize,
    pub entries: Vec<IniEntry>,
}

#[derive(Clone, Debug)]
pub struct Ini {
    pub sections: Vec<IniSection>,
}

pub struct IniEntryView {
    pub key: Seq<char>,
    pub val: Option<Seq<char>>,
    pub lnum: nat,
}

pub struct IniSectionView {
    pub name: Seq<char>,
    pub lnum: nat,
    pub entries: Seq<IniEntryView>,
}

pub open spec fn opt_string_view(o: Option<String>) -> Option<Seq<char>> {
    match o {
        Some(s) => Some(s@),
        None => None,
    }
}

impl View for IniEntry {
    type V = IniEntryView;

    open spec fn view(&self) -> IniEntryView {
        IniEntryView { key: self.key@, val: opt_string_view(self.val), lnum: self.lnum as nat }
    }
}

impl View for IniSection {
    type V = IniSectionView;

    open spec fn view(&self) -> IniSectionView {
        IniSectionView {
            name: self.name@,
            lnum: self.lnum as nat,
            entries: self.entries@.map_values(|e: IniEntry| e@),
        }
    }
}

impl View for Ini {
    type V = Seq<IniSectionView>;

    open spec fn view(&self) -> Seq<IniSectionView> {
        self.sections@.map_values(|s: IniSection| s@)
    }
}

/// What one line of the file is.
pub enum LineKind {
    Blank,
    Header(Seq<char>),
    Entry(Seq<char>, Option<Seq<char>>),
}

/// A trimmed line is blank or a comment when it is empty or starts with `#`;
/// it is a header when it is `[name]`; otherwise it is an entry, `key = value`
/// split at the first `=` with both sides trimmed, or a bare key.
pub open spec fn classify_line(line: Seq<char>) -> LineKind {
    let t = trim_seq(line);
    if t.len() == 0 || t[0] == '#' {
        LineKind::Blank
    } else if t.len() >= 2 && t[0] == '[' && t.last() == ']' {
        LineKind::Header(t.subrange(1, t.len() - 1))
    } else {
        match first_index_of(t, '=') {
            Some(k) => LineKind::Entry(trim_seq(t.take(k)), Some(trim_seq(t.skip(k + 1)))),
            None => LineKind::Entry(t, None),
        }
    }
}

/// The sections of the lines `lines` (numbered from 1), or `None` when an
/// entry comes before the first header.
pub open spec fn ini_of_lines(lines: Seq<Seq<char>>) -> Option<Seq<IniSectionView>>
    decreases lines.len(),
{
    if lines.len() == 0 {
        Some(Seq::empty())
    } else {
        match ini_of_lines(lines.drop_last()) {
            None => None,
            Some(secs) => match classify_line(lines.last()) {
                LineKind::Blank => Some(secs),
                LineKind::Header(name) => Some(
                    secs.push(IniSectionView { name, lnum: lines.len(), entries: Seq::empty() }),
                ),
                LineKind::Entry(key, val) => if secs.len() == 0 {
                    None
                } else {
                    let last = secs.last();
                    Some(
                        secs.update(
                            secs.len() - 1,
                            IniSectionView {
                                entries: last.entries.push(
                                    IniEntryView { key, val, lnum: lines.len() },
                                ),
                                ..last
                            },
                        ),
                    )
                }
            },
        }
    }
}

proof fn lemma_ini_none_stays(lines: Seq<Seq<char>>, j: int)
    requires
        0 <= j <= lines.len(),
        ini_of_lines(lines.take(j)) is None,
    ensures
        ini_of_lines(lines.take(lines.len() as int)) is None,
    decreases lines.len() - j,
{
    if j < lines.len() {
        assert(lines.take(j + 1).drop_last() =~= lines.take(j));
        lemma_ini_none_stays(lines, j + 1);
    }
}

/// The sections of the text `s`, split into lines at `\n`.
pub open spec fn ini_spec(s: Seq<char>) -> Option<Seq<IniSectionView>> {
    ini_of_lines(split_seq(s, '\n'))
}

enum ExecLine {
    Blank,
    Header(Vec<char>),
    Entry(Vec<char>, Option<Vec<char>>),
}

fn classify(line: &[char]) -> (r: ExecLine)
    ensures
        match (r, classify_line(line@)) {
            (ExecLine::Blank, LineKind::Blank) => true,
            (ExecLine::Header(n), LineKind::Header(m)) => n@ == m,
            (ExecLine::Entry(k, v), LineKind::Entry(k2, v2)) => k@ == k2 && match (v, v2) {
                (Some(a), Some(b)) => a@ == b,
                (None, None) => true,
                _ => false,
            },
            _ => false,
        },
{
    let t = trim_chars(line);
    let n = t.len();
    if n == 0 || t[0] == '#' {
        ExecLine::Blank
    } else if n >= 2 && t[0] == '[' && t[n - 1] == ']' {
        ExecLine::Header(sub_chars(t.as_slice(), 1, n - 1))
    } else {
        match find_char(t.as_slice(), '=') {
            Some(k) => {
                let left = sub_chars(t.as_slice(), 0, k);
                let right = sub_chars(t.as_slice(), k + 1, n);
                assert(left@ == t@.take(k as int));
                assert(right@ == t@.skip(k + 1));
                ExecLine::Entry(trim_chars(left.as_slice()), Some(trim_chars(right.as_slice())))
            },
            None => ExecLine::Entry(t, None),
        }
    }
}

/// Parses the text `s` into sections; `None` when an entry comes before the
/// first header.
pub fn ini_parse_string(s: &str) -> (r: Option<Ini>)
    ensures
        match r {
            Some(ini) => ini_spec(s@) == Some(ini@),
            None => ini_spec(s@) is None,
        },
{
    let chars = str_chars(s);
    let lines = split_chars(chars.as_slice(), '\n');
    let ghost lv = views_of(lines@);
    let mut done: Vec<IniSection> = Vec::new();
    let mut cur: Option<IniSection> = None;
    let mut i: usize = 0;
    assert(lv.take(0) =~= Seq::<Seq<char>>::empty());
    while i < lines.len()
        invariant
            i <= lines@.len(),
            lv == views_of(lines@),
            lv == split_seq(s@, '\n'),
            match cur {
                None => done@.len() == 0 && ini_of_lines(lv.take(i as int)) == Some(
                    Seq::<IniSectionView>::empty(),
                ),
                Some(c) => ini_of_lines(lv.take(i as int)) == Some(
                    done@.map_values(|x: IniSection| x@).push(c@),
                ),
            },
        decreases lines.len() - i,
    {
        let kind = classify(lines[i].as_slice());
        proof {
            assert(lv.take(i + 1).drop_last() =~= lv.take(i as int));
            assert(lv.take(i + 1).last() == lines@[i as int]@);
        }
        match kind {
            ExecLine::Blank => {},
            ExecLine::Header(name) => {
                let sec = IniSection {
                    name: string_from_chars(name.as_slice()),
                    lnum: i + 1,
                    entries: Vec::new(),
                };
                assert(sec@.entries =~= Seq::<IniEntryView>::empty());
                match cur {
                    None => {},
                    Some(c) => {
                        let ghost before = done@.map_values(|x: IniSection| x@);
                        done.push(c);
                        assert(done@.map_values(|x: IniSection| x@) =~= before.push(c@));
                    },
                }
                cur = Some(sec);
                assert(done@.map_values(|x: IniSection| x@).push(sec@) =~= ini_of_lines(
                    lv.take(i + 1),
                ).unwrap());
            },
            ExecLine::Entry(key, val) => {
                match cur {
                    None => {
                        proof {
                            assert(ini_of_lines(lv.take(i + 1)) is None);
                            lemma_ini_none_stays(lv, i as int + 1);
                            assert(lv.take(lines@.len() as int) =~= lv);
                            assert(lv == split_seq(s@, '\n'));
                            assert(ini_spec(s@) is None);
                        }
                        return None;
                    },
                    Some(c) => {
                        let e = IniEntry {
                            key: string_from_chars(key.as_slice()),
                            val: match val {
                                Some(v) => Some(string_from_chars(v.as_slice())),
                                None => None,
                            },
                            lnum: i + 1,
                        };
                        let mut c2 = c;
                        let ghost old_entries = c2@.entries;
                        c2.entries.push(e);
                        assert(c2@.entries =~= old_entries.push(e@));
                        cur = Some(c2);
                        assert(done@.map_values(|x: IniSection| x@).push(c2@) =~= ini_of_lines(
                            lv.take(i + 1),
                        ).unwrap());
                    },
                }
            },
        }
        i = i + 1;
    }
    assert(lv.take(lines@.len() as int) =~= lv);
    match cur {
        None => {},
        Some(c) => {
            let ghost before = done@.map_values(|x: IniSection| x@);
            done.push(c);
            assert(done@.map_values(|x: IniSection| x@) =~= before.push(c@));
        },
    }
    let ini = Ini { sections: done };
    Some(ini)
}

} // verus!
