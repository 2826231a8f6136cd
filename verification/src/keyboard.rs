//! The keyboard state machine: it turns physical key events into the events
//! of the virtual keyboard, following the layers and descriptors of a
//! configuration.

use vstd::prelude::*;
use crate::config::{
    Config, ConfigView, DescKeySequence, DescLayer, Descriptor, DescriptorData, LayerType, Op, is_mapped, unmapped,
    MAX_LAYERS,
};
use crate::config_impl::keymaps_ok;
use crate::keys::{
    modifier, modifier_spec, KEYD_EXTERNAL_MOUSE_BUTTON, KEYD_LEFTALT, KEYD_LEFTCTRL, KEYD_LEFTMETA,
    KEYD_LEFTSHIFT, KEYD_NOOP, KEYD_RIGHTALT, MOD_SHIFT, NR_MODIFIERS,
};

verus! {

/// A key event: key `code` went down (`pressed` != 0) or up, at `timestamp`
/// milliseconds.
#[derive(Clone, Copy, Debug, PartialEq, Eq, Structural)]
pub struct KeyEvent {
    pub code: u8,
    pub pressed: u8,
    pub timestamp: i32,
}

/// A layer became active (`active` = 1) or inactive (0).
#[derive(Clone, Copy, Debug, PartialEq, Eq, Structural)]
pub struct LayerChange {
    pub layer: usize,
    pub active: u8,
}

/// What the keyboard emits: the key events of the virtual keyboard (with
/// timestamp 0), and the layer changes, in order.
pub struct Output {
    pub events: Vec<KeyEvent>,
    pub layer_changes: Vec<LayerChange>,
}

impl Output {
    pub fn new() -> (o: Output)
        ensures
            o.events@.len() == 0,
            o.layer_changes@.len() == 0,
    {
        Output { events: Vec::new(), layer_changes: Vec::new() }
    }
}

/// Number of cache slots (keys held at once).
pub const CACHE_SIZE: usize = 16;
/// Number of events an undecided overload can hold back.
pub const OVERLOAD_QUEUE_SIZE: usize = 32;
/// Number of pending timeouts.
pub const MAX_TIMEOUTS: usize = 128;

/// A held key and the descriptor its release will undo.
#[derive(Clone, Copy, Debug)]
pub struct CacheEntry {
    pub code: u8,
    pub d: Descriptor,
    pub dl: i32,
    pub layer: i32,
}

#[derive(Clone, Copy, Debug)]
pub struct LayerState {
    pub activation_time: i64,
    pub active: u32,
    pub toggled: u8,
    pub oneshot_depth: u32,
}

/// An overload key that is held and not yet resolved: `action1` is its tap
/// action and `action2` its hold action; the events that arrive meanwhile are
/// held back in `queue`.
#[derive(Clone, Debug)]
pub struct OverloadState {
    pub code: u8,
    pub dl: u8,
    pub expiration: i64,
    pub resolve_on_interrupt: u8,
    pub queue: Vec<KeyEvent>,
    pub action1: Descriptor,
    pub action2: Descriptor,
}

pub struct Keyboard {
    config: Config,
    cache: Vec<Option<CacheEntry>>,
    last_pressed_output_code: u8,
    last_pressed_code: u8,
    inhibit_modifier_guard: u8,
    overload_start_time: i64,
    last_simple_key_time: i64,
    timeouts: Vec<i64>,
    pending_overload: Option<OverloadState>,
    layer_state: Vec<LayerState>,
    last_repeatable_action: Descriptor,
    keystate: Vec<u8>,
}

pub open spec fn i32_range(t: i64) -> bool {
    i32::MIN <= t <= i32::MAX
}

/// Descriptor `d` refers only to layers below `nl` and to descriptors below
/// `bound`.
pub open spec fn desc_ok(d: Descriptor, nl: int, bound: int) -> bool {
    match d.data {
        DescriptorData::Layer(l) => 0 <= l.idx < nl,
        DescriptorData::LayerMacro(lm) => 0 <= lm.idx < nl,
        DescriptorData::LayerAction(ov) => 0 <= ov.layer_idx < nl && ov.action_idx < bound,
        DescriptorData::Overload(ov) => 0 <= ov.layer_idx < nl && ov.action_idx < bound,
        DescriptorData::OverloadTo(ov) => 0 <= ov.layer_idx < nl && ov.action_idx < bound,
        DescriptorData::OverloadIdle(ov) => ov.action1_idx < bound && ov.action2_idx < bound,
        DescriptorData::Timeout(t) => t.action1_idx < bound && t.action2_idx < bound,
        _ => true,
    }
}

/// A configuration the keyboard can run: between 1 and `MAX_LAYERS` layers,
/// a full keymap for each, and descriptors that refer only to existing
/// layers and descriptors, each descriptor of the list only to earlier ones.
pub open spec fn kbd_config_ok(cv: ConfigView) -> bool {
    &&& 1 <= cv.layers.len() <= MAX_LAYERS
    &&& keymaps_ok(cv)
    &&& forall|i: int, c: int|
        0 <= i < cv.layers.len() && 0 <= c < 256 ==> desc_ok(
            #[trigger] cv.layers[i].keymap[c],
            cv.layers.len() as int,
            cv.descriptors.len() as int,
        )
    &&& forall|i: int|
        0 <= i < cv.descriptors.len() ==> desc_ok(#[trigger] cv.descriptors[i], cv.layers.len() as int, i)
}

/// How deeply executing `d` can go through the descriptor list: an overload
/// refers to its tap action(s) there, by index.
pub open spec fn rank(d: Descriptor) -> nat {
    match d.data {
        DescriptorData::Overload(ov) => if d.op == Op::Overload {
            ov.action_idx as nat + 1
        } else {
            0
        },
        DescriptorData::OverloadTo(ov) => if d.op == Op::OverloadTimeout || d.op == Op::OverloadTimeoutTap {
            ov.action_idx as nat + 1
        } else {
            0
        },
        DescriptorData::OverloadIdle(ov) => if d.op == Op::OverloadIdleTimeout {
            (if ov.action1_idx > ov.action2_idx {
                ov.action1_idx
            } else {
                ov.action2_idx
            }) as nat + 1
        } else {
            0
        },
        _ => 0,
    }
}

/// Replaying the key events `evs` on the key states `ks0`: every event must
/// change the state of its key. `None` when one does not.
pub open spec fn replay(evs: Seq<KeyEvent>, ks0: Seq<u8>) -> Option<Seq<u8>>
    decreases evs.len(),
{
    if evs.len() == 0 {
        Some(ks0)
    } else {
        match replay(evs.drop_last(), ks0) {
            None => None,
            Some(ks) => {
                let e = evs.last();
                if e.pressed <= 1 && e.code < ks.len() && ks[e.code as int] != e.pressed {
                    Some(ks.update(e.code as int, e.pressed))
                } else {
                    None
                }
            },
        }
    }
}

pub proof fn lemma_replay_append(a: Seq<KeyEvent>, b: Seq<KeyEvent>, ks0: Seq<u8>)
    ensures
        replay(a + b, ks0) == match replay(a, ks0) {
            Some(ks) => replay(b, ks),
            None => None,
        },
    decreases b.len(),
{
    if b.len() == 0 {
        assert(a + b =~= a);
        if replay(a, ks0) is None {
        }
    } else {
        assert((a + b).drop_last() =~= a + b.drop_last());
        lemma_replay_append(a, b.drop_last(), ks0);
        if replay(a, ks0) is None {
            lemma_replay_none(a + b.drop_last(), b.last(), ks0);
        }
    }
}

proof fn lemma_replay_none(a: Seq<KeyEvent>, e: KeyEvent, ks0: Seq<u8>)
    requires
        replay(a, ks0) is None,
    ensures
        replay(a.push(e), ks0) is None,
{
    assert(a.push(e).drop_last() =~= a);
}

/// The output `out` extends `out0`, and its new key events take the key
/// states `ks0` to `ks`, each changing the state of its key.
pub open spec fn emitted(out0: Output, out: Output, ks0: Seq<u8>, ks: Seq<u8>) -> bool {
    &&& out0.events@.len() <= out.events@.len()
    &&& out.events@.take(out0.events@.len() as int) == out0.events@
    &&& out0.layer_changes@.len() <= out.layer_changes@.len()
    &&& out.layer_changes@.take(out0.layer_changes@.len() as int) == out0.layer_changes@
    &&& replay(out.events@.skip(out0.events@.len() as int), ks0) == Some(ks)
}

pub proof fn lemma_emitted_refl(out: Output, ks: Seq<u8>)
    ensures
        emitted(out, out, ks, ks),
{
    assert(out.events@.take(out.events@.len() as int) =~= out.events@);
    assert(out.layer_changes@.take(out.layer_changes@.len() as int) =~= out.layer_changes@);
    assert(out.events@.skip(out.events@.len() as int) =~= Seq::<KeyEvent>::empty());
}

pub proof fn lemma_emitted_trans(o1: Output, o2: Output, o3: Output, k1: Seq<u8>, k2: Seq<u8>, k3: Seq<u8>)
    requires
        emitted(o1, o2, k1, k2),
        emitted(o2, o3, k2, k3),
    ensures
        emitted(o1, o3, k1, k3),
{
    let n1 = o1.events@.len() as int;
    let n2 = o2.events@.len() as int;
    assert(o3.events@.take(n1) =~= o3.events@.take(n2).take(n1));
    assert(o3.layer_changes@.take(o1.layer_changes@.len() as int) =~= o3.layer_changes@.take(
        o2.layer_changes@.len() as int,
    ).take(o1.layer_changes@.len() as int));
    assert(o3.events@.skip(n1) =~= o2.events@.skip(n1) + o3.events@.skip(n2));
    lemma_replay_append(o2.events@.skip(n1), o3.events@.skip(n2), k1);
}

impl Keyboard {
    /// The invariant of the keyboard state.
    pub closed spec fn inv(&self) -> bool {
        let cv = self.config@;
        let nl = cv.layers.len() as int;
        let nd = cv.descriptors.len() as int;
        &&& kbd_config_ok(cv)
        &&& self.layer_state@.len() == nl
        &&& self.keystate@.len() == 256
        &&& forall|c: int| 0 <= c < 256 ==> #[trigger] self.keystate@[c] <= 1
        &&& self.cache@.len() == CACHE_SIZE
        &&& forall|i: int| 0 <= i < CACHE_SIZE ==> match #[trigger] self.cache@[i] {
            Some(e) => 0 <= e.layer < nl && 0 <= e.dl < nl && desc_ok(e.d, nl, nd),
            None => true,
        }
        &&& forall|i: int, j: int| 0 <= i < j < CACHE_SIZE ==> match (#[trigger] self.cache@[i], #[trigger] self.cache@[j]) {
            (Some(a), Some(b)) => a.code != b.code,
            _ => true,
        }
        &&& self.timeouts@.len() <= MAX_TIMEOUTS
        &&& forall|i: int| 0 <= i < self.timeouts@.len() ==> i32::MIN <= #[trigger] self.timeouts@[i] <= i32::MAX + 65536
        &&& i32_range(self.overload_start_time)
        &&& i32_range(self.last_simple_key_time)
        &&& forall|i: int| 0 <= i < nl ==> i32_range(#[trigger] self.layer_state@[i].activation_time)
            && self.layer_state@[i].oneshot_depth == 0
        &&& self.last_repeatable_action.op == Op::KeySequence
        &&& desc_ok(self.last_repeatable_action, nl, nd)
        &&& match self.pending_overload {
            Some(po) => {
                &&& (po.dl as int) < nl
                &&& po.queue@.len() <= OVERLOAD_QUEUE_SIZE
                &&& desc_ok(po.action1, nl, nd)
                &&& desc_ok(po.action2, nl, nd)
                &&& rank(po.action2) == 0
                &&& i32::MIN <= po.expiration <= i32::MAX + 65536
            },
            None => true,
        }
    }

    /// The configuration the keyboard runs.
    pub closed spec fn config_view(&self) -> ConfigView {
        self.config@
    }

    /// The state of each key of the virtual keyboard (1 = down).
    pub closed spec fn keystate_view(&self) -> Seq<u8> {
        self.keystate@
    }

    /// The configuration the keyboard runs.
    pub fn config(&self) -> (c: &Config)
        ensures
            c@ == self.config_view(),
    {
        &self.config
    }
}


/// Everything but the virtual key states and the last key pressed on the
/// virtual keyboard is the same in `a` and `b`.
pub closed spec fn same_core(a: Keyboard, b: Keyboard) -> bool {
    &&& a.config == b.config
    &&& a.cache@ == b.cache@
    &&& a.pending_overload == b.pending_overload
    &&& a.timeouts@ == b.timeouts@
    &&& a.layer_state@ == b.layer_state@
    &&& a.last_pressed_code == b.last_pressed_code
    &&& a.inhibit_modifier_guard == b.inhibit_modifier_guard
    &&& a.overload_start_time == b.overload_start_time
    &&& a.last_simple_key_time == b.last_simple_key_time
    &&& a.last_repeatable_action == b.last_repeatable_action
}

/// The modifiers of the active layers, other than layer `excluded`, added to
/// `mods`, for the layers from `i` on.
pub open spec fn layer_mods_from(k: Keyboard, excluded: i32, mods: u8, i: int) -> u8
    decreases layer_states(k).len() - i,
{
    if i < 0 || i >= layer_states(k).len() || i >= k.config_view().layers.len() {
        mods
    } else {
        let m = if layer_states(k)[i].active != 0 && (excluded == -1 || i != excluded as int) {
            mods | k.config_view().layers[i].mods
        } else {
            mods
        };
        layer_mods_from(k, excluded, m, i + 1)
    }
}

/// True when layer `i` is active.
pub open spec fn active(k: Keyboard, i: int) -> bool {
    layer_states(k)[i].active != 0
}

/// The layer that decides what key `code` does among layers `0..i`: the
/// active layer mapping it that was activated last (the lowest such index
/// on equal activation times).
pub open spec fn resolve_from(k: Keyboard, code: int, i: int) -> Option<int>
    decreases i,
{
    if i <= 0 {
        None
    } else {
        let b = resolve_from(k, code, i - 1);
        let j = i - 1;
        if active(k, j) && is_mapped(k.config_view().layers[j].keymap[code]) && match b {
            None => true,
            Some(bi) => layer_states(k)[j].activation_time > layer_states(k)[bi].activation_time,
        } {
            Some(j)
        } else {
            b
        }
    }
}

/// What key `code` does, and the layer that decides it; the main layer when
/// no active layer maps the key.
pub open spec fn resolve_spec(k: Keyboard, code: int) -> (Descriptor, i32) {
    match resolve_from(k, code, k.config_view().layers.len() as int) {
        Some(i) => (k.config_view().layers[i].keymap[code], i as i32),
        None => (k.config_view().layers[0].keymap[code], 0),
    }
}

/// The deadlines `ts` still ahead of `time`, in order.
pub open spec fn future_timeouts(ts: Seq<i64>, time: i64) -> Seq<i64>
    decreases ts.len(),
{
    if ts.len() == 0 {
        Seq::empty()
    } else {
        let r = future_timeouts(ts.drop_last(), time);
        if ts.last() > time {
            r.push(ts.last())
        } else {
            r
        }
    }
}

/// The earliest deadline of `ts` that is ahead of `time`, where 0 stands
/// for "none" (a deadline of 0 is never reported).
pub open spec fn next_deadline(ts: Seq<i64>, time: i64) -> i64
    decreases ts.len(),
{
    if ts.len() == 0 {
        0
    } else {
        let e = next_deadline(ts.drop_last(), time);
        let t = ts.last();
        if t > time && (e == 0 || t < e) {
            t
        } else {
            e
        }
    }
}

/// The time from `time` to the earliest deadline of `ts` ahead of it, 0 when
/// there is none.
pub open spec fn time_to_next(ts: Seq<i64>, time: i64) -> int {
    if next_deadline(ts, time) > 0 {
        next_deadline(ts, time) - time
    } else {
        0
    }
}

/// Forgetting the deadlines that are not ahead of `time` keeps the earliest
/// one ahead.
proof fn lemma_next_deadline_future(ts: Seq<i64>, time: i64)
    ensures
        next_deadline(future_timeouts(ts, time), time) == next_deadline(ts, time),
    decreases ts.len(),
{
    if ts.len() > 0 {
        lemma_next_deadline_future(ts.drop_last(), time);
        let f = future_timeouts(ts.drop_last(), time);
        if ts.last() > time {
            assert(f.push(ts.last()).drop_last() =~= f);
        }
    }
}

/// The index of the cache slot holding key `code`.
pub closed spec fn cache_slot(k: Keyboard, code: u8) -> Option<int> {
    if exists|i: int| 0 <= i < CACHE_SIZE && slot_holds(#[trigger] k.cache@[i], code) {
        Some(choose|i: int| 0 <= i < CACHE_SIZE && slot_holds(#[trigger] k.cache@[i], code))
    } else {
        None
    }
}

/// The cache slot `s` holds key `code`.
pub open spec fn slot_holds(s: Option<CacheEntry>, code: u8) -> bool {
    match s {
        Some(e) => e.code == code,
        None => false,
    }
}

/// The caches `c0` and `c1` have the same slots in use, each held key keeping
/// its slot.
#[verifier::opaque]
pub open spec fn same_slots(c0: Seq<Option<CacheEntry>>, c1: Seq<Option<CacheEntry>>) -> bool {
    &&& c1.len() == c0.len()
    &&& forall|i: int| 0 <= i < c0.len() ==> match (#[trigger] c1[i], c0[i]) {
        (Some(a), Some(b)) => a.code == b.code,
        (None, None) => true,
        _ => false,
    }
}

proof fn lemma_same_slots_refl(c: Seq<Option<CacheEntry>>)
    ensures
        same_slots(c, c),
{
    reveal(same_slots);
    assert forall|i: int| 0 <= i < c.len() implies match (#[trigger] c[i], c[i]) {
        (Some(a), Some(b)) => a.code == b.code,
        (None, None) => true,
        _ => false,
    } by {
        match c[i] {
            Some(a) => {},
            None => {},
        }
    }
}

/// The caches `c0` and `c1` hold the same entries in the same slots, but
/// for the layers recorded with them.
#[verifier::opaque]
pub open spec fn keeps_entries(c0: Seq<Option<CacheEntry>>, c1: Seq<Option<CacheEntry>>) -> bool {
    &&& c1.len() == c0.len()
    &&& forall|i: int| 0 <= i < c0.len() ==> match (#[trigger] c1[i], c0[i]) {
        (Some(a), Some(b)) => a.code == b.code && a.d == b.d && a.dl == b.dl,
        (None, None) => true,
        _ => false,
    }
}

proof fn lemma_keeps_entries_refl(c: Seq<Option<CacheEntry>>)
    ensures
        keeps_entries(c, c),
{
    reveal(keeps_entries);
    assert forall|i: int| 0 <= i < c.len() implies match (#[trigger] c[i], c[i]) {
        (Some(a), Some(b)) => a.code == b.code && a.d == b.d && a.dl == b.dl,
        (None, None) => true,
        _ => false,
    } by {
        match c[i] {
            Some(a) => {},
            None => {},
        }
    }
}

proof fn lemma_keeps_entries_trans(c0: Seq<Option<CacheEntry>>, c1: Seq<Option<CacheEntry>>, c2: Seq<Option<CacheEntry>>)
    requires
        keeps_entries(c0, c1),
        keeps_entries(c1, c2),
    ensures
        keeps_entries(c0, c2),
{
    reveal(keeps_entries);
    assert forall|i: int| 0 <= i < c0.len() implies match (#[trigger] c2[i], c0[i]) {
        (Some(a), Some(b)) => a.code == b.code && a.d == b.d && a.dl == b.dl,
        (None, None) => true,
        _ => false,
    } by {
        assert(match (c1[i], c0[i]) {
            (Some(a), Some(b)) => a.code == b.code && a.d == b.d && a.dl == b.dl,
            (None, None) => true,
            _ => false,
        });
        assert(match (c2[i], c1[i]) {
            (Some(a), Some(b)) => a.code == b.code && a.d == b.d && a.dl == b.dl,
            (None, None) => true,
            _ => false,
        });
    }
}

/// Operations whose press leaves every held key's entry as it was, but for
/// the layer recorded with it.
pub open spec fn entry_kept_op(op: Op) -> bool {
    op == Op::KeySequence || op == Op::Layer || op == Op::LayerM || op == Op::Toggle || op == Op::ToggleM || op
        == Op::Overload || op == Op::OverloadTimeout || op == Op::OverloadTimeoutTap || passthrough_op(op)
}

proof fn lemma_same_slots_update(c: Seq<Option<CacheEntry>>, s: int, e: CacheEntry)
    requires
        0 <= s < c.len(),
        c[s] matches Some(o) && o.code == e.code,
    ensures
        same_slots(c, c.update(s, Some(e))),
{
    reveal(same_slots);
    let c1 = c.update(s, Some(e));
    assert forall|i: int| 0 <= i < c.len() implies match (#[trigger] c1[i], c[i]) {
        (Some(a), Some(b)) => a.code == b.code,
        (None, None) => true,
        _ => false,
    } by {
        if i != s {
            match c[i] {
                Some(a) => {},
                None => {},
            }
        }
    }
}

proof fn lemma_same_slots_trans(c0: Seq<Option<CacheEntry>>, c1: Seq<Option<CacheEntry>>, c2: Seq<Option<CacheEntry>>)
    requires
        same_slots(c0, c1),
        same_slots(c1, c2),
    ensures
        same_slots(c0, c2),
{
    reveal(same_slots);
    assert forall|i: int| 0 <= i < c0.len() implies match (#[trigger] c2[i], c0[i]) {
        (Some(a), Some(b)) => a.code == b.code,
        (None, None) => true,
        _ => false,
    } by {
        assert(match (c1[i], c0[i]) {
            (Some(a), Some(b)) => a.code == b.code,
            (None, None) => true,
            _ => false,
        });
        assert(match (c2[i], c1[i]) {
            (Some(a), Some(b)) => a.code == b.code,
            (None, None) => true,
            _ => false,
        });
    }
}

/// One step of the keyboard from `k0`, `o0` to `k1`, `o1`: the invariant
/// holds after it, the configuration is unchanged, the new key events take
/// the key states along, and the pending overload is unchanged or a fresh one
/// (with an empty queue) whose tap action ranks below `r`.
spec fn progress(k0: Keyboard, o0: Output, k1: Keyboard, o1: Output, r: nat) -> bool {
    &&& k1.inv()
    &&& k1.config == k0.config
    &&& same_slots(k0.cache@, k1.cache@)
    &&& emitted(o0, o1, k0.keystate@, k1.keystate@)
    &&& (k1.pending_overload == k0.pending_overload || (k1.pending_overload matches Some(p) && p.queue@.len() == 0
        && rank(p.action1) < r))
}

proof fn lemma_progress_refl(k: Keyboard, o: Output)
    requires
        k.inv(),
    ensures
        progress(k, o, k, o, 0),
{
    lemma_emitted_refl(o, k.keystate@);
    lemma_same_slots_refl(k.cache@);
}

proof fn lemma_progress_trans(
    k0: Keyboard,
    o0: Output,
    k1: Keyboard,
    o1: Output,
    k2: Keyboard,
    o2: Output,
    r: nat,
    r2: nat,
)
    requires
        progress(k0, o0, k1, o1, r),
        progress(k1, o1, k2, o2, r2),
        r2 <= r,
    ensures
        progress(k0, o0, k2, o2, r),
{
    lemma_emitted_trans(o0, o1, o2, k0.keystate@, k1.keystate@, k2.keystate@);
    lemma_same_slots_trans(k0.cache@, k1.cache@, k2.cache@);
}

/// Output that adds layer changes only.
proof fn lemma_emitted_layers(o0: Output, o1: Output, ks: Seq<u8>)
    requires
        o1.events@ == o0.events@,
        o0.layer_changes@.len() <= o1.layer_changes@.len(),
        o1.layer_changes@.take(o0.layer_changes@.len() as int) == o0.layer_changes@,
    ensures
        emitted(o0, o1, ks, ks),
{
    assert(o1.events@.take(o0.events@.len() as int) =~= o0.events@);
    assert(o1.events@.skip(o0.events@.len() as int) =~= Seq::<KeyEvent>::empty());
}

/// A descriptor that refers to descriptors below `nd` ranks at most `nd`,
/// and refers to descriptors below any larger bound.
proof fn lemma_desc_ok_rank(d: Descriptor, nl: int, nd: int, nd2: int)
    requires
        desc_ok(d, nl, nd),
        0 <= nd <= nd2,
    ensures
        rank(d) <= nd,
        desc_ok(d, nl, nd2),
{
}

impl Keyboard {
    /// Sends a key event to the virtual keyboard when it changes the key's
    /// state; `noop` and the external mouse button are never sent.
    fn send_key(&mut self, out: &mut Output, code: u8, pressed: u8)
        requires
            old(self).inv(),
            pressed <= 1,
        ensures
            progress(*old(self), *old(out), *final(self), *final(out), 0),
            final(self).inv(),
            same_core(*final(self), *old(self)),
            emitted(*old(out), *final(out), old(self).keystate@, final(self).keystate@),
            if code == KEYD_NOOP || code == KEYD_EXTERNAL_MOUSE_BUTTON {
                &&& final(self).keystate@ == old(self).keystate@
                &&& final(self).last_pressed_output_code == old(self).last_pressed_output_code
                &&& final(out).events@ == old(out).events@
            } else {
                &&& final(self).keystate@ == old(self).keystate@.update(code as int, pressed)
                &&& final(self).last_pressed_output_code == if pressed != 0 {
                    code
                } else {
                    old(self).last_pressed_output_code
                }
                &&& final(out).events@ == if old(self).keystate@[code as int] != pressed {
                    old(out).events@.push(KeyEvent { code, pressed, timestamp: 0 })
                } else {
                    old(out).events@
                }
            },
            final(out).layer_changes@ == old(out).layer_changes@,
    {
        proof {
            lemma_same_slots_refl(self.cache@);
        }
        proof {
            lemma_emitted_refl(*out, self.keystate@);
        }
        if code == KEYD_NOOP || code == KEYD_EXTERNAL_MOUSE_BUTTON {
            return;
        }
        if pressed != 0 {
            self.last_pressed_output_code = code;
        }
        assert(self.inv());
        if self.keystate[code as usize] != pressed {
            let ghost k1 = *self;
            self.keystate.set(code as usize, pressed);
            proof {
                assert forall|c: int| 0 <= c < 256 implies #[trigger] self.keystate@[c] <= 1 by {
                    if c != code as int {
                        assert(k1.keystate@[c] <= 1);
                    }
                }
                assert(self.inv());
            }
            out.events.push(KeyEvent { code, pressed, timestamp: 0 });
            proof {
                let n = old(out).events@.len() as int;
                assert(out.events@.skip(n) =~= seq![KeyEvent { code, pressed, timestamp: 0 }]);
                assert(out.events@.take(n) =~= old(out).events@);
                let e = KeyEvent { code, pressed, timestamp: 0 };
                assert(seq![e].drop_last() =~= Seq::<KeyEvent>::empty());
                assert(replay(Seq::<KeyEvent>::empty(), old(self).keystate@) == Some(old(self).keystate@));
                assert(self.keystate@ =~= old(self).keystate@.update(code as int, pressed));
                assert(replay(seq![e], old(self).keystate@) == Some(self.keystate@));
            }
        } else {
            assert(self.keystate@ =~= old(self).keystate@.update(code as int, pressed));
        }
    }
}


/// The key states `ks` with each modifier key down exactly when its bit is
/// in `mods`.
pub open spec fn with_mods_keys(ks: Seq<u8>, mods: u8, n: int) -> Seq<u8>
    decreases n,
{
    if n <= 0 {
        ks
    } else {
        let m = modifier_spec(n - 1);
        with_mods_keys(ks, mods, n - 1).update(m.key as int, if m.mask & mods != 0 { 1u8 } else { 0u8 })
    }
}

/// The key a descriptor that performs a key sequence sends for physical key
/// `code`: the key of its key sequence, or `code` itself when it has none
/// (the key passes through).
pub open spec fn sent_key(d: Descriptor, code: u8) -> u8 {
    match d.data {
        DescriptorData::KeySequence(ks) => ks.code,
        _ => code,
    }
}

/// Keys that the virtual keyboard never sends.
pub open spec fn sendable(c: u8) -> bool {
    c != KEYD_NOOP && c != KEYD_EXTERNAL_MOUSE_BUTTON
}

/// The modifier keys (see `modifier_spec`).
pub open spec fn is_modifier_key(c: u8) -> bool {
    c == KEYD_LEFTALT || c == KEYD_RIGHTALT || c == KEYD_LEFTSHIFT || c == KEYD_LEFTMETA || c == KEYD_LEFTCTRL
}

/// The layer a layer descriptor names.
pub open spec fn layer_of(d: Descriptor) -> Option<int> {
    match d.data {
        DescriptorData::Layer(l) => Some(l.idx as int),
        DescriptorData::LayerMacro(lm) => Some(lm.idx as int),
        _ => None,
    }
}

/// How many times layer `i` is activated (by held keys and toggles; the
/// main layer starts at 1).
pub closed spec fn layer_count(k: Keyboard, i: int) -> u32 {
    k.layer_state@[i].active
}

/// The state of each layer.
pub closed spec fn layer_states(k: Keyboard) -> Seq<LayerState> {
    k.layer_state@
}

/// The action that repeat performs: the last key sequence performed.
pub closed spec fn repeat_action(k: Keyboard) -> Descriptor {
    k.last_repeatable_action
}

/// The time a simple key (a key sequence without modifiers but Shift) was
/// last performed.
pub closed spec fn last_simple_key(k: Keyboard) -> i64 {
    k.last_simple_key_time
}

/// The action an overload on idleness chooses at `time`: its second action
/// when no simple key was performed for its timeout, its first otherwise.
pub open spec fn idle_choice(k: Keyboard, ov: crate::config::DescOverloadIdle, time: i64) -> Descriptor {
    if time - last_simple_key(k) >= ov.timeout {
        k.config_view().descriptors[ov.action2_idx as int]
    } else {
        k.config_view().descriptors[ov.action1_idx as int]
    }
}

/// Every key of the virtual keyboard is up.
pub open spec fn all_keys_up(k: Keyboard) -> bool {
    forall|c: int| 0 <= c < 256 ==> #[trigger] k.keystate_view()[c] == 0
}

/// The output `o1`, past `o0`, has an event of key `c` going down.
pub open spec fn emitted_press(o0: Output, o1: Output, c: u8) -> bool {
    exists|j: int|
        o0.events@.len() <= j < o1.events@.len() && #[trigger] o1.events@[j] == (KeyEvent {
            code: c,
            pressed: 1,
            timestamp: 0,
        })
}

/// What the press of key `code` with descriptor `d` sends: the key of a key
/// sequence (other than a modifier key) goes down on the virtual keyboard.
pub open spec fn press_output(d: Descriptor, code: u8, o0: Output, o1: Output) -> bool {
    d.op == Op::KeySequence && d.data is KeySequence && sendable(sent_key(d, code)) && !is_modifier_key(sent_key(d, code))
        ==> emitted_press(o0, o1, sent_key(d, code))
}

/// An event sent stays in the output as more is sent.
proof fn lemma_emitted_press_keep(o0: Output, o1: Output, o2: Output, c: u8, k1: Seq<u8>, k2: Seq<u8>)
    requires
        emitted_press(o0, o1, c),
        emitted(o1, o2, k1, k2),
    ensures
        emitted_press(o0, o2, c),
{
    let j = choose|j: int|
        o0.events@.len() <= j < o1.events@.len() && #[trigger] o1.events@[j] == (KeyEvent {
            code: c,
            pressed: 1,
            timestamp: 0,
        });
    assert(o2.events@.take(o1.events@.len() as int)[j] == o1.events@[j]);
}

/// A press sent stays in the output as more is sent.
proof fn lemma_press_output_keep(d: Descriptor, code: u8, o0: Output, o1: Output, o2: Output, k1: Seq<u8>, k2: Seq<u8>)
    requires
        press_output(d, code, o0, o1),
        emitted(o1, o2, k1, k2),
    ensures
        press_output(d, code, o0, o2),
{
    if d.op == Op::KeySequence && d.data is KeySequence && sendable(sent_key(d, code)) && !is_modifier_key(sent_key(d, code)) {
        lemma_emitted_press_keep(o0, o1, o2, sent_key(d, code), k1, k2);
    }
}

/// The last key pressed.
pub closed spec fn last_press(k: Keyboard) -> u8 {
    k.last_pressed_code
}

/// The time the last overload key went down.
pub closed spec fn overload_start(k: Keyboard) -> i64 {
    k.overload_start_time
}

/// The release of overload key `code` at `time` is a tap: no other key was
/// pressed since it, and it was held less than the tap timeout when there is
/// one.
pub open spec fn overload_tap(k: Keyboard, code: u8, time: i64) -> bool {
    &&& last_press(k) == code
    &&& (k.config_view().overload_tap_timeout == 0 || time - overload_start(k) < k.config_view().overload_tap_timeout)
}

/// What the release of key `code` with descriptor `d` at `time` sends: the
/// tap of an overload key presses its tap action (see `press_output`).
pub open spec fn release_output(d: Descriptor, code: u8, time: i64, k0: Keyboard, o0: Output, o1: Output) -> bool {
    d.op == Op::Overload ==> match d.data {
        DescriptorData::Overload(ov) => overload_tap(k0, code, time) ==> press_output(
            k0.config_view().descriptors[ov.action_idx as int],
            code,
            o0,
            o1,
        ),
        _ => true,
    }
}

/// A press sent after `o0` is sent after any earlier output.
proof fn lemma_press_output_widen(d: Descriptor, code: u8, o0: Output, o1: Output, o2: Output)
    requires
        press_output(d, code, o1, o2),
        o0.events@.len() <= o1.events@.len(),
    ensures
        press_output(d, code, o0, o2),
{
    if d.op == Op::KeySequence && d.data is KeySequence && sendable(sent_key(d, code)) && !is_modifier_key(sent_key(d, code)) {
        let c = sent_key(d, code);
        let j = choose|j: int|
            o1.events@.len() <= j < o2.events@.len() && #[trigger] o2.events@[j] == (KeyEvent {
                code: c,
                pressed: 1,
                timestamp: 0,
            });
        assert(o2.events@[j] == (KeyEvent { code: c, pressed: 1, timestamp: 0 }));
    }
}

/// What a swap to layer `l`, pressed while layer `dl` decides it, does from
/// `k0` to `k`: when `dl` is toggled, the toggle moves to `l` (so `l` is
/// toggled, `dl` untoggled and activated once less, `l` activated once
/// more); otherwise, when `dl` is the main layer or not a normal layer,
/// nothing changes; otherwise the held key that keeps `dl` active (see
/// `holds_layer`; the swap key itself is one) keeps `l` active instead, so
/// `dl` is activated once less and `l` once more, unless no held key is
/// recorded (the cache of held keys is full), when nothing changes.
pub open spec fn swap_effect(l: int, dl: int, k0: Keyboard, k: Keyboard) -> bool {
    let moved = if l != dl {
        &&& layer_count(k, dl) == sat_dec(layer_count(k0, dl))
        &&& layer_count(k, l) == sat_inc(layer_count(k0, l))
    } else {
        layer_count(k, l) == sat_inc(sat_dec(layer_count(k0, l)))
    };
    if layer_states(k0)[dl].toggled != 0 {
        &&& moved
        &&& layer_states(k)[l].toggled == 1
        &&& (l != dl ==> layer_states(k)[dl].toggled == 0)
    } else if dl == 0 || k0.config_view().layers[dl].layer_type != LayerType::Normal {
        layer_states(k) == layer_states(k0)
    } else {
        moved || layer_states(k) == layer_states(k0)
    }
}

/// Performing descriptor `d` (a press when `pressed` is not 0) counts as
/// typing a simple key: a key sequence whose own modifiers are none or Shift
/// (on press and release), or, on press, a key that passes through unmapped.
pub open spec fn notes_simple_key(d: Descriptor, pressed: u8) -> bool {
    match d.data {
        DescriptorData::KeySequence(ks) => ks.mods == 0 || ks.mods == MOD_SHIFT,
        _ => pressed != 0,
    }
}

/// What the press of key `code` with descriptor `d` at `time` does from
/// `k0` to `k`:
/// - a key sequence: its key goes down on the virtual keyboard;
/// - a layer key: its layer is activated once more (and is then active);
/// - a toggle: the layer's toggle flips, and the layer is activated once
///   more when it is now toggled, once less otherwise;
/// - a swap: see `swap_effect`;
/// - clear: every toggled layer but the main layer and the layouts is
///   untoggled and left once, and every key goes up;
/// - a layout switch: see `layout_layer`, and every key goes up;
/// - an overload: its layer is activated once more;
/// - repeat: the key of the last key sequence performed goes down again;
/// - an operation the keyboard does not perform: the key passes through;
/// - an overload on idleness: the key of the key sequence it chooses (see
///   `idle_choice`) goes down;
/// - an overload with a timeout: it becomes the pending overload, with an
///   empty queue, expiring after its timeout, its tap action taken from the
///   descriptor list and its hold action the activation of its layer.
pub open spec fn press_effect(d: Descriptor, code: u8, layer: int, time: i64, k0: Keyboard, k: Keyboard) -> bool {
    &&& last_press(k) == code
    &&& (d.op == Op::KeySequence ==> last_simple_key(k) == if notes_simple_key(d, 1) {
        time
    } else {
        last_simple_key(k0)
    })
    &&& (d.op == Op::KeySequence ==> match d.data {
        DescriptorData::KeySequence(ks) => k.keystate_view() == key_seq_press_keys(k0, ks, layer),
        _ => true,
    })
    &&& ((d.op == Op::Layer || d.op == Op::LayerM || d.op == Op::Toggle || d.op == Op::ToggleM || d.op == Op::Overload
        && d.data is Overload) && (d.op == Op::Overload || layer_of(d) is Some) ==> k.keystate_view() == with_mods_keys(
        k0.keystate_view(),
        layer_mods_from(k, -1i32, 0, 0),
        NR_MODIFIERS as int,
    ))
    &&& (d.op == Op::KeySequence && sendable(sent_key(d, code)) ==> k.keystate_view()[sent_key(d, code) as int] == 1)
    &&& ((d.op == Op::Layer || d.op == Op::LayerM) && layer_of(d) is Some ==> {
        &&& layer_count(k, layer_of(d).unwrap()) == sat_inc(layer_count(k0, layer_of(d).unwrap()))
        &&& active(k, layer_of(d).unwrap())
    })
    &&& ((d.op == Op::Toggle || d.op == Op::ToggleM) && layer_of(d) is Some ==> {
        let l = layer_of(d).unwrap();
        &&& layer_states(k)[l].toggled == layer_states(k0)[l].toggled ^ 1
        &&& layer_count(k, l) == if layer_states(k)[l].toggled != 0 {
            sat_inc(layer_count(k0, l))
        } else {
            sat_dec(layer_count(k0, l))
        }
    })
    &&& ((d.op == Op::Swap || d.op == Op::SwapM) && layer_of(d) is Some ==> swap_effect(layer_of(d).unwrap(), layer, k0, k))
    &&& (d.op == Op::Clear || d.op == Op::ClearM ==> {
        &&& all_keys_up(k)
        &&& layer_states(k).len() == layer_states(k0).len()
        &&& forall|i: int|
            0 <= i < layer_states(k0).len() ==> #[trigger] layer_states(k)[i] == cleared_layer(
                k0.config_view(),
                layer_states(k0),
                i,
            )
    })
    &&& (d.op == Op::Layout ==> match d.data {
        DescriptorData::Layer(l) => {
            &&& all_keys_up(k)
            &&& layer_states(k).len() == layer_states(k0).len()
            &&& forall|i: int|
                0 <= i < layer_states(k0).len() ==> #[trigger] layer_states(k)[i] == layout_layer(
                    k0.config_view(),
                    layer_states(k0),
                    l.idx as int,
                    i,
                )
        },
        _ => true,
    })
    &&& (d.op == Op::Overload ==> match d.data {
        DescriptorData::Overload(ov) => {
            &&& layer_count(k, ov.layer_idx as int) == sat_inc(layer_count(k0, ov.layer_idx as int))
            &&& active(k, ov.layer_idx as int)
        },
        _ => true,
    })
    &&& (passthrough_op(d.op) && sendable(code) ==> k.keystate_view()[code as int] == 1)
    &&& (d.op == Op::OverloadIdleTimeout ==> match d.data {
        DescriptorData::OverloadIdle(ov) => {
            let a = idle_choice(k0, ov, time);
            a.op == Op::KeySequence && sendable(sent_key(a, code)) ==> k.keystate_view()[sent_key(a, code) as int] == 1
        },
        _ => true,
    })
    &&& (d.op == Op::Repeat && sendable(sent_key(repeat_action(k0), code)) ==> k.keystate_view()[sent_key(
        repeat_action(k0),
        code,
    ) as int] == 1)
    &&& (d.op == Op::OverloadTimeout || d.op == Op::OverloadTimeoutTap ==> match d.data {
        DescriptorData::OverloadTo(ov) => match k.pending() {
            Some(p) => {
                &&& p.code == code
                &&& p.queue@.len() == 0
                &&& p.expiration == time + ov.timeout
                &&& p.resolve_on_interrupt == (if d.op == Op::OverloadTimeoutTap {
                    1u8
                } else {
                    0u8
                })
                &&& p.action1 == k0.config_view().descriptors[ov.action_idx as int]
                &&& p.action2 == (Descriptor {
                    op: Op::Layer,
                    data: DescriptorData::Layer(DescLayer { idx: ov.layer_idx }),
                })
            },
            None => false,
        },
        _ => true,
    })
}

/// The effect of a press is kept by a change of other parts than the key
/// states, the layers, the pending overload and the last key pressed.
proof fn lemma_press_effect_frame(d: Descriptor, code: u8, layer: int, time: i64, k0: Keyboard, k1: Keyboard, k2: Keyboard)
    requires
        press_effect(d, code, layer, time, k0, k1),
        same_views(k1, k2),
        k2.pending_overload == k1.pending_overload,
    ensures
        press_effect(d, code, layer, time, k0, k2),
{
    lemma_same_views(k1, k2);
}

/// `a` and `b` agree on everything the effects of an event read of the state
/// before or after it, but the pending overload.
spec fn same_views(a: Keyboard, b: Keyboard) -> bool {
    &&& a.keystate@ == b.keystate@
    &&& a.layer_state@ == b.layer_state@
    &&& a.config == b.config
    &&& a.last_pressed_code == b.last_pressed_code
    &&& a.overload_start_time == b.overload_start_time
    &&& a.last_simple_key_time == b.last_simple_key_time
    &&& a.last_repeatable_action == b.last_repeatable_action
}

proof fn lemma_same_views(a: Keyboard, b: Keyboard)
    requires
        same_views(a, b),
    ensures
        forall|e: i32, m: u8| #[trigger] layer_mods_from(a, e, m, 0) == layer_mods_from(b, e, m, 0),
        a.keystate_view() == b.keystate_view(),
        layer_states(a) == layer_states(b),
        a.config_view() == b.config_view(),
        last_press(a) == last_press(b),
        overload_start(a) == overload_start(b),
        last_simple_key(a) == last_simple_key(b),
        repeat_action(a) == repeat_action(b),
        forall|i: int| #[trigger] layer_count(a, i) == layer_count(b, i),
{
    assert forall|e: i32, m: u8| #[trigger] layer_mods_from(a, e, m, 0) == layer_mods_from(b, e, m, 0) by {
        lemma_layer_mods_same(a, b, e, m, 0);
    }
}

/// The events `evs` release keys only, each at most once, in increasing
/// order of key code.
pub open spec fn releases_in_order(evs: Seq<KeyEvent>) -> bool {
    &&& forall|j: int| 0 <= j < evs.len() ==> (#[trigger] evs[j]).pressed == 0
    &&& forall|a: int, b: int| 0 <= a < b < evs.len() ==> (#[trigger] evs[a]).code < (#[trigger] evs[b]).code
}

/// The key events of the press of key `code` with descriptor `d`, pressed
/// while layer `layer` decides the key, from `k0`, `o0` to `k`, `o1`: a key
/// sequence sends `key_seq_press_events`; a layer key and an overload send
/// only modifier keys, and none when the key states stay the same.
pub open spec fn press_events(d: Descriptor, code: u8, layer: int, k0: Keyboard, k: Keyboard, o0: Output, o1: Output) -> bool {
    &&& (d.op == Op::KeySequence ==> match d.data {
        DescriptorData::KeySequence(ks) => key_seq_press_events(k0, ks, layer, o0, o1),
        _ => true,
    })
    &&& ((d.op == Op::Layer || d.op == Op::LayerM || d.op == Op::Toggle || d.op == Op::ToggleM || d.op == Op::Overload
        && d.data is Overload) && (d.op == Op::Overload || layer_of(d) is Some) ==> mods_only(
        o0,
        o1,
        k0.keystate_view(),
        k.keystate_view(),
    ))
    &&& (d.op == Op::Clear || d.op == Op::ClearM ==> releases_in_order(new_events(o0, o1)))
    &&& (passthrough_op(d.op) ==> new_events(o0, o1) == if sendable(code) && k0.keystate_view()[code as int] == 0 {
        seq![key_event(code, 1)]
    } else {
        Seq::<KeyEvent>::empty()
    })
}

/// The key events of the release of key `code` with descriptor `d` at
/// `time`, from `k0`, `o0` to `k`, `o1`: a key sequence sends
/// `key_seq_release_events`; a layer key sends only modifier keys, and so
/// does an overload key that is not tapped, whose release leaves the
/// modifier keys matching the active layers; the release of a layout
/// switch, a toggle, a swap, clear, repeat, or an overload with a timeout or
/// on idleness sends nothing.
pub open spec fn release_events(d: Descriptor, code: u8, time: i64, k0: Keyboard, k: Keyboard, o0: Output, o1: Output) -> bool {
    &&& (d.op == Op::KeySequence ==> last_simple_key(k) == if notes_simple_key(d, 0) {
        time
    } else {
        last_simple_key(k0)
    })
    &&& (d.op == Op::KeySequence ==> match d.data {
        DescriptorData::KeySequence(ks) => key_seq_release_events(k0, ks, o0, o1),
        _ => true,
    })
    &&& ((d.op == Op::Layer || d.op == Op::LayerM) && layer_of(d) is Some ==> mods_only(
        o0,
        o1,
        k0.keystate_view(),
        k.keystate_view(),
    ))
    &&& (d.op == Op::Overload && !overload_tap(k0, code, time) ==> match d.data {
        DescriptorData::Overload(ov) => {
            &&& layer_count(k, ov.layer_idx as int) == sat_dec(layer_count(k0, ov.layer_idx as int))
            &&& k.keystate_view() == with_mods_keys(k0.keystate_view(), layer_mods_from(k, -1i32, 0, 0), NR_MODIFIERS as int)
            &&& mods_only(o0, o1, k0.keystate_view(), k.keystate_view())
        },
        _ => true,
    })
    &&& (quiet_release_op(d.op) ==> o1.events@ == o0.events@)
}

/// Operations that the keyboard does not perform: their key passes through.
pub open spec fn passthrough_op(op: Op) -> bool {
    op == Op::Oneshot || op == Op::OneshotM || op == Op::OneshotK || op == Op::Macro || op == Op::Command
        || op == Op::Timeout
}

/// Operations whose release does nothing.
pub open spec fn quiet_release_op(op: Op) -> bool {
    op == Op::Layout || op == Op::Toggle || op == Op::ToggleM || op == Op::Swap || op == Op::SwapM || op
        == Op::Clear || op == Op::ClearM || op == Op::Repeat || op == Op::OverloadTimeout || op
        == Op::OverloadTimeoutTap || op == Op::OverloadIdleTimeout
}

/// What the release of key `code` with descriptor `d` does from `k0` to
/// `k`: the key of a key sequence goes up on the virtual keyboard, unless it
/// is a modifier key (the modifiers of the active layers stay down); the
/// layer of a layer key is activated once less; the key of an operation the
/// keyboard does not perform goes up; the release of a layout switch, a
/// toggle, a swap, clear, repeat, or an overload with a timeout or on
/// idleness changes nothing.
pub open spec fn release_effect(d: Descriptor, code: u8, k0: Keyboard, k: Keyboard) -> bool {
    &&& last_press(k) == last_press(k0)
    &&& (d.op == Op::KeySequence ==> match d.data {
        DescriptorData::KeySequence(ks) => k.keystate_view() == key_seq_release_keys(k0, ks),
        _ => true,
    })
    &&& ((d.op == Op::Layer || d.op == Op::LayerM) && layer_of(d) is Some ==> k.keystate_view() == with_mods_keys(
        k0.keystate_view(),
        layer_mods_from(k, -1i32, 0, 0),
        NR_MODIFIERS as int,
    ))
    &&& (d.op == Op::KeySequence && sendable(sent_key(d, code)) && !is_modifier_key(sent_key(d, code))
        ==> k.keystate_view()[sent_key(d, code) as int] == 0)
    &&& ((d.op == Op::Layer || d.op == Op::LayerM) && layer_of(d) is Some ==> layer_count(k, layer_of(d).unwrap())
        == sat_dec(layer_count(k0, layer_of(d).unwrap())))
    &&& (passthrough_op(d.op) && sendable(code) ==> k.keystate_view()[code as int] == 0)
    &&& (quiet_release_op(d.op) ==> k.keystate_view() == k0.keystate_view() && layer_states(k) == layer_states(k0))
}

/// Setting the modifier keys leaves every other key as it was.
proof fn lemma_with_mods_other(ks: Seq<u8>, mods: u8, n: int, c: int)
    requires
        0 <= n <= NR_MODIFIERS,
        ks.len() == 256,
        0 <= c < ks.len(),
        !is_modifier_key(c as u8),
    ensures
        with_mods_keys(ks, mods, n).len() == ks.len(),
        with_mods_keys(ks, mods, n)[c] == ks[c],
    decreases n,
{
    if n > 0 {
        lemma_with_mods_other(ks, mods, n - 1, c);
        let m = modifier_spec(n - 1);
        assert(m.key != c);
    }
}

/// Setting the modifier keys leaves modifier key `i` down exactly when its
/// bit is in `mods`.
proof fn lemma_with_mods_at(ks: Seq<u8>, mods: u8, n: int, i: int)
    requires
        0 <= i < n <= NR_MODIFIERS,
        ks.len() == 256,
    ensures
        with_mods_keys(ks, mods, n)[modifier_spec(i).key as int] == if modifier_spec(i).mask & mods != 0 {
            1u8
        } else {
            0u8
        },
    decreases n,
{
    lemma_with_mods_len(ks, mods, n - 1);
    if n - 1 > i {
        lemma_with_mods_at(ks, mods, n - 1, i);
        assert(modifier_spec(n - 1).key != modifier_spec(i).key);
    }
}

proof fn lemma_with_mods_len(ks: Seq<u8>, mods: u8, n: int)
    requires
        0 <= n <= NR_MODIFIERS,
        ks.len() == 256,
    ensures
        with_mods_keys(ks, mods, n).len() == 256,
    decreases n,
{
    if n > 0 {
        lemma_with_mods_len(ks, mods, n - 1);
    }
}

/// The key events sent from `o0` to `o1` are all of modifier keys, and none
/// is sent when the key states `ks0` before and `ks1` after are the same.
pub open spec fn mods_only(o0: Output, o1: Output, ks0: Seq<u8>, ks1: Seq<u8>) -> bool {
    &&& forall|j: int| o0.events@.len() <= j < o1.events@.len() ==> is_modifier_key(#[trigger] o1.events@[j].code)
    &&& (ks1 == ks0 ==> o1.events@ == o0.events@)
}

/// Law: pressing a simple key at `t` (a key sequence without modifiers
/// other than Shift, or an unmapped key passing through) is activity for an
/// overload on idleness: pressed less than its timeout after `t`, it chooses
/// its first action; pressed its timeout or more after, its second.
pub proof fn law_idle_overload_after_key(
    d: Descriptor,
    code: u8,
    layer: int,
    t: i64,
    k0: Keyboard,
    k: Keyboard,
    ov: crate::config::DescOverloadIdle,
    t2: i64,
)
    requires
        press_effect(d, code, layer, t, k0, k),
        d.op == Op::KeySequence,
        notes_simple_key(d, 1),
    ensures
        t2 - t < ov.timeout ==> idle_choice(k, ov, t2) == k.config_view().descriptors[ov.action1_idx as int],
        t2 - t >= ov.timeout ==> idle_choice(k, ov, t2) == k.config_view().descriptors[ov.action2_idx as int],
{
}

/// The layer modifiers depend on the layer states and the configuration only.
proof fn lemma_layer_mods_same(a: Keyboard, b: Keyboard, excluded: i32, mods: u8, i: int)
    requires
        layer_states(a) == layer_states(b),
        a.config_view() == b.config_view(),
    ensures
        layer_mods_from(a, excluded, mods, i) == layer_mods_from(b, excluded, mods, i),
    decreases layer_states(a).len() - i,
{
    if !(i < 0 || i >= layer_states(a).len() || i >= a.config_view().layers.len()) {
        let m = if layer_states(a)[i].active != 0 && (excluded == -1 || i != excluded as int) {
            mods | a.config_view().layers[i].mods
        } else {
            mods
        };
        lemma_layer_mods_same(a, b, excluded, m, i + 1);
    }
}

/// The key states `ks` with key `c` released (keys that are never sent stay
/// as they are).
pub open spec fn released_keys(ks: Seq<u8>, c: u8) -> Seq<u8> {
    if sendable(c) {
        ks.update(c as int, 0)
    } else {
        ks
    }
}

/// The modifiers a key sequence `ks` is sent with, pressed while layer
/// `layer` decides the key: its own and those of the other active layers.
pub open spec fn key_seq_mods(k0: Keyboard, ks: DescKeySequence, layer: int) -> u8 {
    layer_mods_from(k0, layer as i32, ks.mods, 0)
}

/// The key states after pressing key sequence `ks` from `k0`: its key is
/// released, the modifier keys match `key_seq_mods`, and its key goes down.
pub open spec fn key_seq_press_keys(k0: Keyboard, ks: DescKeySequence, layer: int) -> Seq<u8> {
    let m = with_mods_keys(released_keys(k0.keystate_view(), ks.code), key_seq_mods(k0, ks, layer), NR_MODIFIERS as int);
    if sendable(ks.code) {
        m.update(ks.code as int, 1)
    } else {
        m
    }
}

/// The key states after releasing key sequence `ks` from `k0`: its key is
/// released and the modifier keys match the active layers.
pub open spec fn key_seq_release_keys(k0: Keyboard, ks: DescKeySequence) -> Seq<u8> {
    with_mods_keys(released_keys(k0.keystate_view(), ks.code), layer_mods_from(k0, -1i32, 0, 0), NR_MODIFIERS as int)
}

/// The key event of key `c` going down (`p` = 1) or up.
pub open spec fn key_event(c: u8, p: u8) -> KeyEvent {
    KeyEvent { code: c, pressed: p, timestamp: 0 }
}

/// The key events sent from `o0` to `o1`.
pub open spec fn new_events(o0: Output, o1: Output) -> Seq<KeyEvent> {
    o1.events@.skip(o0.events@.len() as int)
}

/// The events `evs` are: key `c` going up first when `pre`, key `c` going down
/// last when `post`, modifier keys between them, and nothing between them
/// when `quiet`.
pub open spec fn framed_events(evs: Seq<KeyEvent>, c: u8, pre: bool, post: bool, quiet: bool) -> bool {
    let a = if pre { 1int } else { 0int };
    let b = if post { 1int } else { 0int };
    &&& evs.len() >= a + b
    &&& (pre ==> evs[0] == key_event(c, 0))
    &&& (post ==> evs[evs.len() - 1] == key_event(c, 1))
    &&& forall|j: int| a <= j < evs.len() - b ==> is_modifier_key(#[trigger] evs[j].code)
    &&& (quiet ==> evs.len() == a + b)
}

/// The events of pressing key sequence `ks` from `k0`: its key goes up first
/// if it is down, then the modifier keys change (not at all when they already
/// match), then its key goes down.
pub open spec fn key_seq_press_events(k0: Keyboard, ks: DescKeySequence, layer: int, o0: Output, o1: Output) -> bool {
    let c = ks.code;
    let plain = sendable(c) && !is_modifier_key(c);
    let rel = released_keys(k0.keystate_view(), c);
    framed_events(
        new_events(o0, o1),
        c,
        plain && k0.keystate_view()[c as int] != 0,
        plain,
        !is_modifier_key(c) && with_mods_keys(rel, key_seq_mods(k0, ks, layer), NR_MODIFIERS as int) == rel,
    )
}

/// The events of releasing key sequence `ks` from `k0`: its key goes up if
/// it is down, then the modifier keys change (not at all when they already
/// match the active layers).
pub open spec fn key_seq_release_events(k0: Keyboard, ks: DescKeySequence, o0: Output, o1: Output) -> bool {
    let c = ks.code;
    let plain = sendable(c) && !is_modifier_key(c);
    let rel = released_keys(k0.keystate_view(), c);
    framed_events(
        new_events(o0, o1),
        c,
        plain && k0.keystate_view()[c as int] != 0,
        false,
        !is_modifier_key(c) && with_mods_keys(rel, layer_mods_from(k0, -1i32, 0, 0), NR_MODIFIERS as int) == rel,
    )
}

/// Key `c` going up (when `pre`), modifier keys, and key `c` going down
/// (when `post`) make framed events.
proof fn lemma_framed(e1: Seq<KeyEvent>, e2: Seq<KeyEvent>, e3: Seq<KeyEvent>, c: u8, pre: bool, post: bool, quiet: bool)
    requires
        pre ==> e1 == seq![key_event(c, 0)],
        !pre ==> forall|j: int| 0 <= j < e1.len() ==> is_modifier_key(#[trigger] e1[j].code),
        post ==> e3 == seq![key_event(c, 1)],
        !post ==> forall|j: int| 0 <= j < e3.len() ==> is_modifier_key(#[trigger] e3[j].code),
        forall|j: int| 0 <= j < e2.len() ==> is_modifier_key(#[trigger] e2[j].code),
        quiet ==> e2.len() == 0 && (!pre ==> e1.len() == 0) && (!post ==> e3.len() == 0),
    ensures
        framed_events(e1 + e2 + e3, c, pre, post, quiet),
{
    let evs = e1 + e2 + e3;
    let a = if pre { 1int } else { 0int };
    let b = if post { 1int } else { 0int };
    assert forall|j: int| a <= j < evs.len() - b implies is_modifier_key(#[trigger] evs[j].code) by {
        if j < e1.len() {
            assert(evs[j] == e1[j]);
        } else if j < e1.len() + e2.len() {
            assert(evs[j] == e2[j - e1.len()]);
        } else {
            assert(evs[j] == e3[j - e1.len() - e2.len()]);
        }
    }
    if pre {
        assert(evs[0] == e1[0]);
    }
    if post {
        assert(evs[evs.len() - 1] == e3[0]);
    }
}

impl Keyboard {
    /// Releases modifier key `code`. When the modifier guard applies (the key
    /// was the last key pressed, it is Meta, Alt or AltGr, and neither the
    /// keyboard nor the configuration disables the guard), Control is tapped
    /// around the release so that the release alone does not act as a tap.
    fn clear_mod(&mut self, out: &mut Output, code: u8)
        requires
            old(self).inv(),
            is_modifier_key(code),
        ensures
            forall|j: int| old(out).events@.len() <= j < final(out).events@.len() ==> is_modifier_key(#[trigger] final(out).events@[j].code),
            progress(*old(self), *old(out), *final(self), *final(out), 0),
            final(self).inv(),
            same_core(*final(self), *old(self)),
            emitted(*old(out), *final(out), old(self).keystate@, final(self).keystate@),
            final(self).keystate@ == old(self).keystate@.update(code as int, 0),
            final(out).layer_changes@ == old(out).layer_changes@,
    {
        let guard = self.last_pressed_output_code == code && (code == KEYD_LEFTMETA || code == KEYD_LEFTALT
            || code == KEYD_RIGHTALT) && self.inhibit_modifier_guard == 0
            && self.config.disable_modifier_guard == 0;
        if guard && self.keystate[KEYD_LEFTCTRL as usize] == 0 {
            let ghost k0 = *self;
            let ghost o0 = *out;
            self.send_key(out, KEYD_LEFTCTRL, 1);
            let ghost k1 = *self;
            let ghost o1 = *out;
            self.send_key(out, code, 0);
            let ghost k2 = *self;
            let ghost o2 = *out;
            self.send_key(out, KEYD_LEFTCTRL, 0);
            proof {
                lemma_emitted_trans(o0, o1, o2, k0.keystate@, k1.keystate@, k2.keystate@);
                lemma_emitted_trans(o0, o2, *out, k0.keystate@, k2.keystate@, self.keystate@);
                assert(self.keystate@ =~= old(self).keystate@.update(code as int, 0));
            }
        } else {
            self.send_key(out, code, 0);
        }
    }

    /// Presses the modifier keys of `mods` that are up and releases the other
    /// modifier keys that are down, in the order of `modifier_spec`.
    fn set_mods(&mut self, out: &mut Output, mods: u8)
        requires
            old(self).inv(),
        ensures
            progress(*old(self), *old(out), *final(self), *final(out), 0),
            final(self).inv(),
            same_core(*final(self), *old(self)),
            emitted(*old(out), *final(out), old(self).keystate@, final(self).keystate@),
            final(self).keystate@ == with_mods_keys(old(self).keystate@, mods, NR_MODIFIERS as int),
            final(out).layer_changes@ == old(out).layer_changes@,
            mods_only(*old(out), *final(out), old(self).keystate@, final(self).keystate@),
    {
        proof {
            lemma_same_slots_refl(self.cache@);
        }
        let ghost k0 = *self;
        let ghost o0 = *out;
        proof {
            lemma_emitted_refl(*out, self.keystate@);
        }
        let ghost unchanged = with_mods_keys(k0.keystate@, mods, NR_MODIFIERS as int) == k0.keystate@;
        let mut i: usize = 0;
        while i < NR_MODIFIERS
            invariant
                i <= NR_MODIFIERS,
                self.inv(),
                same_core(*self, k0),
                k0 == *old(self),
                o0 == *old(out),
                emitted(o0, *out, k0.keystate@, self.keystate@),
                self.keystate@ == with_mods_keys(k0.keystate@, mods, i as int),
                out.layer_changes@ == o0.layer_changes@,
                forall|j: int| o0.events@.len() <= j < out.events@.len() ==> is_modifier_key(#[trigger] out.events@[j].code),
                unchanged == (with_mods_keys(k0.keystate@, mods, NR_MODIFIERS as int) == k0.keystate@),
                unchanged ==> out.events@ == o0.events@ && self.keystate@ == k0.keystate@,
                k0.inv(),
            decreases NR_MODIFIERS - i,
        {
            let m = modifier(i);
            proof {
                lemma_with_mods_at(k0.keystate@, mods, NR_MODIFIERS as int, i as int);
            }
            let ghost k1 = *self;
            let ghost o1 = *out;
            if (m.mask & mods) != 0 {
                if self.keystate[m.key as usize] == 0 {
                    self.send_key(out, m.key, 1);
                    proof {
                        lemma_emitted_trans(o0, o1, *out, k0.keystate@, k1.keystate@, self.keystate@);
                        assert(is_modifier_key(m.key));
                        assert forall|j: int| o0.events@.len() <= j < out.events@.len() implies is_modifier_key(
                            #[trigger] out.events@[j].code,
                        ) by {
                            if j < o1.events@.len() {
                                assert(out.events@[j] == o1.events@[j]);
                            }
                        }
                    }
                } else {
                    assert(self.keystate@ =~= k1.keystate@.update(m.key as int, 1));
                }
            } else {
                if self.keystate[m.key as usize] != 0 {
                    self.clear_mod(out, m.key);
                    proof {
                        lemma_emitted_trans(o0, o1, *out, k0.keystate@, k1.keystate@, self.keystate@);
                        assert forall|j: int| o0.events@.len() <= j < out.events@.len() implies is_modifier_key(
                            #[trigger] out.events@[j].code,
                        ) by {
                            if j < o1.events@.len() {
                                assert(out.events@.take(o1.events@.len() as int)[j] == o1.events@[j]);
                            }
                        }
                    }
                } else {
                    assert(self.keystate@ =~= k1.keystate@.update(m.key as int, 0));
                }
            }
            i = i + 1;
        }
    }

    /// Adds the modifiers of the active layers (other than `excluded`) to
    /// `mods`, makes the modifier keys match the result, and returns it.
    fn update_mods(&mut self, out: &mut Output, excluded: i32, mods: u8) -> (r: u8)
        requires
            old(self).inv(),
        ensures
            progress(*old(self), *old(out), *final(self), *final(out), 0),
            final(self).inv(),
            same_core(*final(self), *old(self)),
            emitted(*old(out), *final(out), old(self).keystate@, final(self).keystate@),
            r == layer_mods_from(*old(self), excluded, mods, 0),
            final(self).keystate@ == with_mods_keys(old(self).keystate@, r, NR_MODIFIERS as int),
            final(out).layer_changes@ == old(out).layer_changes@,
            mods_only(*old(out), *final(out), old(self).keystate@, final(self).keystate@),
    {
        let mut final_mods = mods;
        let mut i: usize = 0;
        let n = self.config.layers.len();
        while i < n
            invariant
                i <= n == self.config@.layers.len() == self.layer_state@.len(),
                n <= MAX_LAYERS,
                layer_mods_from(*self, excluded, mods, 0) == layer_mods_from(*self, excluded, final_mods, i as int),
            decreases n - i,
        {
            let ghost fm0 = final_mods;
            if self.layer_state[i].active != 0 && (excluded == -1 || i as i64 != excluded as i64) {
                assert(self.config@.layers[i as int].mods == self.config.layers@[i as int].mods);
                final_mods = final_mods | self.config.layers[i].mods;
            }
            assert(layer_mods_from(*self, excluded, fm0, i as int) == layer_mods_from(*self, excluded, final_mods, i + 1));
            i = i + 1;
        }
        self.set_mods(out, final_mods);
        final_mods
    }
}


/// Everything but the cache is the same in `a` and `b`.
pub closed spec fn same_but_cache(a: Keyboard, b: Keyboard) -> bool {
    &&& a.config == b.config
    &&& a.pending_overload == b.pending_overload
    &&& a.timeouts@ == b.timeouts@
    &&& a.layer_state@ == b.layer_state@
    &&& a.last_pressed_code == b.last_pressed_code
    &&& a.last_pressed_output_code == b.last_pressed_output_code
    &&& a.inhibit_modifier_guard == b.inhibit_modifier_guard
    &&& a.overload_start_time == b.overload_start_time
    &&& a.last_simple_key_time == b.last_simple_key_time
    &&& a.last_repeatable_action == b.last_repeatable_action
    &&& a.keystate@ == b.keystate@
}

/// Cache entry `e` is one the keyboard can hold for a configuration with `nl`
/// layers and `nd` descriptors.
pub open spec fn entry_ok(e: CacheEntry, nl: int, nd: int) -> bool {
    0 <= e.layer < nl && 0 <= e.dl < nl && desc_ok(e.d, nl, nd)
}

impl Keyboard {
    /// The slot holding key `code`.
    fn slot_of(&self, code: u8) -> (r: Option<usize>)
        requires
            self.inv(),
        ensures
            match r {
                Some(i) => i < CACHE_SIZE && slot_holds(self.cache@[i as int], code),
                None => forall|i: int| 0 <= i < CACHE_SIZE ==> !slot_holds(#[trigger] self.cache@[i], code),
            },
    {
        let mut i: usize = 0;
        while i < CACHE_SIZE
            invariant
                i <= CACHE_SIZE,
                self.inv(),
                forall|j: int| 0 <= j < i ==> !slot_holds(#[trigger] self.cache@[j], code),
            decreases CACHE_SIZE - i,
        {
            if let Some(c) = self.cache[i] {
                if c.code == code {
                    return Some(i);
                }
            }
            i = i + 1;
        }
        None
    }

    /// The first free slot.
    fn free_slot(&self) -> (r: Option<usize>)
        requires
            self.inv(),
        ensures
            match r {
                Some(i) => i < CACHE_SIZE && self.cache@[i as int] is None,
                None => forall|i: int| 0 <= i < CACHE_SIZE ==> (#[trigger] self.cache@[i]) is Some,
            },
    {
        let mut i: usize = 0;
        while i < CACHE_SIZE
            invariant
                i <= CACHE_SIZE,
                self.inv(),
                forall|j: int| 0 <= j < i ==> (#[trigger] self.cache@[j]) is Some,
            decreases CACHE_SIZE - i,
        {
            if self.cache[i].is_none() {
                return Some(i);
            }
            i = i + 1;
        }
        None
    }

    /// The cache entry of key `code`.
    fn cache_get(&self, code: u8) -> (r: Option<CacheEntry>)
        requires
            self.inv(),
        ensures
            match r {
                Some(e) => e.code == code && exists|i: int| 0 <= i < CACHE_SIZE && self.cache@[i] == Some(e),
                None => forall|i: int| 0 <= i < CACHE_SIZE ==> !slot_holds(#[trigger] self.cache@[i], code),
            },
            r matches Some(e) ==> entry_ok(e, self.config@.layers.len() as int, self.config@.descriptors.len() as int),
    {
        match self.slot_of(code) {
            Some(i) => {
                let e = self.cache[i];
                assert(match self.cache@[i as int] {
                    Some(e) => 0 <= e.layer < self.config@.layers.len() && 0 <= e.dl < self.config@.layers.len() && desc_ok(e.d, self.config@.layers.len() as int, self.config@.descriptors.len() as int),
                    None => true,
                });
                e
            },
            None => None,
        }
    }

    /// Stores `ent` (with its code set to `code`) in the slot of key `code`,
    /// or in the first free slot when no slot holds the key; `None` frees the
    /// key's slot. False when the cache is full.
    fn cache_set(&mut self, code: u8, ent: Option<CacheEntry>) -> (r: bool)
        requires
            old(self).inv(),
            ent matches Some(e) ==> entry_ok(e, old(self).config@.layers.len() as int, old(self).config@.descriptors.len() as int),
        ensures
            final(self).inv(),
            same_but_cache(*final(self), *old(self)),
            r == exists|i: int| 0 <= i < CACHE_SIZE && (slot_holds(#[trigger] old(self).cache@[i], code) || old(self).cache@[i] is None),
            r ==> match ent {
                Some(e) => exists|i: int| 0 <= i < CACHE_SIZE && final(self).cache@[i] == Some(CacheEntry { code, ..e }),
                None => forall|i: int| 0 <= i < CACHE_SIZE ==> !slot_holds(#[trigger] final(self).cache@[i], code),
            },
            !r ==> final(self).cache@ == old(self).cache@,
            forall|i: int| 0 <= i < CACHE_SIZE && (#[trigger] old(self).cache@[i]) is Some && !slot_holds(old(self).cache@[i], code) ==> final(self).cache@[i] == old(self).cache@[i],
            exists|s: int|
                0 <= s < CACHE_SIZE && #[trigger] changed_only(old(self).cache@, final(self).cache@, s) && (r
                    ==> final(self).cache@[s] == match ent {
                    Some(e) => Some(CacheEntry { code, ..e }),
                    None => None,
                }),
    {
        let slot = match self.slot_of(code) {
            Some(s) => Some(s),
            None => self.free_slot(),
        };
        match slot {
            Some(s) => {
                let ghost old_cache = self.cache@;
                let newv = match ent {
                    Some(e) => Some(CacheEntry { code, ..e }),
                    None => None,
                };
                self.cache.set(s, newv);
                proof {
                    assert(self.cache@ == old_cache.update(s as int, newv));
                    assert forall|j: int| 0 <= j < CACHE_SIZE && j != s implies !slot_holds(old_cache[j], code) by {
                        if slot_holds(old_cache[j], code) && slot_holds(old_cache[s as int], code) {
                            if j < s {
                                assert(match (old_cache[j], old_cache[s as int]) {
                                    (Some(x), Some(y)) => x.code != y.code,
                                    _ => true,
                                });
                            } else {
                                assert(match (old_cache[s as int], old_cache[j]) {
                                    (Some(x), Some(y)) => x.code != y.code,
                                    _ => true,
                                });
                            }
                        }
                    }
                    assert forall|a: int, b: int| 0 <= a < b < CACHE_SIZE implies match (#[trigger] self.cache@[a], #[trigger] self.cache@[b]) {
                        (Some(x), Some(y)) => x.code != y.code,
                        _ => true,
                    } by {
                        assert(match (old_cache[a], old_cache[b]) {
                            (Some(x), Some(y)) => x.code != y.code,
                            _ => true,
                        });
                    }
                    assert forall|j: int| 0 <= j < CACHE_SIZE implies match #[trigger] self.cache@[j] {
                        Some(e) => 0 <= e.layer < self.config@.layers.len() && 0 <= e.dl < self.config@.layers.len() && desc_ok(e.d, self.config@.layers.len() as int, self.config@.descriptors.len() as int),
                        None => true,
                    } by {
                        assert(match old_cache[j] {
                            Some(e) => 0 <= e.layer < self.config@.layers.len() && 0 <= e.dl < self.config@.layers.len() && desc_ok(e.d, self.config@.layers.len() as int, self.config@.descriptors.len() as int),
                            None => true,
                        });
                    }
                    if ent is Some {
                        assert(self.cache@[s as int] == newv);
                    }
                    assert(slot_holds(old_cache[s as int], code) || old_cache[s as int] is None);
                    assert(changed_only(old_cache, self.cache@, s as int));
                }
                true
            },
            None => {
                assert(changed_only(self.cache@, self.cache@, 0));
                false
            },
        }
    }
}

/// The caches `c0` and `c1` differ at most in slot `s`.
pub open spec fn changed_only(c0: Seq<Option<CacheEntry>>, c1: Seq<Option<CacheEntry>>, s: int) -> bool {
    &&& c1.len() == c0.len()
    &&& forall|i: int| 0 <= i < c0.len() && i != s ==> #[trigger] c1[i] == c0[i]
}


/// Everything but the layer states and the cache is the same.
pub closed spec fn same_but_layers(a: Keyboard, b: Keyboard) -> bool {
    &&& a.config == b.config
    &&& a.pending_overload == b.pending_overload
    &&& a.timeouts@ == b.timeouts@
    &&& a.last_pressed_code == b.last_pressed_code
    &&& a.last_pressed_output_code == b.last_pressed_output_code
    &&& a.inhibit_modifier_guard == b.inhibit_modifier_guard
    &&& a.overload_start_time == b.overload_start_time
    &&& a.last_simple_key_time == b.last_simple_key_time
    &&& a.last_repeatable_action == b.last_repeatable_action
    &&& a.keystate@ == b.keystate@
}

/// Layer `i` after a clear: a toggled layer other than the main layer and
/// the layouts is untoggled and left once.
pub open spec fn cleared_layer(cv: ConfigView, ls: Seq<LayerState>, i: int) -> LayerState {
    if i >= 1 && cv.layers[i].layer_type != LayerType::Layout && ls[i].toggled != 0 {
        LayerState { toggled: 0, active: sat_dec(ls[i].active), ..ls[i] }
    } else {
        ls[i]
    }
}

/// Layer `i` after switching to layout `idx`.
pub open spec fn layout_layer(cv: ConfigView, ls: Seq<LayerState>, idx: int, i: int) -> LayerState {
    let c = cleared_layer(cv, ls, i);
    if i == idx && idx != 0 {
        LayerState { activation_time: 1, active: 1, ..c }
    } else if i >= 1 && cv.layers[i].layer_type == LayerType::Layout {
        LayerState { active: 0, ..c }
    } else {
        c
    }
}

pub open spec fn sat_inc(x: u32) -> u32 {
    if x == u32::MAX {
        x
    } else {
        (x + 1) as u32
    }
}

pub open spec fn sat_dec(x: u32) -> u32 {
    if x > 0 {
        (x - 1) as u32
    } else {
        0
    }
}

impl Keyboard {
    /// Forgets the deadlines that `time` has reached and returns the time
    /// until the earliest remaining one (0 when none remains).
    fn calculate_main_loop_timeout(&mut self, time: i64) -> (r: i64)
        requires
            old(self).inv(),
            i32_range(time),
        ensures
            final(self).inv(),
            final(self).timeouts@ == future_timeouts(old(self).timeouts@, time),
            r == if next_deadline(old(self).timeouts@, time) > 0 {
                next_deadline(old(self).timeouts@, time) - time
            } else {
                0
            },
            0 <= r,
            r > 0 ==> r + time <= i32::MAX + 65536,
            r == time_to_next(final(self).timeouts@, time),
            final(self).config == old(self).config,
            final(self).cache@ == old(self).cache@,
            final(self).pending_overload == old(self).pending_overload,
            final(self).layer_state@ == old(self).layer_state@,
            final(self).keystate@ == old(self).keystate@,
            final(self).last_pressed_code == old(self).last_pressed_code,
            final(self).last_pressed_output_code == old(self).last_pressed_output_code,
            final(self).inhibit_modifier_guard == old(self).inhibit_modifier_guard,
            final(self).overload_start_time == old(self).overload_start_time,
            final(self).last_simple_key_time == old(self).last_simple_key_time,
            final(self).last_repeatable_action == old(self).last_repeatable_action,
    {
        let mut earliest: i64 = 0;
        let mut kept: Vec<i64> = Vec::new();
        let mut i: usize = 0;
        let ghost ts = self.timeouts@;
        assert(ts.take(0) =~= Seq::<i64>::empty());
        while i < self.timeouts.len()
            invariant
                i <= self.timeouts@.len() <= MAX_TIMEOUTS,
                ts == self.timeouts@,
                i32_range(time),
                kept@ == future_timeouts(ts.take(i as int), time),
                kept@.len() <= i,
                earliest == next_deadline(ts.take(i as int), time),
                earliest == 0 || (time < earliest <= i32::MAX + 65536),
                forall|j: int| 0 <= j < kept@.len() ==> i32::MIN <= #[trigger] kept@[j] <= i32::MAX + 65536,
                forall|j: int| 0 <= j < ts.len() ==> i32::MIN <= #[trigger] ts[j] <= i32::MAX + 65536,
            decreases self.timeouts.len() - i,
        {
            let t = self.timeouts[i];
            assert(ts.take(i + 1).drop_last() =~= ts.take(i as int));
            if t > time {
                if earliest == 0 || t < earliest {
                    earliest = t;
                }
                kept.push(t);
            }
            i = i + 1;
        }
        assert(ts.take(ts.len() as int) =~= ts);
        proof {
            lemma_next_deadline_future(ts, time);
        }
        self.timeouts = kept;
        if earliest > 0 {
            earliest - time
        } else {
            0
        }
    }

    /// Remembers deadline `deadline` (dropped when the list is full).
    fn schedule_timeout(&mut self, deadline: i64)
        requires
            old(self).inv(),
            i32::MIN <= deadline <= i32::MAX + 65536,
        ensures
            final(self).inv(),
            final(self).timeouts@ == if old(self).timeouts@.len() < MAX_TIMEOUTS {
                old(self).timeouts@.push(deadline)
            } else {
                old(self).timeouts@
            },
            final(self).config == old(self).config,
            final(self).cache@ == old(self).cache@,
            final(self).pending_overload == old(self).pending_overload,
            final(self).layer_state@ == old(self).layer_state@,
            final(self).keystate@ == old(self).keystate@,
            final(self).last_pressed_code == old(self).last_pressed_code,
            final(self).last_pressed_output_code == old(self).last_pressed_output_code,
            final(self).inhibit_modifier_guard == old(self).inhibit_modifier_guard,
            final(self).overload_start_time == old(self).overload_start_time,
            final(self).last_simple_key_time == old(self).last_simple_key_time,
            final(self).last_repeatable_action == old(self).last_repeatable_action,
    {
        if self.timeouts.len() < MAX_TIMEOUTS {
            self.timeouts.push(deadline);
        }
    }

    /// Activates layer `idx` once more at `time`; the held key `code` now
    /// belongs to that layer.
    fn activate_layer(&mut self, out: &mut Output, code: u8, idx: usize, time: i64)
        requires
            old(self).inv(),
            idx < old(self).layer_state@.len(),
            i32_range(time),
        ensures
            final(self).inv(),
            same_but_layers(*final(self), *old(self)),
            final(self).layer_state@ == old(self).layer_state@.update(
                idx as int,
                LayerState {
                    activation_time: time,
                    active: sat_inc(old(self).layer_state@[idx as int].active),
                    ..old(self).layer_state@[idx as int]
                },
            ),
            forall|i: int| 0 <= i < CACHE_SIZE ==> match (#[trigger] final(self).cache@[i], old(self).cache@[i]) {
                (Some(a), Some(b)) => a == (if b.code == code { CacheEntry { layer: idx as i32, ..b } } else { b }),
                (None, None) => true,
                _ => false,
            },
            final(out).events@ == old(out).events@,
            final(out).layer_changes@ == old(out).layer_changes@.push(LayerChange { layer: idx, active: 1 }),
            progress(*old(self), *old(out), *final(self), *final(out), 0),
            keeps_entries(old(self).cache@, final(self).cache@),
    {
        let a = self.layer_state[idx].active;
        self.layer_state[idx].activation_time = time;
        self.layer_state[idx].active = a.saturating_add(1);
        assert(idx < MAX_LAYERS);
        assert(self.inv()) by {
            let k0 = *old(self);
            assert forall|j: int| 0 <= j < self.config@.layers.len() implies i32_range(#[trigger] self.layer_state@[j].activation_time)
                && self.layer_state@[j].oneshot_depth == 0 by {
                assert(k0.inv());
                assert(j < k0.config@.layers.len());
                assert(i32_range(k0.layer_state@[j].activation_time));
                assert(k0.layer_state@[j].oneshot_depth == 0);
            }
        }
        let ghost c0 = self.cache@;
        let ghost nl = self.config@.layers.len() as int;
        let ghost nd = self.config@.descriptors.len() as int;
        if let Some(s) = self.slot_of(code) {
            if let Some(ce) = self.cache[s] {
                let ne = CacheEntry { layer: idx as i32, ..ce };
                self.cache.set(s, Some(ne));
                proof {
                    assert forall|j: int| 0 <= j < CACHE_SIZE && j != s implies !slot_holds(#[trigger] c0[j], code) by {
                        if slot_holds(c0[j], code) {
                            if j < s {
                                assert(match (c0[j], c0[s as int]) {
                                    (Some(x), Some(y)) => x.code != y.code,
                                    _ => true,
                                });
                            } else {
                                assert(match (c0[s as int], c0[j]) {
                                    (Some(x), Some(y)) => x.code != y.code,
                                    _ => true,
                                });
                            }
                        }
                    }
                    assert(entry_ok(ce, nl, nd)) by {
                        assert(match c0[s as int] {
                            Some(e) => 0 <= e.layer < nl && 0 <= e.dl < nl && desc_ok(e.d, nl, nd),
                            None => true,
                        });
                    }
                }
            }
        }
        proof {
            assert forall|a: int, b: int| 0 <= a < b < CACHE_SIZE implies match (#[trigger] self.cache@[a], #[trigger] self.cache@[b]) {
                (Some(x), Some(y)) => x.code != y.code,
                _ => true,
            } by {
                assert(match (c0[a], c0[b]) {
                    (Some(x), Some(y)) => x.code != y.code,
                    _ => true,
                });
            }
            assert forall|j: int| 0 <= j < CACHE_SIZE implies match #[trigger] self.cache@[j] {
                Some(e) => 0 <= e.layer < nl && 0 <= e.dl < nl && desc_ok(e.d, nl, nd),
                None => true,
            } by {
                assert(match c0[j] {
                    Some(e) => 0 <= e.layer < nl && 0 <= e.dl < nl && desc_ok(e.d, nl, nd),
                    None => true,
                });
            }
            assert forall|i: int| 0 <= i < CACHE_SIZE implies match (#[trigger] self.cache@[i], c0[i]) {
                (Some(a), Some(b)) => a == (if b.code == code { CacheEntry { layer: idx as i32, ..b } } else { b }),
                (None, None) => true,
                _ => false,
            } by {
            }
        }
        proof {
            reveal(same_slots);
            reveal(keeps_entries);
            assert forall|i: int| 0 <= i < c0.len() implies match (#[trigger] self.cache@[i], c0[i]) {
                (Some(a), Some(b)) => a.code == b.code && a.d == b.d && a.dl == b.dl,
                (None, None) => true,
                _ => false,
            } by {
                assert(match (self.cache@[i], c0[i]) {
                    (Some(a), Some(b)) => a == (if b.code == code { CacheEntry { layer: idx as i32, ..b } } else { b }),
                    (None, None) => true,
                    _ => false,
                });
            }
        }
        let ghost o1 = *out;
        out.layer_changes.push(LayerChange { layer: idx, active: 1 });
        proof {
            assert(out.layer_changes@.take(o1.layer_changes@.len() as int) =~= o1.layer_changes@);
            lemma_emitted_layers(o1, *out, self.keystate@);
        }
    }

    /// Deactivates layer `idx` once (its count does not go below zero).
    fn deactivate_layer(&mut self, out: &mut Output, idx: usize)
        requires
            old(self).inv(),
            idx < old(self).layer_state@.len(),
        ensures
            final(self).inv(),
            same_but_layers(*final(self), *old(self)),
            final(self).cache@ == old(self).cache@,
            final(self).layer_state@ == old(self).layer_state@.update(
                idx as int,
                LayerState { active: sat_dec(old(self).layer_state@[idx as int].active), ..old(self).layer_state@[idx as int] },
            ),
            final(out).events@ == old(out).events@,
            final(out).layer_changes@ == old(out).layer_changes@.push(LayerChange { layer: idx, active: 0 }),
            progress(*old(self), *old(out), *final(self), *final(out), 0),
    {
        proof {
            lemma_same_slots_refl(self.cache@);
        }
        if self.layer_state[idx].active > 0 {
            let a = self.layer_state[idx].active;
            self.layer_state[idx].active = a - 1;
        }
        assert(self.layer_state@ =~= old(self).layer_state@.update(
            idx as int,
            LayerState { active: sat_dec(old(self).layer_state@[idx as int].active), ..old(self).layer_state@[idx as int] },
        ));
        let ghost o1 = *out;
        out.layer_changes.push(LayerChange { layer: idx, active: 0 });
        proof {
            assert(out.layer_changes@.take(o1.layer_changes@.len() as int) =~= o1.layer_changes@);
            lemma_emitted_layers(o1, *out, self.keystate@);
        }
    }

    /// Releases every key that is down on the virtual keyboard.
    fn reset_keystate(&mut self, out: &mut Output)
        requires
            old(self).inv(),
        ensures
            progress(*old(self), *old(out), *final(self), *final(out), 0),
            final(self).inv(),
            same_core(*final(self), *old(self)),
            final(self).last_pressed_output_code == old(self).last_pressed_output_code,
            emitted(*old(out), *final(out), old(self).keystate@, final(self).keystate@),
            final(self).keystate@ == Seq::new(256, |c: int| 0u8),
            final(out).layer_changes@ == old(out).layer_changes@,
            releases_in_order(new_events(*old(out), *final(out))),
    {
        proof {
            lemma_same_slots_refl(self.cache@);
        }
        let ghost o0 = *out;
        let ghost k0 = self.keystate@;
        proof {
            lemma_emitted_refl(*out, self.keystate@);
        }
        let mut i: usize = 0;
        while i < 256
            invariant
                i <= 256,
                self.inv(),
                same_core(*self, *old(self)),
                self.last_pressed_output_code == old(self).last_pressed_output_code,
                o0 == *old(out),
                k0 == old(self).keystate@,
                emitted(o0, *out, k0, self.keystate@),
                forall|c: int| 0 <= c < i ==> #[trigger] self.keystate@[c] == 0,
                forall|c: int| i <= c < 256 ==> #[trigger] self.keystate@[c] == k0[c],
                out.layer_changes@ == o0.layer_changes@,
                releases_in_order(new_events(o0, *out)),
                forall|j: int| 0 <= j < new_events(o0, *out).len() ==> (#[trigger] new_events(o0, *out)[j]).code < i,
            decreases 256 - i,
        {
            if self.keystate[i] != 0 {
                let ghost ks1 = self.keystate@;
                let ghost o1 = *out;
                let e = KeyEvent { code: i as u8, pressed: 0, timestamp: 0 };
                out.events.push(e);
                self.keystate.set(i, 0);
                proof {
                    let n = o1.events@.len() as int;
                    assert(out.events@.skip(n) =~= seq![e]);
                    assert(out.events@.take(n) =~= o1.events@);
                    assert(out.layer_changes@.take(o1.layer_changes@.len() as int) =~= o1.layer_changes@);
                    assert(seq![e].drop_last() =~= Seq::<KeyEvent>::empty());
                    assert(replay(Seq::<KeyEvent>::empty(), ks1) == Some(ks1));
                    assert(self.keystate@ =~= ks1.update(i as int, 0));
                    assert(replay(seq![e], ks1) == Some(self.keystate@));
                    lemma_emitted_trans(o0, o1, *out, k0, ks1, self.keystate@);
                    let m = o0.events@.len() as int;
                    let a0 = new_events(o0, o1);
                    let a1 = new_events(o0, *out);
                    assert(o1.events@.take(m) == o0.events@);
                    assert(a1 =~= a0.push(e));
                    assert forall|j: int| 0 <= j < a1.len() implies (#[trigger] a1[j]).code < i + 1 && a1[j].pressed == 0 by {
                        if j < a0.len() {
                            assert(a1[j] == a0[j]);
                        }
                    }
                    assert forall|a: int, b: int| 0 <= a < b < a1.len() implies (#[trigger] a1[a]).code < (#[trigger] a1[b]).code by {
                        assert(a1[a] == a0[a]);
                        if b < a0.len() {
                            assert(a1[b] == a0[b]);
                        }
                    }
                }
            }
            i = i + 1;
        }
        assert(self.keystate@ =~= Seq::new(256, |c: int| 0u8));
    }

    /// Leaves every toggled layer (but the main layer and layouts), and
    /// releases every key of the virtual keyboard.
    fn clear(&mut self, out: &mut Output)
        requires
            old(self).inv(),
        ensures
            progress(*old(self), *old(out), *final(self), *final(out), 0),
            final(self).pending_overload == old(self).pending_overload,
            final(self).keystate@ == Seq::new(256, |c: int| 0u8),
            final(self).layer_state@.len() == old(self).layer_state@.len(),
            forall|i: int|
                0 <= i < old(self).layer_state@.len() ==> #[trigger] final(self).layer_state@[i] == cleared_layer(
                    old(self).config@,
                    old(self).layer_state@,
                    i,
                ),
            releases_in_order(new_events(*old(out), *final(out))),
    {
        let ghost k0 = *self;
        let ghost o0 = *out;
        proof {
            lemma_progress_refl(*self, *out);
        }
        let n = self.config.layers.len();
        let mut i: usize = 1;
        while i < n
            invariant
                1 <= i <= n || n == 0,
                n == self.config@.layers.len() == self.layer_state@.len() == k0.layer_state@.len(),
                k0 == *old(self),
                o0 == *old(out),
                progress(k0, o0, *self, *out, 0),
                self.pending_overload == k0.pending_overload,
                out.events@ == o0.events@,
                forall|j: int|
                    0 <= j < n ==> #[trigger] self.layer_state@[j] == if j < i {
                        cleared_layer(k0.config@, k0.layer_state@, j)
                    } else {
                        k0.layer_state@[j]
                    },
            decreases n - i,
        {
            assert(self.config@.layers[i as int].layer_type == self.config.layers@[i as int].layer_type);
            if self.config.layers[i].layer_type != LayerType::Layout && self.layer_state[i].toggled != 0 {
                let ghost k1 = *self;
                let ghost o1 = *out;
                self.layer_state[i].toggled = 0;
                assert(self.inv()) by {
                    assert forall|j: int| 0 <= j < n implies i32_range(#[trigger] self.layer_state@[j].activation_time)
                        && self.layer_state@[j].oneshot_depth == 0 by {
                        assert(k1.inv());
                        assert(j < k1.config@.layers.len());
                        assert(i32_range(k1.layer_state@[j].activation_time));
                        assert(k1.layer_state@[j].oneshot_depth == 0);
                    }
                }
                let ghost k2 = *self;
                self.deactivate_layer(out, i);
                proof {
                    assert(progress(k1, o1, k2, o1, 0)) by {
                        lemma_emitted_refl(o1, k1.keystate@);
                    }
                    lemma_progress_trans(k1, o1, k2, o1, *self, *out, 0, 0);
                    lemma_progress_trans(k0, o0, k1, o1, *self, *out, 0, 0);
                }
            }
            i = i + 1;
        }
        let ghost k1 = *self;
        let ghost o1 = *out;
        self.reset_keystate(out);
        proof {
            lemma_progress_trans(k0, o0, k1, o1, *self, *out, 0, 0);
            assert(new_events(o0, *out) == new_events(o1, *out));
        }
    }

    /// Switches to layout `idx`: clears, leaves every other layout and
    /// activates `idx` (the main layer stays active on its own).
    fn setlayout(&mut self, out: &mut Output, idx: usize)
        requires
            old(self).inv(),
            idx < old(self).layer_state@.len(),
        ensures
            progress(*old(self), *old(out), *final(self), *final(out), 0),
            final(self).pending_overload == old(self).pending_overload,
            final(self).keystate@ == Seq::new(256, |c: int| 0u8),
            final(self).layer_state@.len() == old(self).layer_state@.len(),
            forall|i: int|
                0 <= i < old(self).layer_state@.len() ==> #[trigger] final(self).layer_state@[i] == layout_layer(
                    old(self).config@,
                    old(self).layer_state@,
                    idx as int,
                    i,
                ),
    {
        let ghost k0 = *self;
        let ghost o0 = *out;
        self.clear(out);
        let ghost k1 = *self;
        let ghost o1 = *out;
        proof {
            lemma_progress_refl(k1, o1);
        }
        let n = self.config.layers.len();
        let mut i: usize = 1;
        while i < n
            invariant
                1 <= i <= n,
                n == self.config@.layers.len() == self.layer_state@.len() == k0.layer_state@.len(),
                idx < n,
                k0 == *old(self),
                o0 == *old(out),
                progress(k0, o0, k1, o1, 0),
                progress(k1, o1, *self, o1, 0),
                *out == o1,
                self.pending_overload == k0.pending_overload,
                self.keystate@ == Seq::new(256, |c: int| 0u8),
                forall|j: int|
                    0 <= j < n ==> #[trigger] self.layer_state@[j] == if 1 <= j < i && k0.config@.layers[j].layer_type
                        == LayerType::Layout {
                        LayerState { active: 0, ..cleared_layer(k0.config@, k0.layer_state@, j) }
                    } else {
                        cleared_layer(k0.config@, k0.layer_state@, j)
                    },
            decreases n - i,
        {
            assert(self.config@.layers[i as int].layer_type == self.config.layers@[i as int].layer_type);
            if self.config.layers[i].layer_type == LayerType::Layout {
                let ghost k2 = *self;
                self.layer_state[i].active = 0;
                assert(progress(k1, o1, *self, o1, 0)) by {
                    assert forall|j: int| 0 <= j < n implies i32_range(#[trigger] self.layer_state@[j].activation_time)
                        && self.layer_state@[j].oneshot_depth == 0 by {
                        assert(k2.inv());
                        assert(j < k2.config@.layers.len());
                        assert(i32_range(k2.layer_state@[j].activation_time));
                        assert(k2.layer_state@[j].oneshot_depth == 0);
                    }
                }
            }
            i = i + 1;
        }
        if idx != 0 {
            let ghost k2 = *self;
            self.layer_state[idx].activation_time = 1;
            self.layer_state[idx].active = 1;
            assert(progress(k1, o1, *self, o1, 0)) by {
                assert forall|j: int| 0 <= j < n implies i32_range(#[trigger] self.layer_state@[j].activation_time)
                    && self.layer_state@[j].oneshot_depth == 0 by {
                    assert(k2.inv());
                    assert(j < k2.config@.layers.len());
                    assert(i32_range(k2.layer_state@[j].activation_time));
                    assert(k2.layer_state@[j].oneshot_depth == 0);
                }
            }
        }
        let ghost k2 = *self;
        out.layer_changes.push(LayerChange { layer: idx, active: 1 });
        proof {
            assert(out.layer_changes@.take(o1.layer_changes@.len() as int) =~= o1.layer_changes@);
            lemma_emitted_layers(o1, *out, self.keystate@);
            lemma_progress_trans(k0, o0, k1, o1, *self, *out, 0, 0);
        }
    }

    /// What key `code` does and the layer that decides it (see `resolve_spec`).
    fn resolve_descriptor(&self, code: u8) -> (r: (Descriptor, i32))
        requires
            self.inv(),
        ensures
            r == resolve_spec(*self, code as int),
            0 <= r.1 < self.config@.layers.len(),
            desc_ok(r.0, self.config@.layers.len() as int, self.config@.descriptors.len() as int),
    {
        let n = self.config.layers.len();
        let mut best: Option<usize> = None;
        let mut i: usize = 0;
        while i < n
            invariant
                i <= n == self.config@.layers.len() == self.layer_state@.len(),
                self.inv(),
                match (best, resolve_from(*self, code as int, i as int)) {
                    (Some(b), Some(s)) => b == s && b < i,
                    (None, None) => true,
                    _ => false,
                },
            decreases n - i,
        {
            assert(self.config@.layers[i as int].keymap == self.config.layers@[i as int].keymap@);
            assert(self.config@.layers[i as int].keymap.len() == 256);
            if self.layer_state[i].active != 0 && self.config.layers[i].keymap[code as usize].mapped() {
                let better = match best {
                    None => true,
                    Some(b) => self.layer_state[i].activation_time > self.layer_state[b].activation_time,
                };
                if better {
                    best = Some(i);
                }
            }
            i = i + 1;
        }
        match best {
            Some(b) => {
                assert(self.config@.layers[b as int].keymap == self.config.layers@[b as int].keymap@);
                (self.config.layers[b].keymap[code as usize], b as i32)
            },
            None => {
                assert(self.config@.layers[0].keymap == self.config.layers@[0].keymap@);
                (self.config.layers[0].keymap[code as usize], 0)
            },
        }
    }
}

proof fn lemma_progress_mono(k0: Keyboard, o0: Output, k1: Keyboard, o1: Output, r: nat, r2: nat)
    requires
        progress(k0, o0, k1, o1, r),
        r <= r2,
    ensures
        progress(k0, o0, k1, o1, r2),
{
}

/// A change of fields other than the configuration, the key states and the
/// pending overload that keeps the invariant.
proof fn lemma_progress_fields(k1: Keyboard, k2: Keyboard, o: Output)
    requires
        k2.inv(),
        k2.config == k1.config,
        k2.keystate@ == k1.keystate@,
        k2.pending_overload == k1.pending_overload,
        k2.cache@ == k1.cache@ || same_slots(k1.cache@, k2.cache@),
    ensures
        progress(k1, o, k2, o, 0),
{
    lemma_emitted_refl(o, k1.keystate@);
    lemma_same_slots_refl(k1.cache@);
}

/// The cache slot `s` holds an entry that keeps layer `dl` (other than the
/// main layer) active, and that layer is a normal one.
pub open spec fn holds_layer(cv: ConfigView, s: Option<CacheEntry>, dl: i32) -> bool {
    match s {
        Some(ce) => ce.layer == dl && ce.layer != 0 && cv.layers[ce.layer as int].layer_type == LayerType::Normal,
        None => false,
    }
}

/// Slot `j` of the cache does not hold key `code` when slot `s` does.
proof fn lemma_slot_unique(k: Keyboard, s: int, j: int, code: u8)
    requires
        k.inv(),
        0 <= s < CACHE_SIZE,
        0 <= j < CACHE_SIZE,
        j != s,
        slot_holds(k.cache@[s], code),
    ensures
        !slot_holds(k.cache@[j], code),
{
    if j < s {
        assert(match (k.cache@[j], k.cache@[s]) {
            (Some(x), Some(y)) => x.code != y.code,
            _ => true,
        });
    } else {
        assert(match (k.cache@[s], k.cache@[j]) {
            (Some(x), Some(y)) => x.code != y.code,
            _ => true,
        });
    }
}

impl Keyboard {
    /// Puts entry `e` in slot `s`, in place of an entry for the same key.
    fn replace_entry(&mut self, s: usize, e: CacheEntry)
        requires
            old(self).inv(),
            s < CACHE_SIZE,
            old(self).cache@[s as int] matches Some(o) && o.code == e.code,
            entry_ok(e, old(self).config@.layers.len() as int, old(self).config@.descriptors.len() as int),
        ensures
            final(self).inv(),
            same_but_cache(*final(self), *old(self)),
            final(self).cache@ == old(self).cache@.update(s as int, Some(e)),
            same_slots(old(self).cache@, final(self).cache@),
    {
        proof {
            lemma_same_slots_update(self.cache@, s as int, e);
        }
        let ghost k0 = *self;
        let ghost nl = self.config@.layers.len() as int;
        let ghost nd = self.config@.descriptors.len() as int;
        self.cache.set(s, Some(e));
        proof {
            assert forall|a: int, b: int| 0 <= a < b < CACHE_SIZE implies match (#[trigger] self.cache@[a], #[trigger] self.cache@[b]) {
                (Some(x), Some(y)) => x.code != y.code,
                _ => true,
            } by {
                assert(match (k0.cache@[a], k0.cache@[b]) {
                    (Some(x), Some(y)) => x.code != y.code,
                    _ => true,
                });
            }
            assert forall|j: int| 0 <= j < CACHE_SIZE implies match #[trigger] self.cache@[j] {
                Some(x) => 0 <= x.layer < nl && 0 <= x.dl < nl && desc_ok(x.d, nl, nd),
                None => true,
            } by {
                assert(match k0.cache@[j] {
                    Some(x) => 0 <= x.layer < nl && 0 <= x.dl < nl && desc_ok(x.d, nl, nd),
                    None => true,
                });
            }
        }
    }

    /// The entry of key `code`, if the cache holds one, now undoes `d`.
    fn set_entry_desc(&mut self, code: u8, d: Descriptor)
        requires
            old(self).inv(),
            desc_ok(d, old(self).config@.layers.len() as int, old(self).config@.descriptors.len() as int),
        ensures
            final(self).inv(),
            same_but_cache(*final(self), *old(self)),
            forall|i: int|
                0 <= i < CACHE_SIZE ==> #[trigger] final(self).cache@[i] == match old(self).cache@[i] {
                    Some(e) => if e.code == code {
                        Some(CacheEntry { d, ..e })
                    } else {
                        Some(e)
                    },
                    None => None,
                },
            same_slots(old(self).cache@, final(self).cache@),
    {
        proof {
            lemma_same_slots_refl(self.cache@);
        }
        let ghost k0 = *self;
        if let Some(s) = self.slot_of(code) {
            if let Some(ce) = self.cache[s] {
                assert(entry_ok(ce, self.config@.layers.len() as int, self.config@.descriptors.len() as int)) by {
                    let nl = self.config@.layers.len() as int;
                    let nd = self.config@.descriptors.len() as int;
                    assert(match self.cache@[s as int] {
                        Some(x) => 0 <= x.layer < nl && 0 <= x.dl < nl && desc_ok(x.d, nl, nd),
                        None => true,
                    });
                }
                self.replace_entry(s, CacheEntry { d, ..ce });
                proof {
                    assert forall|j: int| 0 <= j < CACHE_SIZE && j != s implies !slot_holds(#[trigger] k0.cache@[j], code) by {
                        lemma_slot_unique(k0, s as int, j, code);
                    }
                }
            }
        }
    }

    /// The first slot whose entry keeps layer `dl` active (see `holds_layer`).
    fn find_layer_holder(&self, dl: i32) -> (r: Option<usize>)
        requires
            self.inv(),
        ensures
            match r {
                Some(s) => s < CACHE_SIZE && holds_layer(self.config@, self.cache@[s as int], dl),
                None => forall|j: int| 0 <= j < CACHE_SIZE ==> !holds_layer(self.config@, #[trigger] self.cache@[j], dl),
            },
    {
        let mut i: usize = 0;
        while i < CACHE_SIZE
            invariant
                i <= CACHE_SIZE,
                self.inv(),
                forall|j: int| 0 <= j < i ==> !holds_layer(self.config@, #[trigger] self.cache@[j], dl),
            decreases CACHE_SIZE - i,
        {
            if let Some(ce) = self.cache[i] {
                let nl = self.config.layers.len();
                assert(match self.cache@[i as int] {
                    Some(x) => 0 <= x.layer < nl,
                    None => true,
                });
                if ce.layer == dl && ce.layer != 0 {
                    assert(self.config@.layers[ce.layer as int].layer_type == self.config.layers@[ce.layer as int].layer_type);
                    if self.config.layers[ce.layer as usize].layer_type == LayerType::Normal {
                        return Some(i);
                    }
                }
            }
            i = i + 1;
        }
        None
    }
}

impl Keyboard {
    /// Presses key sequence `ks`, pressed while layer `layer` decides the
    /// key: its key is released if down, the modifier keys are set to
    /// `key_seq_mods`, the sequence with those modifiers becomes the action
    /// repeat performs, and its key goes down.
    fn press_key_seq(&mut self, out: &mut Output, ks: DescKeySequence, layer: i32)
        requires
            old(self).inv(),
            desc_ok(
                Descriptor { op: Op::KeySequence, data: DescriptorData::KeySequence(ks) },
                old(self).config@.layers.len() as int,
                old(self).config@.descriptors.len() as int,
            ),
        ensures
            progress(*old(self), *old(out), *final(self), *final(out), 0),
            final(self).pending_overload == old(self).pending_overload,
            final(self).layer_state@ == old(self).layer_state@,
            final(self).last_pressed_code == old(self).last_pressed_code,
            final(self).last_simple_key_time == old(self).last_simple_key_time,
            final(self).keystate_view() == key_seq_press_keys(*old(self), ks, layer as int),
            key_seq_press_events(*old(self), ks, layer as int, *old(out), *final(out)),
            final(out).layer_changes@ == old(out).layer_changes@,
            final(self).cache@ == old(self).cache@,
    {
        let ghost k0 = *self;
        let ghost o0 = *out;
        let c = ks.code;
        let ghost rel = released_keys(k0.keystate_view(), c);
        if self.keystate[c as usize] != 0 {
            self.send_key(out, c, 0);
        } else {
            proof {
                lemma_progress_refl(k0, o0);
            }
        }
        let ghost k1 = *self;
        let ghost o1 = *out;
        assert(k1.keystate@ =~= rel);
        let active_mods = self.update_mods(out, layer, ks.mods);
        proof {
            lemma_progress_trans(k0, o0, k1, o1, *self, *out, 0, 0);
            lemma_layer_mods_same(k1, k0, layer, ks.mods, 0);
        }
        let ghost k2 = *self;
        let ghost o2 = *out;
        self.last_repeatable_action = Descriptor {
            op: Op::KeySequence,
            data: DescriptorData::KeySequence(DescKeySequence { code: c, mods: active_mods }),
        };
        proof {
            lemma_progress_fields(k2, *self, *out);
            lemma_progress_trans(k0, o0, k2, *out, *self, *out, 0, 0);
        }
        let ghost k3 = *self;
        proof {
            lemma_with_mods_len(rel, active_mods, NR_MODIFIERS as int);
            if !is_modifier_key(c) {
                lemma_with_mods_other(rel, active_mods, NR_MODIFIERS as int, c as int);
            }
        }
        self.send_key(out, c, 1);
        proof {
            lemma_progress_trans(k0, o0, k3, o2, *self, *out, 0, 0);
            let plain = sendable(c) && !is_modifier_key(c);
            let pre = plain && k0.keystate_view()[c as int] != 0;
            let e1 = new_events(o0, o1);
            let e2 = new_events(o1, o2);
            let e3 = new_events(o2, *out);
            assert(out.events@.take(o2.events@.len() as int) =~= o2.events@);
            assert(o2.events@.take(o1.events@.len() as int) =~= o1.events@);
            assert(o1.events@.take(o0.events@.len() as int) =~= o0.events@);
            assert(new_events(o0, *out) =~= e1 + e2 + e3);
            if pre {
                assert(e1 =~= seq![key_event(c, 0)]);
            } else {
                assert forall|j: int| 0 <= j < e1.len() implies is_modifier_key(#[trigger] e1[j].code) by {
                    assert(e1[j] == key_event(c, 0));
                }
            }
            if plain {
                assert(e3 =~= seq![key_event(c, 1)]);
            } else {
                assert forall|j: int| 0 <= j < e3.len() implies is_modifier_key(#[trigger] e3[j].code) by {
                    assert(e3[j] == key_event(c, 1));
                }
            }
            assert forall|j: int| 0 <= j < e2.len() implies is_modifier_key(#[trigger] e2[j].code) by {
                assert(e2[j] == o2.events@[o1.events@.len() + j]);
            }
            if !is_modifier_key(c) && with_mods_keys(rel, key_seq_mods(k0, ks, layer as int), NR_MODIFIERS as int) == rel {
                assert(e2.len() == 0);
                assert(e1.len() == 0 || pre);
                assert(e3.len() == 0 || plain);
            }
            lemma_framed(e1, e2, e3, c, pre, plain, !is_modifier_key(c) && with_mods_keys(rel, key_seq_mods(k0, ks, layer as int), NR_MODIFIERS as int) == rel);
            assert(self.keystate@ =~= key_seq_press_keys(k0, ks, layer as int));
        }
    }

    /// Releases key sequence `ks`: its key goes up, and the modifier keys are
    /// set to those of the active layers.
    fn release_key_seq(&mut self, out: &mut Output, ks: DescKeySequence)
        requires
            old(self).inv(),
        ensures
            progress(*old(self), *old(out), *final(self), *final(out), 0),
            final(self).pending_overload == old(self).pending_overload,
            final(self).layer_state@ == old(self).layer_state@,
            final(self).last_pressed_code == old(self).last_pressed_code,
            final(self).last_simple_key_time == old(self).last_simple_key_time,
            final(self).last_repeatable_action == old(self).last_repeatable_action,
            final(self).keystate_view() == key_seq_release_keys(*old(self), ks),
            key_seq_release_events(*old(self), ks, *old(out), *final(out)),
            final(out).layer_changes@ == old(out).layer_changes@,
            final(self).cache@ == old(self).cache@,
    {
        let ghost k0 = *self;
        let ghost o0 = *out;
        let c = ks.code;
        let ghost rel = released_keys(k0.keystate_view(), c);
        self.send_key(out, c, 0);
        let ghost k1 = *self;
        let ghost o1 = *out;
        assert(k1.keystate@ =~= rel);
        self.update_mods(out, -1, 0);
        proof {
            lemma_progress_trans(k0, o0, k1, o1, *self, *out, 0, 0);
            lemma_layer_mods_same(k1, k0, -1i32, 0, 0);
            let plain = sendable(c) && !is_modifier_key(c);
            let pre = plain && k0.keystate_view()[c as int] != 0;
            let e1 = new_events(o0, o1);
            let e2 = new_events(o1, *out);
            let e3 = Seq::<KeyEvent>::empty();
            assert(out.events@.take(o1.events@.len() as int) =~= o1.events@);
            assert(o1.events@.take(o0.events@.len() as int) =~= o0.events@);
            assert(new_events(o0, *out) =~= e1 + e2 + e3);
            if pre {
                assert(e1 =~= seq![key_event(c, 0)]);
            } else {
                assert forall|j: int| 0 <= j < e1.len() implies is_modifier_key(#[trigger] e1[j].code) by {
                    assert(e1[j] == key_event(c, 0));
                }
            }
            assert forall|j: int| 0 <= j < e2.len() implies is_modifier_key(#[trigger] e2[j].code) by {
                assert(e2[j] == out.events@[o1.events@.len() + j]);
            }
            lemma_framed(e1, e2, e3, c, pre, false, !is_modifier_key(c) && with_mods_keys(rel, layer_mods_from(k0, -1i32, 0, 0), NR_MODIFIERS as int) == rel);
        }
    }
}

impl Keyboard {
    /// Remembers `time` as the time of the last simple key.
    fn note_simple_key(&mut self, time: i64)
        requires
            old(self).inv(),
            i32_range(time),
        ensures
            final(self).inv(),
            *final(self) == (Keyboard { last_simple_key_time: time, ..*old(self) }),
    {
        self.last_simple_key_time = time;
    }

    /// A key sequence: on press, the key is sent with the modifiers of the
    /// sequence and of the active layers (the layer of the key excluded), and
    /// becomes the action that repeat repeats; on release, the key is released
    /// and the modifiers of the active layers restored. Without a key
    /// sequence the physical key passes through.
    #[verifier::rlimit(60)]
    fn exec_key_sequence(&mut self, out: &mut Output, d: Descriptor, code: u8, layer: i32, pressed: u8, time: i64)
        requires
            old(self).inv(),
            d.op == Op::KeySequence,
            desc_ok(d, old(self).config@.layers.len() as int, old(self).config@.descriptors.len() as int),
            i32_range(time),
        ensures
            progress(*old(self), *old(out), *final(self), *final(out), 0),
            final(self).pending_overload == old(self).pending_overload,
            final(self).layer_state@ == old(self).layer_state@,
            pressed != 0 && sendable(sent_key(d, code)) ==> final(self).keystate@[sent_key(d, code) as int] == 1,
            pressed != 0 ==> press_output(d, code, *old(out), *final(out)),
            pressed == 0 && sendable(sent_key(d, code)) && !is_modifier_key(sent_key(d, code))
                ==> final(self).keystate@[sent_key(d, code) as int] == 0,
            final(self).last_pressed_code == old(self).last_pressed_code,
            d.data matches DescriptorData::KeySequence(ks) ==> if pressed != 0 {
                &&& final(self).keystate_view() == key_seq_press_keys(*old(self), ks, layer as int)
                &&& key_seq_press_events(*old(self), ks, layer as int, *old(out), *final(out))
            } else {
                &&& final(self).keystate_view() == key_seq_release_keys(*old(self), ks)
                &&& key_seq_release_events(*old(self), ks, *old(out), *final(out))
            },
            final(self).cache@ == old(self).cache@,
            final(self).last_simple_key_time == if notes_simple_key(d, pressed) {
                time
            } else {
                old(self).last_simple_key_time
            },
    {
        let ghost k0 = *self;
        let ghost o0 = *out;
        proof {
            lemma_progress_refl(k0, o0);
        }
        match d.data {
            DescriptorData::KeySequence(ks) => {
                let new_code = ks.code;
                let mods = ks.mods;
                if pressed != 0 {
                    self.press_key_seq(out, ks, layer);
                    proof {
                        let plain = sendable(new_code) && !is_modifier_key(new_code);
                        if plain {
                            let evs = new_events(o0, *out);
                            assert(evs[evs.len() - 1] == key_event(new_code, 1));
                            assert(out.events@[o0.events@.len() + evs.len() - 1] == evs[evs.len() - 1]);
                            assert(emitted_press(o0, *out, new_code));
                        }
                        lemma_with_mods_len(
                            released_keys(k0.keystate_view(), new_code),
                            key_seq_mods(k0, ks, layer as int),
                            NR_MODIFIERS as int,
                        );
                    }
                    assert(press_output(d, code, o0, *out));
                } else {
                    self.release_key_seq(out, ks);
                    proof {
                        if sendable(new_code) && !is_modifier_key(new_code) {
                            lemma_with_mods_other(released_keys(k0.keystate_view(), new_code), layer_mods_from(k0, -1i32, 0, 0), NR_MODIFIERS as int, new_code as int);
                        }
                    }
                }
                if mods == 0 || mods == MOD_SHIFT {
                    let ghost k4 = *self;
                    self.note_simple_key(time);
                    proof {
                        lemma_progress_fields(k4, *self, *out);
                        lemma_progress_trans(k0, o0, k4, *out, *self, *out, 0, 0);
                    }
                }
            },
            _ => {
                if pressed != 0 {
                    let ghost k1 = *self;
                    let ghost o1 = *out;
                    self.update_mods(out, layer, 0);
                    proof {
                        lemma_progress_trans(k0, o0, k1, o1, *self, *out, 0, 0);
                    }
                    let ghost k2 = *self;
                    self.last_repeatable_action = d;
                    proof {
                        assert(self.cache@ == k2.cache@);
                        lemma_progress_fields(k2, *self, *out);
                        lemma_progress_trans(k0, o0, k2, *out, *self, *out, 0, 0);
                    }
                    let ghost k3 = *self;
                    let ghost o3 = *out;
                    self.send_key(out, code, 1);
                    proof {
                        lemma_progress_trans(k0, o0, k3, o3, *self, *out, 0, 0);
                    }
                    let ghost k4 = *self;
                    self.note_simple_key(time);
                    proof {
                        lemma_progress_fields(k4, *self, *out);
                        lemma_progress_trans(k0, o0, k4, *out, *self, *out, 0, 0);
                    }
                } else {
                    let ghost k1 = *self;
                    let ghost o1 = *out;
                    self.send_key(out, code, 0);
                    proof {
                        lemma_progress_trans(k0, o0, k1, o1, *self, *out, 0, 0);
                    }
                    let ghost k2 = *self;
                    let ghost o2 = *out;
                    let r = self.update_mods(out, -1, 0);
                    proof {
                        lemma_progress_trans(k0, o0, k2, o2, *self, *out, 0, 0);
                        if !is_modifier_key(code) {
                            lemma_with_mods_other(k2.keystate@, r, NR_MODIFIERS as int, code as int);
                        }
                    }
                }
            },
        }
    }
}

impl Keyboard {
    /// A layer key: the layer is active while the key is held. When the key
    /// was the last one pressed, the modifier guard is off while the
    /// modifiers are restored.
    fn exec_layer(&mut self, out: &mut Output, code: u8, idx: usize, pressed: u8, time: i64)
        requires
            old(self).inv(),
            idx < old(self).layer_state@.len(),
            i32_range(time),
        ensures
            progress(*old(self), *old(out), *final(self), *final(out), 0),
            final(self).pending_overload == old(self).pending_overload,
            final(self).layer_state@.len() == old(self).layer_state@.len(),
            pressed != 0 ==> final(self).layer_state@[idx as int].active != 0,
            final(self).layer_state@[idx as int].active == if pressed != 0 {
                sat_inc(old(self).layer_state@[idx as int].active)
            } else {
                sat_dec(old(self).layer_state@[idx as int].active)
            },
            final(self).last_pressed_code == old(self).last_pressed_code,
            final(self).keystate_view() == with_mods_keys(old(self).keystate_view(), layer_mods_from(*final(self), -1i32, 0, 0), NR_MODIFIERS as int),
            mods_only(*old(out), *final(out), old(self).keystate_view(), final(self).keystate_view()),
            keeps_entries(old(self).cache@, final(self).cache@),
    {
        let ghost k0 = *self;
        let ghost o0 = *out;
        if pressed != 0 {
            self.activate_layer(out, code, idx, time);
        } else {
            self.deactivate_layer(out, idx);
        }
        let ghost k1 = *self;
        let ghost o1 = *out;
        let ghost m = layer_mods_from(k1, -1i32, 0, 0);
        if self.last_pressed_code == code {
            self.set_guard(1);
            proof {
                lemma_progress_fields(k1, *self, *out);
            }
            let ghost k2 = *self;
            self.update_mods(out, -1, 0);
            proof {
                lemma_progress_trans(k1, o1, k2, o1, *self, *out, 0, 0);
                assert(layer_states(k2) == layer_states(k1));
                lemma_layer_mods_same(k2, k1, -1i32, 0, 0);
            }
            let ghost k3 = *self;
            self.set_guard(0);
            proof {
                lemma_progress_fields(k3, *self, *out);
                lemma_progress_trans(k1, o1, k3, *out, *self, *out, 0, 0);
            }
        } else {
            self.update_mods(out, -1, 0);
        }
        proof {
            lemma_progress_trans(k0, o0, k1, o1, *self, *out, 0, 0);
            assert(layer_states(*self) == layer_states(k1));
            lemma_layer_mods_same(k1, *self, -1i32, 0, 0);
            assert(self.keystate@ == with_mods_keys(k1.keystate@, m, NR_MODIFIERS as int));
            assert(self.cache@ == k1.cache@);
            if pressed == 0 {
                lemma_keeps_entries_refl(k0.cache@);
            }
        }
    }

    /// Sets the flag that turns the modifier guard off.
    fn set_guard(&mut self, v: u8)
        requires
            old(self).inv(),
        ensures
            final(self).inv(),
            *final(self) == (Keyboard { inhibit_modifier_guard: v, ..*old(self) }),
    {
        self.inhibit_modifier_guard = v;
    }

    /// Sets the toggle flag of layer `idx`.
    fn set_toggled(&mut self, idx: usize, v: u8)
        requires
            old(self).inv(),
            idx < old(self).layer_state@.len(),
        ensures
            final(self).inv(),
            final(self).layer_state@ == old(self).layer_state@.update(
                idx as int,
                LayerState { toggled: v, ..old(self).layer_state@[idx as int] },
            ),
            same_but_layers(*final(self), *old(self)),
            final(self).cache@ == old(self).cache@,
    {
        let ghost k0 = *self;
        self.layer_state[idx].toggled = v;
        assert(self.layer_state@ =~= k0.layer_state@.update(idx as int, LayerState { toggled: v, ..k0.layer_state@[idx as int] }));
        assert(self.inv()) by {
            assert forall|j: int| 0 <= j < self.config@.layers.len() implies i32_range(#[trigger] self.layer_state@[j].activation_time)
                && self.layer_state@[j].oneshot_depth == 0 by {
                assert(k0.inv());
                assert(j < k0.config@.layers.len());
                assert(i32_range(k0.layer_state@[j].activation_time));
                assert(k0.layer_state@[j].oneshot_depth == 0);
            }
        }
    }

    /// A toggle key: each press switches layer `idx` on or off.
    fn exec_toggle(&mut self, out: &mut Output, code: u8, idx: usize, pressed: u8, time: i64)
        requires
            old(self).inv(),
            idx < old(self).layer_state@.len(),
            i32_range(time),
        ensures
            pressed == 0 ==> *final(self) == *old(self) && *final(out) == *old(out),
            progress(*old(self), *old(out), *final(self), *final(out), 0),
            final(self).pending_overload == old(self).pending_overload,
            final(self).layer_state@.len() == old(self).layer_state@.len(),
            pressed != 0 ==> final(self).layer_state@[idx as int].toggled == old(self).layer_state@[idx as int].toggled ^ 1,
            pressed != 0 ==> final(self).layer_state@[idx as int].active == if final(self).layer_state@[idx as int].toggled
                != 0 {
                sat_inc(old(self).layer_state@[idx as int].active)
            } else {
                sat_dec(old(self).layer_state@[idx as int].active)
            },
            pressed != 0 ==> keeps_entries(old(self).cache@, final(self).cache@),
            final(self).last_pressed_code == old(self).last_pressed_code,
            final(self).keystate_view() == with_mods_keys(old(self).keystate_view(), layer_mods_from(*final(self), -1i32, 0, 0), NR_MODIFIERS as int) || pressed == 0,
            mods_only(*old(out), *final(out), old(self).keystate_view(), final(self).keystate_view()),
    {
        let ghost k0 = *self;
        let ghost o0 = *out;
        proof {
            lemma_progress_refl(k0, o0);
        }
        if pressed != 0 {
            let t = self.layer_state[idx].toggled ^ 1;
            self.set_toggled(idx, t);
            proof {
                lemma_progress_fields(k0, *self, o0);
            }
            let ghost k1 = *self;
            if t != 0 {
                self.activate_layer(out, code, idx, time);
            } else {
                self.deactivate_layer(out, idx);
            }
            proof {
                lemma_progress_trans(k0, o0, k1, o0, *self, *out, 0, 0);
            }
            let ghost k2 = *self;
            let ghost o2 = *out;
            self.update_mods(out, -1, 0);
            proof {
                lemma_progress_trans(k0, o0, k2, o2, *self, *out, 0, 0);
                lemma_keeps_entries_refl(k0.cache@);
                assert(layer_states(*self) == layer_states(k2));
                lemma_layer_mods_same(k2, *self, -1i32, 0, 0);
            }
        }
    }

    /// A swap key, pressed while layer `dl` decides it: the toggle (or the
    /// key) that keeps `dl` active keeps layer `idx` active instead.
    fn exec_swap(&mut self, out: &mut Output, idx: usize, dl: usize, pressed: u8, time: i64)
        requires
            old(self).inv(),
            idx < old(self).layer_state@.len(),
            dl < old(self).layer_state@.len(),
            i32_range(time),
        ensures
            pressed == 0 ==> *final(self) == *old(self) && *final(out) == *old(out),
            progress(*old(self), *old(out), *final(self), *final(out), 0),
            final(self).pending_overload == old(self).pending_overload,
            pressed != 0 ==> swap_effect(idx as int, dl as int, *old(self), *final(self)),
    {
        let ghost k0 = *self;
        let ghost o0 = *out;
        proof {
            lemma_progress_refl(k0, o0);
        }
        if pressed == 0 {
            return;
        }
        if self.layer_state[dl].toggled != 0 {
            self.deactivate_layer(out, dl);
            let ghost k1 = *self;
            let ghost o1 = *out;
            self.set_toggled(dl, 0);
            proof {
                lemma_progress_fields(k1, *self, o1);
                lemma_progress_trans(k0, o0, k1, o1, *self, *out, 0, 0);
            }
            let ghost k2 = *self;
            self.activate_layer(out, 0, idx, time);
            proof {
                lemma_progress_trans(k0, o0, k2, o1, *self, *out, 0, 0);
            }
            let ghost k3 = *self;
            let ghost o3 = *out;
            self.set_toggled(idx, 1);
            proof {
                lemma_progress_fields(k3, *self, o3);
                lemma_progress_trans(k0, o0, k3, o3, *self, *out, 0, 0);
            }
            let ghost k4 = *self;
            self.update_mods(out, -1, 0);
            proof {
                lemma_progress_trans(k0, o0, k4, o3, *self, *out, 0, 0);
            }
        } else if self.layer_state[dl].oneshot_depth > 0 {
            // A oneshot layer swaps its oneshot to the target layer. (No
            // layer is oneshot yet: the invariant keeps every depth at 0.)
            assert(i32_range(self.layer_state@[dl as int].activation_time));
            self.deactivate_layer(out, dl);
            let d = self.layer_state[dl].oneshot_depth;
            self.layer_state[dl].oneshot_depth = d - 1;
            self.activate_layer(out, 0, idx, time);
            let e = self.layer_state[idx].oneshot_depth;
            self.layer_state[idx].oneshot_depth = e + 1;
            self.update_mods(out, -1, 0);
        } else {
            match self.find_layer_holder(dl as i32) {
                Some(s) => {
                    if let Some(ce) = self.cache[s] {
                        assert(idx < MAX_LAYERS);
                        let nd = Descriptor { op: Op::Layer, data: DescriptorData::Layer(DescLayer { idx: idx as i16 }) };
                        assert(entry_ok(ce, self.config@.layers.len() as int, self.config@.descriptors.len() as int)) by {
                            let nl = self.config@.layers.len() as int;
                            let n2 = self.config@.descriptors.len() as int;
                            assert(match self.cache@[s as int] {
                                Some(x) => 0 <= x.layer < nl && 0 <= x.dl < nl && desc_ok(x.d, nl, n2),
                                None => true,
                            });
                        }
                        self.replace_entry(s, CacheEntry { d: nd, ..ce });
                        proof {
                            lemma_progress_fields(k0, *self, o0);
                        }
                        let ghost k1 = *self;
                        self.deactivate_layer(out, dl);
                        proof {
                            lemma_progress_trans(k0, o0, k1, o0, *self, *out, 0, 0);
                        }
                        let ghost k2 = *self;
                        let ghost o2 = *out;
                        self.activate_layer(out, ce.code, idx, time);
                        proof {
                            lemma_progress_trans(k0, o0, k2, o2, *self, *out, 0, 0);
                        }
                        let ghost k3 = *self;
                        let ghost o3 = *out;
                        self.update_mods(out, -1, 0);
                        proof {
                            lemma_progress_trans(k0, o0, k3, o3, *self, *out, 0, 0);
                        }
                    }
                },
                None => {},
            }
        }
    }
}

impl Keyboard {
    /// Remembers `time` as the time the overload key went down.
    fn note_overload_start(&mut self, time: i64)
        requires
            old(self).inv(),
            i32_range(time),
        ensures
            final(self).inv(),
            *final(self) == (Keyboard { overload_start_time: time, ..*old(self) }),
    {
        self.overload_start_time = time;
    }

    /// Remembers `code` as the last key pressed.
    fn note_press(&mut self, code: u8)
        requires
            old(self).inv(),
        ensures
            final(self).inv(),
            *final(self) == (Keyboard { last_pressed_code: code, ..*old(self) }),
    {
        self.last_pressed_code = code;
    }

    /// Makes `po` the pending overload.
    fn start_pending(&mut self, po: OverloadState)
        requires
            old(self).inv(),
            (po.dl as int) < old(self).config@.layers.len(),
            po.queue@.len() <= OVERLOAD_QUEUE_SIZE,
            desc_ok(po.action1, old(self).config@.layers.len() as int, old(self).config@.descriptors.len() as int),
            desc_ok(po.action2, old(self).config@.layers.len() as int, old(self).config@.descriptors.len() as int),
            rank(po.action2) == 0,
            i32::MIN <= po.expiration <= i32::MAX + 65536,
        ensures
            final(self).inv(),
            *final(self) == (Keyboard { pending_overload: Some(po), ..*old(self) }),
    {
        self.pending_overload = Some(po);
    }

    /// The descriptor at `idx` of the descriptor list, which refers only to
    /// earlier ones.
    fn descriptor_at(&self, idx: usize) -> (d: Descriptor)
        requires
            self.inv(),
            idx < self.config@.descriptors.len(),
        ensures
            d == self.config@.descriptors[idx as int],
            desc_ok(d, self.config@.layers.len() as int, self.config@.descriptors.len() as int),
            rank(d) <= idx,
    {
        let d = self.config.descriptors[idx];
        proof {
            let nl = self.config@.layers.len() as int;
            assert(desc_ok(self.config@.descriptors[idx as int], nl, idx as int));
            lemma_desc_ok_rank(d, nl, idx as int, self.config@.descriptors.len() as int);
        }
        d
    }

    /// An overload key with a timeout: on press it becomes the pending
    /// overload, to be resolved into its tap action or its layer.
    fn exec_overload_timeout(&mut self, out: &mut Output, d: Descriptor, code: u8, layer: i32, pressed: u8, time: i64)
        requires
            old(self).inv(),
            d.op == Op::OverloadTimeout || d.op == Op::OverloadTimeoutTap,
            desc_ok(d, old(self).config@.layers.len() as int, old(self).config@.descriptors.len() as int),
            0 <= layer < old(self).config@.layers.len(),
            i32_range(time),
        ensures
            pressed == 0 ==> *final(self) == *old(self) && *final(out) == *old(out),
            progress(*old(self), *old(out), *final(self), *final(out), rank(d)),
            final(self).keystate@ == old(self).keystate@,
            final(self).layer_state@ == old(self).layer_state@,
            pressed != 0 && d.data is OverloadTo ==> press_effect(
                d,
                code,
                layer as int,
                time,
                *old(self),
                Keyboard { last_pressed_code: code, ..*final(self) },
            ),
            final(self).cache@ == old(self).cache@,
    {
        let ghost k0 = *self;
        let ghost o0 = *out;
        proof {
            lemma_progress_refl(k0, o0);
        }
        match d.data {
            DescriptorData::OverloadTo(ov) => {
                if pressed != 0 {
                    let action1 = self.descriptor_at(ov.action_idx);
                    let action2 = Descriptor { op: Op::Layer, data: DescriptorData::Layer(DescLayer { idx: ov.layer_idx }) };
                    let expiration = time + ov.timeout as i64;
                    let roi: u8 = if d.op == Op::OverloadTimeoutTap {
                        1
                    } else {
                        0
                    };
                    assert(layer < MAX_LAYERS);
                    let po = OverloadState {
                        code,
                        dl: layer as u8,
                        expiration,
                        resolve_on_interrupt: roi,
                        queue: Vec::new(),
                        action1,
                        action2,
                    };
                    self.start_pending(po);
                    let ghost k1 = *self;
                    self.schedule_timeout(expiration);
                    proof {
                        lemma_emitted_refl(o0, k0.keystate@);
                        assert(progress(k0, o0, k1, o0, rank(d)));
                        lemma_progress_fields(k1, *self, o0);
                        lemma_progress_trans(k0, o0, k1, o0, *self, *out, rank(d), 0);
                    }
                }
            },
            _ => {},
        }
        proof {
            lemma_progress_mono(k0, o0, k0, o0, 0, rank(d));
        }
    }
}

impl Keyboard {
    /// An overload key: on press its layer becomes active; on release the
    /// layer is left and, when the key was tapped (it is still the last key
    /// pressed, and it was released within the tap timeout when there is
    /// one), its tap action is pressed and released.
    fn exec_overload(&mut self, out: &mut Output, d: Descriptor, code: u8, layer: i32, pressed: u8, time: i64)
        requires
            old(self).inv(),
            d.op == Op::Overload,
            desc_ok(d, old(self).config@.layers.len() as int, old(self).config@.descriptors.len() as int),
            0 <= layer < old(self).config@.layers.len(),
            i32_range(time),
        ensures
            progress(*old(self), *old(out), *final(self), *final(out), rank(d)),
            pressed == 0 ==> release_output(d, code, time, *old(self), *old(out), *final(out)),
            pressed != 0 ==> match d.data {
                DescriptorData::Overload(ov) => {
                    &&& final(self).layer_state@[ov.layer_idx as int].active == sat_inc(
                        old(self).layer_state@[ov.layer_idx as int].active,
                    )
                    &&& final(self).keystate@.len() == 256
                },
                _ => true,
            },
            pressed != 0 ==> final(self).last_pressed_code == old(self).last_pressed_code,
            pressed == 0 ==> final(self).last_pressed_code == old(self).last_pressed_code,
            pressed == 0 && !overload_tap(*old(self), code, time) ==> match d.data {
                DescriptorData::Overload(ov) => final(self).layer_state@[ov.layer_idx as int].active == sat_dec(
                    old(self).layer_state@[ov.layer_idx as int].active,
                ),
                _ => true,
            },
            d.data is Overload && (pressed != 0 || !overload_tap(*old(self), code, time)) ==> {
                &&& final(self).last_pressed_code == old(self).last_pressed_code
                &&& final(self).keystate_view() == with_mods_keys(
                    old(self).keystate_view(),
                    layer_mods_from(*final(self), -1i32, 0, 0),
                    NR_MODIFIERS as int,
                )
                &&& mods_only(*old(out), *final(out), old(self).keystate_view(), final(self).keystate_view())
            },
            pressed != 0 ==> keeps_entries(old(self).cache@, final(self).cache@),
            pressed != 0 ==> final(self).pending_overload == old(self).pending_overload,
        decreases rank(d), 0nat,
    {
        proof {
            lemma_keeps_entries_refl(self.cache@);
        }
        let ghost k0 = *self;
        let ghost o0 = *out;
        let ghost r = rank(d);
        proof {
            lemma_progress_refl(k0, o0);
            lemma_progress_mono(k0, o0, k0, o0, 0, r);
        }
        match d.data {
            DescriptorData::Overload(ov) => {
                let layer_idx = ov.layer_idx as usize;
                let action = self.descriptor_at(ov.action_idx);
                if pressed != 0 {
                    self.note_overload_start(time);
                    proof {
                        lemma_progress_fields(k0, *self, o0);
                        lemma_progress_trans(k0, o0, k0, o0, *self, o0, r, 0);
                    }
                    let ghost k1 = *self;
                    self.activate_layer(out, code, layer_idx, time);
                    proof {
                        lemma_progress_trans(k0, o0, k1, o0, *self, *out, r, 0);
                    }
                    let ghost k2 = *self;
                    let ghost o2 = *out;
                    self.update_mods(out, -1, 0);
                    proof {
                        lemma_progress_trans(k0, o0, k2, o2, *self, *out, r, 0);
                        assert(layer_states(*self) == layer_states(k2));
                        lemma_layer_mods_same(k2, *self, -1i32, 0, 0);
                        assert(k1.cache@ == k0.cache@);
                        assert(self.cache@ == k2.cache@);
                    }
                } else {
                    self.deactivate_layer(out, layer_idx);
                    proof {
                        lemma_progress_trans(k0, o0, k0, o0, *self, *out, r, 0);
                    }
                    let ghost k2 = *self;
                    let ghost o2 = *out;
                    self.update_mods(out, -1, 0);
                    proof {
                        lemma_progress_trans(k0, o0, k2, o2, *self, *out, r, 0);
                        assert(layer_states(*self) == layer_states(k2));
                        lemma_layer_mods_same(k2, *self, -1i32, 0, 0);
                    }
                    let tap_timeout = self.config.overload_tap_timeout;
                    let is_tap = self.last_pressed_code == code && (tap_timeout == 0 || (time
                        - self.overload_start_time) < tap_timeout);
                    assert(is_tap == overload_tap(k0, code, time));
                    if is_tap {
                        let ghost k3 = *self;
                        let ghost o3 = *out;
                        self.execute_descriptor(out, action, code, layer, 1, time);
                        proof {
                            lemma_progress_trans(k0, o0, k3, o3, *self, *out, r, rank(action));
                        }
                        let ghost k4 = *self;
                        let ghost o4 = *out;
                        self.execute_descriptor(out, action, code, layer, 0, time);
                        proof {
                            lemma_progress_trans(k0, o0, k4, o4, *self, *out, r, rank(action));
                            lemma_press_output_keep(action, code, o3, o4, *out, k4.keystate@, self.keystate@);
                            lemma_press_output_widen(action, code, o0, o3, *out);
                        }
                    }
                }
            },
            _ => {},
        }
    }

    /// An overload on idleness: on press, the first action when a simple key
    /// was pressed less than the timeout ago, the second one otherwise; the
    /// release of the key undoes the action chosen.
    fn exec_overload_idle(&mut self, out: &mut Output, d: Descriptor, code: u8, layer: i32, pressed: u8, time: i64)
        requires
            old(self).inv(),
            d.op == Op::OverloadIdleTimeout,
            desc_ok(d, old(self).config@.layers.len() as int, old(self).config@.descriptors.len() as int),
            0 <= layer < old(self).config@.layers.len(),
            i32_range(time),
        ensures
            pressed == 0 ==> *final(self) == *old(self) && *final(out) == *old(out),
            progress(*old(self), *old(out), *final(self), *final(out), rank(d)),
            pressed != 0 ==> match d.data {
                DescriptorData::OverloadIdle(ov) => {
                    let a = idle_choice(*old(self), ov, time);
                    a.op == Op::KeySequence && sendable(sent_key(a, code)) ==> final(self).keystate@[sent_key(
                        a,
                        code,
                    ) as int] == 1
                },
                _ => true,
            },
        decreases rank(d), 0nat,
    {
        let ghost k0 = *self;
        let ghost o0 = *out;
        let ghost r = rank(d);
        proof {
            lemma_progress_refl(k0, o0);
            lemma_progress_mono(k0, o0, k0, o0, 0, r);
        }
        match d.data {
            DescriptorData::OverloadIdle(ov) => {
                if pressed != 0 {
                    let idle = time - self.last_simple_key_time;
                    let action = if idle >= ov.timeout as i64 {
                        self.descriptor_at(ov.action2_idx)
                    } else {
                        self.descriptor_at(ov.action1_idx)
                    };
                    self.execute_descriptor(out, action, code, layer, 1, time);
                    proof {
                        lemma_progress_trans(k0, o0, k0, o0, *self, *out, r, rank(action));
                    }
                    let ghost k1 = *self;
                    self.set_entry_desc(code, action);
                    proof {
                        lemma_progress_fields(k1, *self, *out);
                        lemma_progress_trans(k0, o0, k1, *out, *self, *out, r, 0);
                    }
                }
            },
            _ => {},
        }
    }

    /// Executes descriptor `d` for key `code` going down (`pressed` = 1) or
    /// up, `layer` being the layer that decided what the key does.
    fn execute_descriptor(&mut self, out: &mut Output, d: Descriptor, code: u8, layer: i32, pressed: u8, time: i64)
        requires
            old(self).inv(),
            desc_ok(d, old(self).config@.layers.len() as int, old(self).config@.descriptors.len() as int),
            0 <= layer < old(self).config@.layers.len(),
            i32_range(time),
        ensures
            progress(*old(self), *old(out), *final(self), *final(out), rank(d)),
            pressed != 0 ==> press_effect(d, code, layer as int, time, *old(self), *final(self)),
            pressed == 0 ==> release_effect(d, code, *old(self), *final(self)),
            pressed != 0 ==> press_output(d, code, *old(out), *final(out)),
            pressed == 0 ==> release_output(d, code, time, *old(self), *old(out), *final(out)),
            pressed != 0 ==> press_events(d, code, layer as int, *old(self), *final(self), *old(out), *final(out)),
            pressed != 0 && entry_kept_op(d.op) ==> keeps_entries(old(self).cache@, final(self).cache@),
            pressed == 0 ==> release_events(d, code, time, *old(self), *final(self), *old(out), *final(out)),
            final(self).last_pressed_code == if pressed != 0 {
                code
            } else {
                old(self).last_pressed_code
            },
            pressed != 0 && entry_kept_op(d.op) && d.op != Op::OverloadTimeout && d.op != Op::OverloadTimeoutTap ==> final(self).pending_overload == old(self).pending_overload,
        decreases rank(d), if d.op == Op::Repeat {
            2nat
        } else {
            1nat
        },
    {
        proof {
            lemma_keeps_entries_refl(self.cache@);
        }
        let ghost k0 = *self;
        let ghost o0 = *out;
        let ghost r = rank(d);
        proof {
            lemma_progress_refl(k0, o0);
            lemma_progress_mono(k0, o0, k0, o0, 0, r);
        }
        match d.op {
            Op::KeySequence => {
                self.exec_key_sequence(out, d, code, layer, pressed, time);
            },
            Op::Layer | Op::LayerM => {
                let target: Option<usize> = match d.data {
                    DescriptorData::Layer(l) => Some(l.idx as usize),
                    DescriptorData::LayerMacro(lm) => Some(lm.idx as usize),
                    _ => None,
                };
                if let Some(idx) = target {
                    self.exec_layer(out, code, idx, pressed, time);
                }
            },
            Op::Layout => {
                if pressed != 0 {
                    if let DescriptorData::Layer(l) = d.data {
                        self.setlayout(out, l.idx as usize);
                    }
                }
            },
            Op::Toggle | Op::ToggleM => {
                let target: Option<usize> = match d.data {
                    DescriptorData::Layer(l) => Some(l.idx as usize),
                    DescriptorData::LayerMacro(lm) => Some(lm.idx as usize),
                    _ => None,
                };
                if let Some(idx) = target {
                    self.exec_toggle(out, code, idx, pressed, time);
                }
            },
            Op::Swap | Op::SwapM => {
                let target: Option<usize> = match d.data {
                    DescriptorData::Layer(l) => Some(l.idx as usize),
                    DescriptorData::LayerMacro(lm) => Some(lm.idx as usize),
                    _ => None,
                };
                if let Some(idx) = target {
                    self.exec_swap(out, idx, layer as usize, pressed, time);
                }
            },
            Op::Clear | Op::ClearM => {
                if pressed != 0 {
                    self.clear(out);
                }
            },
            Op::Repeat => {
                if pressed != 0 {
                    let ra = self.last_repeatable_action;
                    self.execute_descriptor(out, ra, code, layer, 1, time);
                    let ghost k1 = *self;
                    self.set_entry_desc(code, ra);
                    proof {
                        lemma_progress_fields(k1, *self, *out);
                        lemma_progress_trans(k0, o0, k1, *out, *self, *out, r, 0);
                    }
                }
            },
            Op::Overload => {
                self.exec_overload(out, d, code, layer, pressed, time);
            },
            Op::OverloadTimeout | Op::OverloadTimeoutTap => {
                self.exec_overload_timeout(out, d, code, layer, pressed, time);
            },
            Op::OverloadIdleTimeout => {
                self.exec_overload_idle(out, d, code, layer, pressed, time);
            },
            _ => {
                // Operations the keyboard does not perform let the key pass
                // through.
                if pressed != 0 {
                    self.send_key(out, code, 1);
                    proof {
                        if sendable(code) && k0.keystate@[code as int] == 0 {
                            assert(new_events(o0, *out) =~= seq![key_event(code, 1)]);
                        } else {
                            assert(k0.keystate@[code as int] <= 1);
                            assert(new_events(o0, *out) =~= Seq::<KeyEvent>::empty());
                        }
                    }
                } else {
                    self.send_key(out, code, 0);
                }
            },
        }
        if pressed != 0 {
            let ghost k1 = *self;
            let ghost o1 = *out;
            self.note_press(code);
            proof {
                lemma_progress_fields(k1, *self, o1);
                lemma_progress_trans(k0, o0, k1, o1, *self, *out, r, 0);
                assert(layer_states(*self) == layer_states(k1));
                assert(self.config_view() == k1.config_view());
                lemma_layer_mods_same(k1, *self, -1i32, 0, 0);
                assert(self.keystate_view() == k1.keystate_view());
            }
        }
    }
}

/// Number of events the pending overload holds back.
spec fn qlen(k: Keyboard) -> int {
    match k.pending_overload {
        Some(p) => p.queue@.len() as int,
        None => 0,
    }
}

/// Processing `extra` more events from `k` stays within the budget `f`, `r`:
/// what the pending overload holds back and those events number at most `f`,
/// and when they number `f` exactly the tap action of the pending overload
/// ranks below `r`. Every replay of held-back events spends the budget.
spec fn within(k: Keyboard, extra: int, f: int, r: int) -> bool {
    &&& extra + qlen(k) <= f
    &&& (extra + qlen(k) == f ==> match k.pending_overload {
        Some(p) => rank(p.action1) < r,
        None => true,
    })
}

/// Progress that may also replace the pending overload in any way.
spec fn run(k0: Keyboard, o0: Output, k1: Keyboard, o1: Output) -> bool {
    &&& k1.inv()
    &&& k1.config == k0.config
    &&& emitted(o0, o1, k0.keystate@, k1.keystate@)
}

proof fn lemma_run_trans(k0: Keyboard, o0: Output, k1: Keyboard, o1: Output, k2: Keyboard, o2: Output)
    requires
        run(k0, o0, k1, o1),
        run(k1, o1, k2, o2),
    ensures
        run(k0, o0, k2, o2),
{
    lemma_emitted_trans(o0, o1, o2, k0.keystate@, k1.keystate@, k2.keystate@);
}

/// The queue `q` holds an event of key `code`.
pub open spec fn queue_has(q: Seq<KeyEvent>, code: u8) -> bool {
    exists|j: int| 0 <= j < q.len() && (#[trigger] q[j]).code == code
}

/// Exec form of `queue_has`.
fn queue_has_code(q: &Vec<KeyEvent>, code: u8) -> (r: bool)
    ensures
        r == queue_has(q@, code),
{
    let mut i: usize = 0;
    while i < q.len()
        invariant
            i <= q@.len(),
            forall|j: int| 0 <= j < i ==> (#[trigger] q@[j]).code != code,
        decreases q.len() - i,
    {
        if q[i].code == code {
            return true;
        }
        i = i + 1;
    }
    false
}

impl Keyboard {
    /// No overload is pending.
    pub closed spec fn no_pending(&self) -> bool {
        self.pending_overload is None
    }

    /// The pending overload, if any.
    pub closed spec fn pending(&self) -> Option<OverloadState> {
        self.pending_overload
    }

    /// The deadlines ahead (timer ticks are due at these times).
    pub closed spec fn deadlines(&self) -> Seq<i64> {
        self.timeouts@
    }

    /// The cache entry of held key `code`, if the key is held: the descriptor
    /// its release undoes, and the layers of the press.
    pub closed spec fn held(&self, code: u8) -> Option<CacheEntry> {
        match cache_slot(*self, code) {
            Some(i) => self.cache@[i],
            None => None,
        }
    }
}

/// The event leaves the virtual keyboard, the output, the layers and the
/// held keys as they were.
pub open spec fn ignored(k0: Keyboard, o0: Output, k1: Keyboard, o1: Output) -> bool {
    &&& k1.keystate_view() == k0.keystate_view()
    &&& o1.events@ == o0.events@
    &&& o1.layer_changes@ == o0.layer_changes@
    &&& layer_states(k1) == layer_states(k0)
    &&& forall|c: u8| #[trigger] k1.held(c) == k0.held(c)
    &&& free_slots(k1) == free_slots(k0)
}

/// What the event of key `code` (down when `pressed` is not 0) does from
/// `k0`, `o0`, when no overload is pending: the press of a key not held
/// performs what the key does in the active layers (`resolve_spec`, see
/// `press_effect`, `press_output` and `press_events`); the release of a held
/// key undoes what its entry records (see `release_effect`,
/// `release_output` and `release_events`); the press of a held key, the
/// release of a key not held and a timer tick (code 0) are ignored.
pub open spec fn event_effect(k0: Keyboard, o0: Output, k1: Keyboard, o1: Output, code: u8, pressed: u8, time: i64) -> bool {
    k0.no_pending() ==> if code == 0 {
        ignored(k0, o0, k1, o1)
    } else if pressed != 0 {
        match k0.held(code) {
            None => {
                let (d, layer) = resolve_spec(k0, code as int);
                &&& press_effect(d, code, layer as int, time, k0, k1)
                &&& press_output(d, code, o0, o1)
                &&& press_events(d, code, layer as int, k0, k1, o0, o1)
                &&& (free_slots(k0) > 0 ==> press_holds(d, code, layer as int, k0, k1))
            },
            Some(_) => ignored(k0, o0, k1, o1),
        }
    } else {
        match k0.held(code) {
            Some(e) => {
                &&& release_effect(e.d, code, k0, k1)
                &&& release_output(e.d, code, time, k0, o0, o1)
                &&& release_events(e.d, code, time, k0, k1, o0, o1)
                &&& k1.held(code) is None
                &&& free_slots(k1) == free_slots(k0) + 1
            },
            None => ignored(k0, o0, k1, o1),
        }
    }
}

/// The pending overload `p` holds the event of key `code` back: the event is
/// a timer tick or a press, or the release of a key that `p` is about (its
/// own key, or a key whose event it holds back).
pub open spec fn holds_back(p: OverloadState, code: u8, pressed: u8) -> bool {
    !(code != 0 && pressed == 0 && !(code == p.code || queue_has(p.queue@, code)))
}

/// How the pending overload `p` resolves on the event of key `code` at
/// `time`: into its hold action when its time is up, into its tap action on
/// the release of its key, into its hold action on any release when it
/// resolves on interruption; otherwise it stays undecided.
pub open spec fn resolution(p: OverloadState, code: u8, pressed: u8, time: i64) -> Option<Descriptor> {
    if time >= p.expiration {
        Some(p.action2)
    } else if code == p.code && pressed == 0 {
        Some(p.action1)
    } else if p.resolve_on_interrupt != 0 && pressed == 0 {
        Some(p.action2)
    } else {
        None
    }
}

/// The queue of `p` after it holds back the event of key `code`: a key
/// event joins it while it has room; a timer tick never does.
pub open spec fn queued(p: OverloadState, code: u8, pressed: u8, time: i64) -> Seq<KeyEvent> {
    if code != 0 && p.queue@.len() < OVERLOAD_QUEUE_SIZE {
        p.queue@.push(KeyEvent { code, pressed, timestamp: time as i32 })
    } else {
        p.queue@
    }
}

/// While an overload is pending and the event leaves it undecided, the event
/// is held back: the virtual keyboard, the output and the layers do not
/// change, and the overload stays pending with the event in its queue.
pub open spec fn hold_back_effect(k0: Keyboard, o0: Output, k1: Keyboard, o1: Output, code: u8, pressed: u8, time: i64) -> bool {
    match k0.pending() {
        Some(p) => holds_back(p, code, pressed) && resolution(p, code, pressed, time) is None ==> {
            &&& k1.keystate_view() == k0.keystate_view()
            &&& o1.events@ == o0.events@
            &&& o1.layer_changes@ == o0.layer_changes@
            &&& layer_states(k1) == layer_states(k0)
            &&& match k1.pending() {
                Some(p1) => p1.code == p.code && p1.expiration == p.expiration && p1.action1 == p.action1
                    && p1.action2 == p.action2 && p1.dl == p.dl && p1.resolve_on_interrupt == p.resolve_on_interrupt
                    && p1.queue@ == queued(p, code, pressed, time),
                None => false,
            }
        },
        None => true,
    }
}

/// Law: what the keyboard invariant promises: the configuration can be run,
/// every key of the virtual keyboard is up (0) or down (1), a held key's
/// entry is about that key and refers only to existing layers and
/// descriptors, and a pending overload holds back at most
/// `OVERLOAD_QUEUE_SIZE` events.
pub proof fn lemma_inv_facts(k: Keyboard, code: u8)
    requires
        k.inv(),
    ensures
        kbd_config_ok(k.config_view()),
        k.keystate_view().len() == 256,
        forall|c: int| 0 <= c < 256 ==> #[trigger] k.keystate_view()[c] <= 1,
        k.held(code) matches Some(e) ==> e.code == code && entry_ok(
            e,
            k.config_view().layers.len() as int,
            k.config_view().descriptors.len() as int,
        ),
        k.pending() matches Some(p) ==> p.queue@.len() <= OVERLOAD_QUEUE_SIZE,
{
    if let Some(i) = cache_slot(k, code) {
        assert(slot_holds(k.cache@[i], code));
        let nl = k.config@.layers.len() as int;
        let nd = k.config@.descriptors.len() as int;
        assert(match k.cache@[i] {
            Some(e) => 0 <= e.layer < nl && 0 <= e.dl < nl && desc_ok(e.d, nl, nd),
            None => true,
        });
    }
}

/// When the event of key `code` at `time` resolves the pending overload
/// into action `a`, `a` is pressed for the overload's key, as decided by the
/// layer recorded with it (see `press_effect`, `press_output` and
/// `press_events`), before the held-back events are replayed from there to
/// `k1`, `o1`.
pub open spec fn resolve_effect(k0: Keyboard, o0: Output, k1: Keyboard, o1: Output, code: u8, pressed: u8, time: i64) -> bool {
    match k0.pending() {
        Some(p) => holds_back(p, code, pressed) ==> match resolution(p, code, pressed, time) {
            Some(a) => {
                &&& press_output(a, p.code, o0, o1)
                &&& exists|km: Keyboard, om: Output|
                    {
                        &&& press_effect(a, p.code, p.dl as int, time, k0, km)
                        &&& #[trigger] press_events(a, p.code, p.dl as int, k0, km, o0, om)
                        &&& emitted(om, o1, km.keystate_view(), k1.keystate_view())
                    }
            },
            None => true,
        },
        None => true,
    }
}

/// The number of free slots of the cache `c`.
pub open spec fn count_free(c: Seq<Option<CacheEntry>>) -> nat
    decreases c.len(),
{
    if c.len() == 0 {
        0
    } else {
        count_free(c.drop_last()) + if c.last() is None {
            1nat
        } else {
            0nat
        }
    }
}

/// How many more keys can be held at once (the free slots of the cache of
/// held keys).
pub closed spec fn free_slots(k: Keyboard) -> nat {
    count_free(k.cache@)
}

proof fn lemma_count_free_update(c: Seq<Option<CacheEntry>>, s: int, v: Option<CacheEntry>)
    requires
        0 <= s < c.len(),
    ensures
        count_free(c.update(s, v)) + (if c[s] is None { 1int } else { 0int }) == count_free(c) + (if v is None {
            1int
        } else {
            0int
        }),
    decreases c.len(),
{
    let c1 = c.update(s, v);
    if s == c.len() - 1 {
        assert(c1.drop_last() =~= c.drop_last());
    } else {
        assert(c1.drop_last() =~= c.drop_last().update(s, v));
        lemma_count_free_update(c.drop_last(), s, v);
    }
}

proof fn lemma_count_free_same(c0: Seq<Option<CacheEntry>>, c1: Seq<Option<CacheEntry>>)
    requires
        same_slots(c0, c1),
    ensures
        count_free(c0) == count_free(c1),
    decreases c0.len(),
{
    reveal(same_slots);
    if c0.len() > 0 {
        let a = c0.drop_last();
        let b = c1.drop_last();
        assert forall|i: int| 0 <= i < a.len() implies match (#[trigger] b[i], a[i]) {
            (Some(x), Some(y)) => x.code == y.code,
            (None, None) => true,
            _ => false,
        } by {
            assert(b[i] == c1[i] && a[i] == c0[i]);
        }
        assert(same_slots(a, b));
        lemma_count_free_same(a, b);
        assert(match (c1[c0.len() - 1], c0[c0.len() - 1]) {
            (Some(x), Some(y)) => x.code == y.code,
            (None, None) => true,
            _ => false,
        });
    }
}

proof fn lemma_count_free_pos(c: Seq<Option<CacheEntry>>)
    requires
        count_free(c) > 0,
    ensures
        exists|i: int| 0 <= i < c.len() && #[trigger] c[i] is None,
    decreases c.len(),
{
    if c.last() is None {
        assert(c[c.len() - 1] is None);
    } else {
        lemma_count_free_pos(c.drop_last());
        let i = choose|i: int| 0 <= i < c.drop_last().len() && #[trigger] c.drop_last()[i] is None;
        assert(c[i] is None);
    }
}

proof fn lemma_count_free_empty(c: Seq<Option<CacheEntry>>)
    requires
        forall|i: int| 0 <= i < c.len() ==> #[trigger] c[i] is None,
    ensures
        count_free(c) == c.len(),
    decreases c.len(),
{
    if c.len() > 0 {
        assert(c[c.len() - 1] is None);
        lemma_count_free_empty(c.drop_last());
    }
}

/// The press of key `code`, which `d` performs as decided by layer `layer`,
/// takes a free slot of the cache for the key, from `k0` to `k`: the key is
/// held, with `d` and `layer` recorded when the press does not change held
/// entries itself (see `entry_kept_op`).
pub open spec fn press_holds(d: Descriptor, code: u8, layer: int, k0: Keyboard, k: Keyboard) -> bool {
    &&& free_slots(k) + 1 == free_slots(k0)
    &&& k.held(code) matches Some(e) && (entry_kept_op(d.op) ==> e.d == d && e.dl == layer)
}

/// The entry in slot `s` of `k1` is the held entry of its key in `k` when
/// the slots are the same.
proof fn lemma_entry_kept(k1: Keyboard, k: Keyboard, s: int, e: CacheEntry, kept: bool)
    requires
        k.inv(),
        0 <= s < CACHE_SIZE,
        k1.cache@[s] == Some(e),
        same_slots(k1.cache@, k.cache@),
        kept ==> keeps_entries(k1.cache@, k.cache@),
    ensures
        k.held(e.code) matches Some(f) && (kept ==> f.d == e.d && f.dl == e.dl),
        free_slots(k) == free_slots(k1),
{
    reveal(same_slots);
    reveal(keeps_entries);
    lemma_count_free_same(k1.cache@, k.cache@);
    assert(match (k.cache@[s], k1.cache@[s]) {
        (Some(a), Some(b)) => a.code == b.code,
        (None, None) => true,
        _ => false,
    });
    if kept {
        assert(match (k.cache@[s], k1.cache@[s]) {
            (Some(a), Some(b)) => a.code == b.code && a.d == b.d && a.dl == b.dl,
            (None, None) => true,
            _ => false,
        });
    }
    let f = k.cache@[s]->0;
    lemma_held(k, s, f, e.code);
}

/// A key no slot holds stays unheld when the slots stay the same.
proof fn lemma_released_gone(k1: Keyboard, k: Keyboard, code: u8)
    requires
        forall|i: int| 0 <= i < CACHE_SIZE ==> !slot_holds(#[trigger] k1.cache@[i], code),
        same_slots(k1.cache@, k.cache@),
        k1.cache@.len() == CACHE_SIZE,
    ensures
        k.held(code) is None,
        free_slots(k) == free_slots(k1),
{
    reveal(same_slots);
    lemma_count_free_same(k1.cache@, k.cache@);
    assert forall|i: int| 0 <= i < CACHE_SIZE implies !slot_holds(#[trigger] k.cache@[i], code) by {
        assert(!slot_holds(k1.cache@[i], code));
        assert(match (k.cache@[i], k1.cache@[i]) {
            (Some(a), Some(b)) => a.code == b.code,
            (None, None) => true,
            _ => false,
        });
    }
}

/// A slot holding entry `e` of key `code` is the one `held` finds.
proof fn lemma_held(k: Keyboard, i: int, e: CacheEntry, code: u8)
    requires
        k.inv(),
        0 <= i < CACHE_SIZE,
        k.cache@[i] == Some(e),
        e.code == code,
    ensures
        k.held(code) == Some(e),
{
    assert(slot_holds(k.cache@[i], code));
    let j = cache_slot(k, code).unwrap();
    if j != i {
        lemma_slot_unique(k, i, j, code);
    }
}

/// One step of processing events: a key event, or a timer tick (`tick`,
/// with code 0) at `time`.
pub struct Step {
    pub code: u8,
    pub pressed: u8,
    pub time: i64,
    pub tick: bool,
}

/// The step `st` from `k0`, `o0` to `k1`, `o1` has the effects promised for
/// one event (see `event_effect`, `hold_back_effect` and `resolve_effect`).
pub open spec fn step_effect(k0: Keyboard, o0: Output, k1: Keyboard, o1: Output, st: Step) -> bool {
    &&& event_effect(k0, o0, k1, o1, st.code, st.pressed, st.time)
    &&& hold_back_effect(k0, o0, k1, o1, st.code, st.pressed, st.time)
    &&& resolve_effect(k0, o0, k1, o1, st.code, st.pressed, st.time)
    &&& (st.tick ==> st.code == 0 && st.pressed == 0)
}

/// The key events among `steps` (code, pressed, time), in order.
pub open spec fn inputs(steps: Seq<Step>) -> Seq<(u8, u8, i64)>
    decreases steps.len(),
{
    if steps.len() == 0 {
        Seq::empty()
    } else {
        let r = inputs(steps.drop_last());
        let st = steps.last();
        if st.tick {
            r
        } else {
            r.push((st.code, st.pressed, st.time))
        }
    }
}

/// Events `evs` as (code, pressed, time).
pub open spec fn as_inputs(evs: Seq<KeyEvent>) -> Seq<(u8, u8, i64)> {
    evs.map_values(|e: KeyEvent| (e.code, e.pressed, e.timestamp as i64))
}

/// When step `j` of `steps` falls, `ks[j]` being the state before it: a
/// timer tick comes only after an earlier step, when the earliest deadline
/// ahead of that step's time (see `time_to_next`) is due, and at that
/// deadline; a key event comes before any such deadline is due (a deadline
/// due at the event's own time fires first).
pub open spec fn step_timing(ks: Seq<Keyboard>, steps: Seq<Step>, j: int) -> bool {
    let due = if j > 0 {
        time_to_next(ks[j].deadlines(), steps[j - 1].time)
    } else {
        0
    };
    if steps[j].tick {
        &&& j > 0
        &&& due > 0
        &&& steps[j].time == steps[j - 1].time + due
    } else {
        !(due > 0 && steps[j - 1].time + due <= steps[j].time)
    }
}

/// The states `ks` and outputs `os` are a run through `steps`: each state
/// keeps the invariant; from each state and output to the next, the step has
/// its effects and falls when `step_timing` says; and a timer tick is never
/// later than the step after it.
pub open spec fn run_of(ks: Seq<Keyboard>, os: Seq<Output>, steps: Seq<Step>) -> bool {
    &&& ks.len() == steps.len() + 1
    &&& os.len() == steps.len() + 1
    &&& forall|j: int| 0 <= j < ks.len() ==> (#[trigger] ks[j]).inv()
    &&& forall|j: int|
        0 <= j < steps.len() ==> step_effect(ks[j], os[j], ks[j + 1], os[j + 1], #[trigger] steps[j])
            && step_timing(ks, steps, j)
    &&& forall|j: int| 0 < j < steps.len() && (#[trigger] steps[j - 1]).tick ==> steps[j - 1].time <= steps[j].time
}

/// Processing from `k0`, `o0` to `k1`, `o1` is a run through steps whose key
/// events are `evs`, in order, with timer ticks between them (the last step
/// is a key event); `t` is the time from the last step to the earliest
/// deadline ahead (0 without steps).
pub open spec fn processed(k0: Keyboard, o0: Output, k1: Keyboard, o1: Output, evs: Seq<KeyEvent>, t: i64) -> bool {
    exists|ks: Seq<Keyboard>, os: Seq<Output>, steps: Seq<Step>|
        #[trigger] run_of(ks, os, steps) && ks[0] == k0 && os[0] == o0 && ks.last() == k1 && os.last() == o1 && inputs(
            steps,
        ) == as_inputs(evs) && (steps.len() > 0 ==> !steps.last().tick) && t == (if steps.len() == 0 {
            0
        } else {
            time_to_next(k1.deadlines(), steps.last().time)
        })
}

proof fn lemma_run_push(ks: Seq<Keyboard>, os: Seq<Output>, steps: Seq<Step>, k: Keyboard, o: Output, st: Step)
    requires
        run_of(ks, os, steps),
        k.inv(),
        step_effect(ks.last(), os.last(), k, o, st),
        step_timing(ks.push(k), steps.push(st), steps.len() as int),
        steps.len() > 0 && steps.last().tick ==> steps.last().time <= st.time,
    ensures
        run_of(ks.push(k), os.push(o), steps.push(st)),
        inputs(steps.push(st)) == if st.tick {
            inputs(steps)
        } else {
            inputs(steps).push((st.code, st.pressed, st.time))
        },
{
    assert(steps.push(st).drop_last() =~= steps);
    let ks2 = ks.push(k);
    let os2 = os.push(o);
    let st2 = steps.push(st);
    assert forall|j: int| 0 <= j < ks2.len() implies (#[trigger] ks2[j]).inv() by {
        if j < ks.len() {
            assert(ks[j].inv());
        }
    }
    assert forall|j: int| 0 <= j < st2.len() implies step_effect(ks2[j], os2[j], ks2[j + 1], os2[j + 1], #[trigger] st2[j])
        && step_timing(ks2, st2, j) by {
        if j < steps.len() {
            assert(step_effect(ks[j], os[j], ks[j + 1], os[j + 1], steps[j]) && step_timing(ks, steps, j));
            assert(ks2[j] == ks[j]);
            if j > 0 {
                assert(st2[j - 1] == steps[j - 1]);
            }
        }
    }
    assert forall|j: int| 0 < j < st2.len() && (#[trigger] st2[j - 1]).tick implies st2[j - 1].time <= st2[j].time by {
        if j < steps.len() {
            assert(steps[j - 1].tick ==> steps[j - 1].time <= steps[j].time);
        }
    }
}

impl Keyboard {
    /// Takes the pending overload away.
    fn take_pending(&mut self) -> (po: Option<OverloadState>)
        requires
            old(self).inv(),
        ensures
            final(self).inv(),
            po == old(self).pending_overload,
            *final(self) == (Keyboard { pending_overload: None, ..*old(self) }),
    {
        self.pending_overload.take()
    }

    /// Feeds an event to the pending overload, if there is one. An event it
    /// does not hold back (there is no pending overload, or the event is the
    /// release of a key pressed before it) is not consumed: false, and
    /// nothing changed. Otherwise the event joins its queue (when there is
    /// room; a timer tick, code 0, never does), and the overload resolves
    /// into its hold action when its time is up, into its tap action when
    /// its key is released, and into its hold action on any release when it
    /// resolves on interruption. On resolution the key's cache entry gets the
    /// action, the action is pressed, and the held-back events are replayed.
    #[verifier::rlimit(40)]
    fn handle_pending_overload(
        &mut self,
        out: &mut Output,
        code: u8,
        pressed: u8,
        time: i64,
        Ghost(f): Ghost<int>,
        Ghost(r): Ghost<int>,
    ) -> (consumed: bool)
        requires
            old(self).inv(),
            i32_range(time),
            within(*old(self), if code != 0 { 1 } else { 0 }, f, r),
        ensures
            run(*old(self), *old(out), *final(self), *final(out)),
            within(*final(self), 0, f, r),
            !consumed ==> *final(self) == *old(self) && *final(out) == *old(out),
            old(self).pending_overload is None ==> !consumed,
            old(self).pending_overload matches Some(p) ==> consumed == holds_back(p, code, pressed),
            hold_back_effect(*old(self), *old(out), *final(self), *final(out), code, pressed, time),
            resolve_effect(*old(self), *old(out), *final(self), *final(out), code, pressed, time),
        decreases f, r, 0nat,
    {
        let ghost k0 = *self;
        let ghost o0 = *out;
        proof {
            lemma_emitted_refl(o0, k0.keystate@);
        }
        match &self.pending_overload {
            None => {
                return false;
            },
            Some(po) => {
                if code != 0 && pressed == 0 && !(code == po.code || queue_has_code(&po.queue, code)) {
                    return false;
                }
            },
        }
        let mut po = match self.take_pending() {
            Some(p) => p,
            None => {
                return false;
            },
        };
        if code != 0 && po.queue.len() < OVERLOAD_QUEUE_SIZE {
            po.queue.push(KeyEvent { code, pressed, timestamp: time as i32 });
        }
        let ghost m = po.queue@.len() as int;
        let resolve: Option<Descriptor> = if time >= po.expiration {
            Some(po.action2)
        } else if code == po.code && pressed == 0 {
            Some(po.action1)
        } else if po.resolve_on_interrupt != 0 && pressed == 0 {
            Some(po.action2)
        } else {
            None
        };
        match resolve {
            None => {
                self.start_pending(po);
                proof {
                    lemma_emitted_refl(o0, k0.keystate@);
                }
            },
            Some(action) => {
                let overload_code = po.code;
                let dl = po.dl as i32;
                let ghost k1 = *self;
                self.cache_set(overload_code, Some(CacheEntry { code: overload_code, d: action, dl, layer: 0 }));
                proof {
                    lemma_emitted_refl(o0, k0.keystate@);
                }
                let ghost k2 = *self;
                proof {
                    lemma_same_views(k0, k2);
                }
                self.execute_descriptor(out, action, overload_code, dl, 1, time);
                proof {
                    lemma_run_trans(k0, o0, k2, o0, *self, *out);
                }
                let ghost km = *self;
                let ghost om = *out;
                proof {
                    lemma_emitted_refl(om, km.keystate@);
                }
                if po.queue.len() > 0 {
                    self.process_events_inner(out, po.queue.as_slice(), Ghost(m), Ghost(rank(action) as int));
                    proof {
                        lemma_run_trans(k0, o0, km, om, *self, *out);
                        lemma_press_output_keep(action, overload_code, o0, om, *out, km.keystate@, self.keystate@);
                    }
                }
                proof {
                    assert(press_effect(action, overload_code, dl as int, time, k0, km));
                    assert(press_events(action, overload_code, dl as int, k0, km, o0, om));
                    assert(emitted(om, *out, km.keystate_view(), self.keystate_view()));
                }
            },
        }
        true
    }

    /// Holds key `code`, not held yet, with entry `d`, `layer` in a free
    /// slot of the cache, if there is one.
    fn hold_key(&mut self, code: u8, d: Descriptor, layer: i32) -> (slot: Ghost<int>)
        requires
            old(self).inv(),
            old(self).held(code) is None,
            entry_ok(
                CacheEntry { code, d, dl: layer, layer },
                old(self).config@.layers.len() as int,
                old(self).config@.descriptors.len() as int,
            ),
        ensures
            final(self).inv(),
            same_but_cache(*final(self), *old(self)),
            free_slots(*old(self)) > 0 ==> {
                &&& 0 <= slot@ < CACHE_SIZE
                &&& final(self).cache@[slot@] == Some(CacheEntry { code, d, dl: layer, layer })
                &&& free_slots(*final(self)) + 1 == free_slots(*old(self))
            },
            free_slots(*old(self)) == 0 ==> final(self).cache@ == old(self).cache@,
    {
        let ghost k0 = *self;
        let ent = CacheEntry { code, d, dl: layer, layer };
        proof {
            if count_free(k0.cache@) > 0 {
                lemma_count_free_pos(k0.cache@);
            }
            assert forall|i: int| 0 <= i < CACHE_SIZE implies !slot_holds(#[trigger] k0.cache@[i], code) by {
                if slot_holds(k0.cache@[i], code) {
                    lemma_held(k0, i, k0.cache@[i]->0, code);
                }
            }
        }
        self.cache_set(code, Some(ent));
        let ghost s = choose|s: int| 0 <= s < CACHE_SIZE && #[trigger] changed_only(k0.cache@, self.cache@, s);
        proof {
            if count_free(k0.cache@) > 0 {
                let i = choose|i: int| 0 <= i < CACHE_SIZE && self.cache@[i] == Some(CacheEntry { code, ..ent });
                assert(changed_only(k0.cache@, self.cache@, s));
                if i != s {
                    assert(self.cache@[i] == k0.cache@[i]);
                    assert(slot_holds(k0.cache@[i], code));
                }
                assert(self.cache@ =~= k0.cache@.update(s, Some(ent)));
                assert(k0.cache@[s] is None);
                lemma_count_free_update(k0.cache@, s, Some(ent));
            } else {
                let j = choose|j: int| 0 <= j < CACHE_SIZE && (slot_holds(#[trigger] k0.cache@[j], code) || k0.cache@[j] is None);
                if exists|j: int| 0 <= j < CACHE_SIZE && (slot_holds(#[trigger] k0.cache@[j], code) || k0.cache@[j] is None) {
                    assert(k0.cache@[j] is None);
                    lemma_count_free_update(k0.cache@, j, Some(ent));
                    assert(false);
                }
            }
        }
        Ghost(s)
    }

    /// Lets go of held key `code`: its slot of the cache becomes free.
    fn unhold_key(&mut self, code: u8)
        requires
            old(self).inv(),
            old(self).held(code) is Some,
        ensures
            final(self).inv(),
            same_but_cache(*final(self), *old(self)),
            forall|i: int| 0 <= i < CACHE_SIZE ==> !slot_holds(#[trigger] final(self).cache@[i], code),
            free_slots(*final(self)) == free_slots(*old(self)) + 1,
    {
        let ghost k0 = *self;
        let ghost i0 = cache_slot(k0, code)->0;
        proof {
            assert(slot_holds(k0.cache@[i0], code));
        }
        self.cache_set(code, None);
        proof {
            let s = choose|s: int| 0 <= s < CACHE_SIZE && #[trigger] changed_only(k0.cache@, self.cache@, s) && self.cache@[s] is None;
            assert(changed_only(k0.cache@, self.cache@, s));
            if s != i0 {
                assert(self.cache@[i0] == k0.cache@[i0]);
                assert(false);
            }
            assert(self.cache@ =~= k0.cache@.update(s, None));
            lemma_count_free_update(k0.cache@, s, None);
        }
    }

    /// Processes one event: key `code` going down or up at `time`, or a
    /// timer tick (code 0). A press of a key already held is ignored; a
    /// release of a key not held too. Returns the time until the next
    /// deadline (0 when none).
    #[verifier::rlimit(60)]
    fn handle_event(
        &mut self,
        out: &mut Output,
        code: u8,
        pressed: u8,
        time: i64,
        Ghost(f): Ghost<int>,
        Ghost(r): Ghost<int>,
    ) -> (t: i64)
        requires
            old(self).inv(),
            i32_range(time),
            within(*old(self), if code != 0 { 1 } else { 0 }, f, r),
        ensures
            run(*old(self), *old(out), *final(self), *final(out)),
            within(*final(self), 0, f, r),
            0 <= t,
            t > 0 ==> t + time <= i32::MAX + 65536,
            t == time_to_next(final(self).deadlines(), time),
            event_effect(*old(self), *old(out), *final(self), *final(out), code, pressed, time),
            hold_back_effect(*old(self), *old(out), *final(self), *final(out), code, pressed, time),
            resolve_effect(*old(self), *old(out), *final(self), *final(out), code, pressed, time),
        decreases f, r, 1nat,
    {
        let ghost k0 = *self;
        let ghost o0 = *out;
        if self.handle_pending_overload(out, code, pressed, time, Ghost(f), Ghost(r)) {
            let ghost k1 = *self;
            let t = self.calculate_main_loop_timeout(time);
            proof {
                lemma_emitted_refl(*out, k1.keystate@);
                lemma_run_trans(k0, o0, k1, *out, *self, *out);
            }
            return t;
        }
        proof {
            lemma_emitted_refl(o0, k0.keystate@);
        }
        if code != 0 {
            if pressed != 0 {
                let held = self.cache_get(code);
                if held.is_some() {
                    proof {
                        let e = held.unwrap();
                        let i = choose|i: int| 0 <= i < CACHE_SIZE && self.cache@[i] == Some(e);
                        lemma_held(*self, i, e, code);
                    }
                    let t = self.calculate_main_loop_timeout(time);
                    return t;
                }
                let (d, layer) = self.resolve_descriptor(code);
                let Ghost(slot) = self.hold_key(code, d, layer);
                let ghost k1 = *self;
                proof {
                    lemma_same_views(k0, k1);
                }
                self.execute_descriptor(out, d, code, layer, pressed, time);
                proof {
                    lemma_run_trans(k0, o0, k1, o0, *self, *out);
                    assert(layer_states(k1) == layer_states(k0));
                    assert(k1.config_view() == k0.config_view());
                    assert(forall|i: int| 0 <= i < k0.layer_state@.len() ==> layer_count(k1, i) == layer_count(k0, i));
                    assert(press_effect(d, code, layer as int, time, k0, *self));
                }
                let ghost k2 = *self;
                let t = self.calculate_main_loop_timeout(time);
                proof {
                    lemma_emitted_refl(*out, k2.keystate@);
                    lemma_run_trans(k0, o0, k2, *out, *self, *out);
                    assert(layer_states(*self) == layer_states(k2));
                    assert(self.pending() == k2.pending());
                    assert(self.keystate_view() == k2.keystate_view());
                    lemma_press_effect_frame(d, code, layer as int, time, k0, k2, *self);
                    lemma_same_views(k2, *self);
                    if free_slots(k0) > 0 {
                        assert(self.cache@ == k2.cache@);
                        lemma_entry_kept(k1, *self, slot, CacheEntry { code, d, dl: layer, layer }, entry_kept_op(d.op));
                    }
                }
                return t;
            } else {
                if let Some(entry) = self.cache_get(code) {
                    proof {
                        let i = choose|i: int| 0 <= i < CACHE_SIZE && self.cache@[i] == Some(entry);
                        lemma_held(*self, i, entry, code);
                    }
                    self.unhold_key(code);
                    let ghost k1 = *self;
                    proof {
                        lemma_same_views(k0, k1);
                    }
                    self.execute_descriptor(out, entry.d, code, entry.layer, pressed, time);
                    proof {
                        lemma_run_trans(k0, o0, k1, o0, *self, *out);
                    }
                    let ghost k3 = *self;
                    let ghost o3 = *out;
                    let t = self.calculate_main_loop_timeout(time);
                    proof {
                        lemma_emitted_refl(o3, k3.keystate@);
                        lemma_run_trans(k0, o0, k3, o3, *self, *out);
                        lemma_same_views(k3, *self);
                        lemma_released_gone(k1, *self, code);
                    }
                    return t;
                }
            }
        }
        let ghost k2 = *self;
        let ghost o2 = *out;
        let t = self.calculate_main_loop_timeout(time);
        proof {
            lemma_emitted_refl(o2, k2.keystate@);
            lemma_run_trans(k0, o0, k2, o2, *self, *out);
        }
        t
    }

    /// Processes `events` in order. Before an event, the deadlines it is
    /// past fire first, as timer ticks at their times. Returns the time
    /// until the next deadline after the last event (0 when none).
    fn process_events_inner(&mut self, out: &mut Output, events: &[KeyEvent], Ghost(f): Ghost<int>, Ghost(r): Ghost<int>) -> (t: i64)
        requires
            old(self).inv(),
            within(*old(self), events@.len() as int, f, r),
        ensures
            run(*old(self), *old(out), *final(self), *final(out)),
            within(*final(self), 0, f, r),
            events@.len() == 1 ==> t == time_to_next(final(self).deadlines(), events@[0].timestamp as i64),
            events@.len() == 1 ==> hold_back_effect(
                *old(self),
                *old(out),
                *final(self),
                *final(out),
                events@[0].code,
                events@[0].pressed,
                events@[0].timestamp as i64,
            ),
            0 <= t,
            processed(*old(self), *old(out), *final(self), *final(out), events@, t),
            events@.len() == 1 ==> event_effect(
                *old(self),
                *old(out),
                *final(self),
                *final(out),
                events@[0].code,
                events@[0].pressed,
                events@[0].timestamp as i64,
            ),
        decreases f, r, 2nat,
    {
        let ghost k0 = *self;
        let ghost o0 = *out;
        proof {
            lemma_emitted_refl(o0, k0.keystate@);
        }
        let n = events.len();
        let mut i: usize = 0;
        let mut pending_timeout: i64 = 0;
        let mut timeout_ts: i64 = 0;
        let ghost mut ks: Seq<Keyboard> = seq![k0];
        let ghost mut os: Seq<Output> = seq![o0];
        let ghost mut steps: Seq<Step> = Seq::empty();
        assert(as_inputs(events@.take(0)) =~= Seq::<(u8, u8, i64)>::empty());
        while i < n
            invariant
                i <= n == events@.len(),
                run(k0, o0, *self, *out),
                run_of(ks, os, steps),
                ks[0] == k0,
                os[0] == o0,
                ks.last() == *self,
                os.last() == *out,
                inputs(steps) == as_inputs(events@.take(i as int)),
                pending_timeout == (if steps.len() == 0 {
                    0
                } else {
                    time_to_next(self.deadlines(), steps.last().time)
                }),
                within(*self, (n - i) as int, f, r),
                0 <= pending_timeout,
                i32::MIN <= timeout_ts,
                pending_timeout > 0 ==> timeout_ts <= i32::MAX + 65536,
                steps.len() > 0 ==> timeout_ts == steps.last().time + pending_timeout,
                steps.len() > 0 && steps.last().tick ==> i < n && steps.last().time <= events@[i as int].timestamp,
                k0 == *old(self),
                o0 == *old(out),
                i == 0 ==> *self == k0 && *out == o0 && pending_timeout == 0,
                n == 1 && i == 1 ==> event_effect(k0, o0, *self, *out, events@[0].code, events@[0].pressed, events@[0].timestamp as i64)
                    && pending_timeout == time_to_next(self.deadlines(), events@[0].timestamp as i64)
                    && hold_back_effect(
                    k0,
                    o0,
                    *self,
                    *out,
                    events@[0].code,
                    events@[0].pressed,
                    events@[0].timestamp as i64,
                ),
            decreases n - i, if i < n && pending_timeout > 0 && timeout_ts <= events@[i as int].timestamp {
                events@[i as int].timestamp - timeout_ts + 1
            } else {
                0
            },
        {
            let ev = events[i];
            let ev_ts = ev.timestamp as i64;
            let ghost k1 = *self;
            let ghost o1 = *out;
            if pending_timeout > 0 && timeout_ts <= ev_ts {
                let ghost tts = timeout_ts;
                pending_timeout = self.handle_event(out, 0, 0, timeout_ts, Ghost(f - (n - i)), Ghost(r));
                timeout_ts = timeout_ts + pending_timeout;
                proof {
                    let st = Step { code: 0, pressed: 0, time: tts, tick: true };
                    assert(ks.push(*self)[steps.len() as int] == k1);
                    assert(steps.push(st)[steps.len() - 1] == steps.last());
                    lemma_run_push(ks, os, steps, *self, *out, st);
                    ks = ks.push(*self);
                    os = os.push(*out);
                    steps = steps.push(st);
                }
            } else {
                pending_timeout = self.handle_event(
                    out,
                    ev.code,
                    ev.pressed,
                    ev_ts,
                    Ghost(f - (n - i - 1)),
                    Ghost(r),
                );
                timeout_ts = ev_ts + pending_timeout;
                proof {
                    let st = Step { code: ev.code, pressed: ev.pressed, time: ev_ts, tick: false };
                    assert(ks.push(*self)[steps.len() as int] == k1);
                    if steps.len() > 0 {
                        assert(steps.push(st)[steps.len() - 1] == steps.last());
                    }
                    lemma_run_push(ks, os, steps, *self, *out, st);
                    ks = ks.push(*self);
                    os = os.push(*out);
                    steps = steps.push(st);
                    assert(as_inputs(events@.take(i + 1)) =~= as_inputs(events@.take(i as int)).push(
                        (ev.code, ev.pressed, ev_ts),
                    ));
                }
                i = i + 1;
            }
            proof {
                lemma_run_trans(k0, o0, k1, o1, *self, *out);
            }
        }
        proof {
            assert(events@.take(n as int) =~= events@);
            assert(run_of(ks, os, steps));
        }
        pending_timeout
    }

    /// Processes key event `ev` (see `handle_event`), and returns the time
    /// until the next deadline (0 when none).
    pub fn process_event(&mut self, out: &mut Output, ev: KeyEvent) -> (t: i64)
        requires
            old(self).inv(),
        ensures
            final(self).inv(),
            final(self).config_view() == old(self).config_view(),
            emitted(*old(out), *final(out), old(self).keystate_view(), final(self).keystate_view()),
            t == time_to_next(final(self).deadlines(), ev.timestamp as i64),
            0 <= t,
            hold_back_effect(*old(self), *old(out), *final(self), *final(out), ev.code, ev.pressed, ev.timestamp as i64),
            resolve_effect(*old(self), *old(out), *final(self), *final(out), ev.code, ev.pressed, ev.timestamp as i64),
            event_effect(*old(self), *old(out), *final(self), *final(out), ev.code, ev.pressed, ev.timestamp as i64),
    {
        proof {
            if self.pending_overload is Some {
                let p = self.pending_overload->0;
                lemma_desc_ok_rank(p.action1, self.config@.layers.len() as int, self.config@.descriptors.len() as int, self.config@.descriptors.len() as int);
            }
        }
        let t = self.handle_event(
            out,
            ev.code,
            ev.pressed,
            ev.timestamp as i64,
            Ghost(1 + qlen(*self)),
            Ghost(self.config@.descriptors.len() as int + 1),
        );
        t
    }

    /// Fires the deadlines that time `now` has reached (a timer tick), and
    /// returns the time until the next deadline (0 when none).
    pub fn check_timeouts(&mut self, out: &mut Output, now: i32) -> (t: i64)
        requires
            old(self).inv(),
        ensures
            final(self).inv(),
            final(self).config_view() == old(self).config_view(),
            emitted(*old(out), *final(out), old(self).keystate_view(), final(self).keystate_view()),
            t == time_to_next(final(self).deadlines(), now as i64),
            0 <= t,
            hold_back_effect(*old(self), *old(out), *final(self), *final(out), 0, 0, now as i64),
            resolve_effect(*old(self), *old(out), *final(self), *final(out), 0, 0, now as i64),
            event_effect(*old(self), *old(out), *final(self), *final(out), 0, 0, now as i64),
    {
        proof {
            if self.pending_overload is Some {
                let p = self.pending_overload->0;
                lemma_desc_ok_rank(p.action1, self.config@.layers.len() as int, self.config@.descriptors.len() as int, self.config@.descriptors.len() as int);
            }
        }
        self.handle_event(out, 0, 0, now as i64, Ghost(qlen(*self)), Ghost(self.config@.descriptors.len() as int + 1))
    }

    /// Processes `events` in order (see `process_events_inner`), and returns
    /// the time until the next deadline (0 when none).
    pub fn kbd_process_events(&mut self, out: &mut Output, events: &[KeyEvent]) -> (t: i64)
        requires
            old(self).inv(),
        ensures
            final(self).inv(),
            final(self).config_view() == old(self).config_view(),
            emitted(*old(out), *final(out), old(self).keystate_view(), final(self).keystate_view()),
            events@.len() == 1 ==> t == time_to_next(final(self).deadlines(), events@[0].timestamp as i64),
            events@.len() == 1 ==> hold_back_effect(
                *old(self),
                *old(out),
                *final(self),
                *final(out),
                events@[0].code,
                events@[0].pressed,
                events@[0].timestamp as i64,
            ),
            0 <= t,
            processed(*old(self), *old(out), *final(self), *final(out), events@, t),
            events@.len() == 1 ==> event_effect(
                *old(self),
                *old(out),
                *final(self),
                *final(out),
                events@[0].code,
                events@[0].pressed,
                events@[0].timestamp as i64,
            ),
    {
        proof {
            if self.pending_overload is Some {
                let p = self.pending_overload->0;
                lemma_desc_ok_rank(p.action1, self.config@.layers.len() as int, self.config@.descriptors.len() as int, self.config@.descriptors.len() as int);
            }
        }
        self.process_events_inner(
            out,
            events,
            Ghost(events@.len() + qlen(*self)),
            Ghost(self.config@.descriptors.len() as int + 1),
        )
    }
}

/// Exec form of `desc_ok`.
pub fn desc_ok_check(d: &Descriptor, nl: usize, bound: usize) -> (r: bool)
    ensures
        r == desc_ok(*d, nl as int, bound as int),
{
    match d.data {
        DescriptorData::Layer(l) => 0 <= l.idx && (l.idx as usize) < nl,
        DescriptorData::LayerMacro(lm) => 0 <= lm.idx && (lm.idx as usize) < nl,
        DescriptorData::LayerAction(ov) => 0 <= ov.layer_idx && (ov.layer_idx as usize) < nl && ov.action_idx < bound,
        DescriptorData::Overload(ov) => 0 <= ov.layer_idx && (ov.layer_idx as usize) < nl && ov.action_idx < bound,
        DescriptorData::OverloadTo(ov) => 0 <= ov.layer_idx && (ov.layer_idx as usize) < nl && ov.action_idx < bound,
        DescriptorData::OverloadIdle(ov) => ov.action1_idx < bound && ov.action2_idx < bound,
        DescriptorData::Timeout(t) => t.action1_idx < bound && t.action2_idx < bound,
        _ => true,
    }
}

/// True when the keyboard can run configuration `config` (see
/// `kbd_config_ok`).
pub fn kbd_config_check(config: &Config) -> (r: bool)
    ensures
        r == kbd_config_ok(config@),
{
    let nl = config.layers.len();
    let nd = config.descriptors.len();
    if nl < 1 || nl > MAX_LAYERS {
        return false;
    }
    let ghost cv = config@;
    let mut i: usize = 0;
    while i < nl
        invariant
            i <= nl == cv.layers.len(),
            nd == cv.descriptors.len(),
            cv == config@,
            forall|j: int| 0 <= j < i ==> (#[trigger] cv.layers[j]).keymap.len() == 256,
            forall|j: int, c: int|
                0 <= j < i && 0 <= c < 256 ==> desc_ok(#[trigger] cv.layers[j].keymap[c], nl as int, nd as int),
        decreases nl - i,
    {
        assert(cv.layers[i as int].keymap == config.layers@[i as int].keymap@);
        if config.layers[i].keymap.len() != 256 {
            assert(!keymaps_ok(cv));
            return false;
        }
        let mut c: usize = 0;
        while c < 256
            invariant
                i < nl == cv.layers.len(),
                nd == cv.descriptors.len(),
                cv == config@,
                c <= 256,
                cv.layers[i as int].keymap == config.layers@[i as int].keymap@,
                config.layers@[i as int].keymap@.len() == 256,
                forall|e: int| 0 <= e < c ==> desc_ok(#[trigger] cv.layers[i as int].keymap[e], nl as int, nd as int),
            decreases 256 - c,
        {
            if !desc_ok_check(&config.layers[i].keymap[c], nl, nd) {
                assert(!desc_ok(cv.layers[i as int].keymap[c as int], nl as int, nd as int));
                return false;
            }
            c = c + 1;
        }
        i = i + 1;
    }
    let mut j: usize = 0;
    while j < nd
        invariant
            j <= nd == cv.descriptors.len(),
            nl == cv.layers.len(),
            cv == config@,
            forall|e: int| 0 <= e < j ==> desc_ok(#[trigger] cv.descriptors[e], nl as int, e),
        decreases nd - j,
    {
        if !desc_ok_check(&config.descriptors[j], nl, j) {
            return false;
        }
        j = j + 1;
    }
    true
}

impl Keyboard {
    /// A keyboard running `config`: nothing held, only the main layer
    /// active.
    pub fn new(config: Config) -> (k: Keyboard)
        requires
            kbd_config_ok(config@),
        ensures
            k.inv(),
            k.config_view() == config@,
            k.keystate_view() == Seq::new(256, |c: int| 0u8),
            k.no_pending(),
            k.deadlines() == Seq::<i64>::empty(),
            forall|c: u8| (#[trigger] k.held(c)) is None,
            free_slots(k) == CACHE_SIZE,
            repeat_action(k) == unmapped(),
            last_press(k) == 0,
            last_simple_key(k) == 0,
            overload_start(k) == 0,
            layer_states(k).len() == config@.layers.len(),
            forall|i: int|
                0 <= i < config@.layers.len() ==> #[trigger] layer_states(k)[i] == (LayerState {
                    activation_time: 0,
                    active: if i == 0 {
                        1
                    } else {
                        0
                    },
                    toggled: 0,
                    oneshot_depth: 0,
                }),
    {
        let nl = config.layers.len();
        let mut layer_state: Vec<LayerState> = Vec::new();
        let mut i: usize = 0;
        while i < nl
            invariant
                i <= nl,
                layer_state@.len() == i,
                forall|j: int|
                    0 <= j < i ==> #[trigger] layer_state@[j] == (LayerState {
                        activation_time: 0,
                        active: if j == 0 {
                            1
                        } else {
                            0
                        },
                        toggled: 0,
                        oneshot_depth: 0,
                    }),
            decreases nl - i,
        {
            let active: u32 = if i == 0 {
                1
            } else {
                0
            };
            layer_state.push(LayerState { activation_time: 0, active, toggled: 0, oneshot_depth: 0 });
            i = i + 1;
        }
        let mut cache: Vec<Option<CacheEntry>> = Vec::new();
        let mut c: usize = 0;
        while c < CACHE_SIZE
            invariant
                c <= CACHE_SIZE,
                cache@.len() == c,
                forall|j: int| 0 <= j < c ==> (#[trigger] cache@[j]) is None,
            decreases CACHE_SIZE - c,
        {
            cache.push(None);
            c = c + 1;
        }
        let mut keystate: Vec<u8> = Vec::new();
        let mut k: usize = 0;
        while k < 256
            invariant
                k <= 256,
                keystate@ == Seq::new(k as nat, |c: int| 0u8),
            decreases 256 - k,
        {
            keystate.push(0);
            k = k + 1;
        }
        let kbd = Keyboard {
            config,
            cache,
            last_pressed_output_code: 0,
            last_pressed_code: 0,
            inhibit_modifier_guard: 0,
            overload_start_time: 0,
            last_simple_key_time: 0,
            timeouts: Vec::new(),
            pending_overload: None,
            layer_state,
            last_repeatable_action: Descriptor::none(),
            keystate,
        };
        assert(kbd.timeouts@ =~= Seq::<i64>::empty());
        assert forall|c: u8| (#[trigger] kbd.held(c)) is None by {
            assert(!exists|i: int| 0 <= i < CACHE_SIZE && slot_holds(#[trigger] kbd.cache@[i], c));
        }
        proof {
            lemma_count_free_empty(kbd.cache@);
        }
        kbd
    }
}

} // verus!
