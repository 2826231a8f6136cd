//! The configuration model: layers, descriptors (what a key does), macros,
//! device ids and global options.

use vstd::prelude::*;

verus! {

/// Maximum number of layers in a configuration.
pub const MAX_LAYERS: usize = 32;

/// Maximum number of constituents of a composite layer, and of keys in a chord.
pub const MAX_CONSTITUENTS: usize = 8;

/// Device id flag: the id excludes the device.
pub const ID_EXCLUDED: u8 = 0x01;
/// Device id flag: mouse.
pub const ID_MOUSE: u8 = 0x02;
/// Device id flag: keyboard.
pub const ID_KEYBOARD: u8 = 0x04;
/// Device id flag: trackpad (absolute pointer).
pub const ID_TRACKPAD: u8 = 0x08;
/// Device id flag: device with keys.
pub const ID_KEY: u8 = 0x10;

#[derive(Clone, Copy, Debug, PartialEq, Eq, Structural)]
pub enum LayerType {
    Normal,
    Layout,
    Composite,
}

/// The kind of action a descriptor performs.
#[derive(Clone, Copy, Debug, PartialEq, Eq, Structural)]
pub enum Op {
    KeySequence,
    Oneshot,
    OneshotM,
    OneshotK,
    Macro,
    Command,
    Timeout,
    Layer,
    LayerM,
    Layout,
    Clear,
    ClearM,
    Swap,
    SwapM,
    Toggle,
    ToggleM,
    Repeat,
    Overload,
    OverloadTimeout,
    OverloadTimeoutTap,
    OverloadIdleTimeout,
}

#[derive(Clone, Copy, Debug, PartialEq, Eq, Structural)]
pub struct DescKeySequence {
    pub code: u8,
    pub mods: u8,
}

#[derive(Clone, Copy, Debug, PartialEq, Eq, Structural)]
pub struct DescLayer {
    pub idx: i16,
}

#[derive(Clone, Copy, Debug, PartialEq, Eq, Structural)]
pub struct DescLayerMacro {
    pub idx: i16,
    pub macro_idx: usize,
}

#[derive(Clone, Copy, Debug, PartialEq, Eq, Structural)]
pub struct DescOverload {
    pub layer_idx: i16,
    pub action_idx: usize,
}

#[derive(Clone, Copy, Debug, PartialEq, Eq, Structural)]
pub struct DescOverloadTo {
    pub layer_idx: i16,
    pub action_idx: usize,
    pub timeout: u16,
}

#[derive(Clone, Copy, Debug, PartialEq, Eq, Structural)]
pub struct DescOverloadIdle {
    pub action1_idx: usize,
    pub action2_idx: usize,
    pub timeout: u16,
}

#[derive(Clone, Copy, Debug, PartialEq, Eq, Structural)]
pub struct DescTimeout {
    pub action1_idx: usize,
    pub timeout: u16,
    pub action2_idx: usize,
}

/// The arguments of a descriptor.
#[derive(Clone, Copy, Debug, PartialEq, Eq, Structural)]
pub enum DescriptorData {
    NoData,
    KeySequence(DescKeySequence),
    Layer(DescLayer),
    LayerMacro(DescLayerMacro),
    LayerAction(DescOverload),
    Macro(usize),
    Command(usize),
    Overload(DescOverload),
    OverloadTo(DescOverloadTo),
    OverloadIdle(DescOverloadIdle),
    Timeout(DescTimeout),
}

/// What a key does: an operation and its arguments.
#[derive(Clone, Copy, Debug, PartialEq, Eq, Structural)]
pub struct Descriptor {
    pub op: Op,
    pub data: DescriptorData,
}

/// The descriptor of a key that is not mapped (it passes through).
pub open spec fn unmapped() -> Descriptor {
    Descriptor { op: Op::KeySequence, data: DescriptorData::NoData }
}

/// True when a keymap entry maps the key to something (rather than letting it
/// pass through).
pub open spec fn is_mapped(d: Descriptor) -> bool {
    d.op != Op::KeySequence || (d.data matches DescriptorData::KeySequence(ks) && ks.code != 0)
}

impl Descriptor {
    /// The descriptor of an unmapped key.
    pub fn none() -> (d: Descriptor)
        ensures
            d == unmapped(),
    {
        Descriptor { op: Op::KeySequence, data: DescriptorData::NoData }
    }

    /// Exec form of `is_mapped`.
    pub fn mapped(&self) -> (r: bool)
        ensures
            r == is_mapped(*self),
    {
        match self.op {
            Op::KeySequence => match self.data {
                DescriptorData::KeySequence(ks) => ks.code != 0,
                _ => false,
            },
            _ => true,
        }
    }
}

#[derive(Clone, Copy, Debug, PartialEq, Eq, Structural)]
pub enum MacroEntryType {
    KeySequence,
    Hold,
    Release,
    Unicode,
    Timeout,
}

/// One step of a macro. For a key sequence, `data` is `code | mods << 8`;
/// for a hold or release, the key code; for a unicode character, its code
/// point; for a timeout, milliseconds.
#[derive(Clone, Copy, Debug, PartialEq, Eq, Structural)]
pub struct MacroEntry {
    pub entry_type: MacroEntryType,
    pub data: u32,
}

#[derive(Clone, Debug)]
pub struct Macro {
    pub entries: Vec<MacroEntry>,
}

impl View for Macro {
    type V = Seq<MacroEntry>;

    open spec fn view(&self) -> Seq<MacroEntry> {
        self.entries@
    }
}

#[derive(Clone, Debug)]
pub struct Chord {
    pub keys: Vec<u8>,
    pub d: Descriptor,
}

#[verifier::ext_equal]
pub struct ChordView {
    pub keys: Seq<u8>,
    pub d: Descriptor,
}

impl View for Chord {
    type V = ChordView;

    open spec fn view(&self) -> ChordView {
        ChordView { keys: self.keys@, d: self.d }
    }
}

#[derive(Clone, Debug)]
pub struct Layer {
    pub name: String,
    pub layer_type: LayerType,
    pub mods: u8,
    /// One descriptor for each of the 256 key codes.
    pub keymap: Vec<Descriptor>,
    pub chords: Vec<Chord>,
    /// For a composite layer, the indices of the layers it is made of.
    pub constituents: Vec<usize>,
}

#[verifier::ext_equal]
pub struct LayerView {
    pub name: Seq<char>,
    pub layer_type: LayerType,
    pub mods: u8,
    pub keymap: Seq<Descriptor>,
    pub chords: Seq<ChordView>,
    pub constituents: Seq<usize>,
}

impl View for Layer {
    type V = LayerView;

    open spec fn view(&self) -> LayerView {
        LayerView {
            name: self.name@,
            layer_type: self.layer_type,
            mods: self.mods,
            keymap: self.keymap@,
            chords: self.chords@.map_values(|c: Chord| c@),
            constituents: self.constituents@,
        }
    }
}

/// A fresh layer: no modifiers, every key unmapped.
pub open spec fn new_layer_view(name: Seq<char>, layer_type: LayerType) -> LayerView {
    LayerView {
        name,
        layer_type,
        mods: 0,
        keymap: Seq::new(256, |i: int| unmapped()),
        chords: Seq::empty(),
        constituents: Seq::empty(),
    }
}

impl Layer {
    /// Creates a layer with no modifiers and every key unmapped.
    pub fn new(name: String, layer_type: LayerType) -> (l: Layer)
        ensures
            l@ == new_layer_view(name@, layer_type),
    {
        let mut keymap: Vec<Descriptor> = Vec::new();
        let mut i: usize = 0;
        while i < 256
            invariant
                i <= 256,
                keymap@ =~= Seq::new(i as nat, |j: int| unmapped()),
            decreases 256 - i,
        {
            keymap.push(Descriptor::none());
            i = i + 1;
        }
        let chords: Vec<Chord> = Vec::new();
        let l = Layer {
            name,
            layer_type,
            mods: 0,
            keymap,
            chords,
            constituents: Vec::new(),
        };
        assert(l@.chords =~= Seq::<ChordView>::empty());
        l
    }

    /// Number of constituents of a composite layer.
    pub fn nr_constituents(&self) -> (n: usize)
        ensures
            n == self.constituents@.len(),
    {
        self.constituents.len()
    }
}

impl Default for Layer {
    /// A normal layer without a name, no modifiers, every key unmapped.
    fn default() -> (l: Layer)
        ensures
            l@ == new_layer_view(Seq::empty(), LayerType::Normal),
    {
        let name = String::new();
        Layer::new(name, LayerType::Normal)
    }
}

/// A device id of the `[ids]` section and its flags.
#[derive(Clone, Debug)]
pub struct ConfigId {
    pub id: String,
    pub flags: u8,
}

#[derive(Clone, Debug)]
pub struct Config {
    pub layers: Vec<Layer>,
    /// Descriptors that other descriptors refer to by index.
    pub descriptors: Vec<Descriptor>,
    pub macros: Vec<Macro>,
    pub commands: Vec<String>,
    pub aliases: Vec<(String, String)>,
    pub ids: Vec<ConfigId>,
    /// 1 when the `[ids]` section holds `*`.
    pub wildcard: u8,
    pub macro_timeout: i64,
    pub macro_sequence_timeout: i64,
    pub macro_repeat_timeout: i64,
    pub oneshot_timeout: i64,
    pub overload_tap_timeout: i64,
    pub chord_interkey_timeout: i64,
    pub chord_hold_timeout: i64,
    pub layer_indicator: u8,
    pub disable_modifier_guard: u8,
    pub default_layout: String,
}

#[verifier::ext_equal]
pub struct ConfigView {
    pub layers: Seq<LayerView>,
    pub descriptors: Seq<Descriptor>,
    pub macros: Seq<Seq<MacroEntry>>,
    pub commands: Seq<Seq<char>>,
    pub aliases: Seq<(Seq<char>, Seq<char>)>,
    pub ids: Seq<(Seq<char>, u8)>,
    pub wildcard: u8,
    pub macro_timeout: i64,
    pub macro_sequence_timeout: i64,
    pub macro_repeat_timeout: i64,
    pub oneshot_timeout: i64,
    pub overload_tap_timeout: i64,
    pub chord_interkey_timeout: i64,
    pub chord_hold_timeout: i64,
    pub layer_indicator: u8,
    pub disable_modifier_guard: u8,
    pub default_layout: Seq<char>,
}

impl View for Config {
    type V = ConfigView;

    open spec fn view(&self) -> ConfigView {
        ConfigView {
            layers: self.layers@.map_values(|l: Layer| l@),
            descriptors: self.descriptors@,
            macros: self.macros@.map_values(|m: Macro| m@),
            commands: self.commands@.map_values(|c: String| c@),
            aliases: self.aliases@.map_values(|a: (String, String)| (a.0@, a.1@)),
            ids: self.ids@.map_values(|i: ConfigId| (i.id@, i.flags)),
            wildcard: self.wildcard,
            macro_timeout: self.macro_timeout,
            macro_sequence_timeout: self.macro_sequence_timeout,
            macro_repeat_timeout: self.macro_repeat_timeout,
            oneshot_timeout: self.oneshot_timeout,
            overload_tap_timeout: self.overload_tap_timeout,
            chord_interkey_timeout: self.chord_interkey_timeout,
            chord_hold_timeout: self.chord_hold_timeout,
            layer_indicator: self.layer_indicator,
            disable_modifier_guard: self.disable_modifier_guard,
            default_layout: self.default_layout@,
        }
    }
}

/// The configuration before anything is parsed: only the `main` layer, which
/// is a layout, and the default timeouts.
pub open spec fn new_config_view() -> ConfigView {
    ConfigView {
        layers: seq![new_layer_view("main"@, LayerType::Layout)],
        descriptors: Seq::empty(),
        macros: Seq::empty(),
        commands: Seq::empty(),
        aliases: Seq::empty(),
        ids: Seq::empty(),
        wildcard: 0,
        macro_timeout: 600,
        macro_sequence_timeout: 0,
        macro_repeat_timeout: 50,
        oneshot_timeout: 800,
        overload_tap_timeout: 0,
        chord_interkey_timeout: 50,
        chord_hold_timeout: 0,
        layer_indicator: 0,
        disable_modifier_guard: 0,
        default_layout: Seq::empty(),
    }
}

impl Config {
    /// The configuration before anything is parsed (see `new_config_view`).
    pub fn new() -> (c: Config)
        ensures
            c@ == new_config_view(),
    {
        let main = Layer::new(String::from_str("main"), LayerType::Layout);
        let mut layers: Vec<Layer> = Vec::new();
        layers.push(main);
        let c = Config {
            layers,
            descriptors: Vec::new(),
            macros: Vec::new(),
            commands: Vec::new(),
            aliases: Vec::new(),
            ids: Vec::new(),
            wildcard: 0,
            macro_timeout: 600,
            macro_sequence_timeout: 0,
            macro_repeat_timeout: 50,
            oneshot_timeout: 800,
            overload_tap_timeout: 0,
            chord_interkey_timeout: 50,
            chord_hold_timeout: 0,
            layer_indicator: 0,
            disable_modifier_guard: 0,
            default_layout: String::new(),
        };
        assert(c@.layers =~= new_config_view().layers);
        assert(c@.macros =~= Seq::<Seq<MacroEntry>>::empty());
        assert(c@.commands =~= Seq::<Seq<char>>::empty());
        assert(c@.aliases =~= Seq::<(Seq<char>, Seq<char>)>::empty());
        assert(c@.ids =~= Seq::<(Seq<char>, u8)>::empty());
        c
    }
}

} // verus!
