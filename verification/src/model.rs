use vstd::prelude::*;

verus! {

/// Number of fixed node slots exposed to the host for automation.
pub const MAX_NODE_SLOTS: usize = 16;

/// Shape of the group-delay contribution of one node.
#[derive(Clone, Copy, Debug, PartialEq, Eq, Structural)]
pub enum NodeType {
    Bell,
    LowShelf,
    HighShelf,
    Scale,
}

impl Default for NodeType {
    fn default() -> (r: Self)
        ensures
            r == NodeType::Bell,
    {
        NodeType::Bell
    }
}

/// Root note of a scale node.
#[derive(Clone, Copy, Debug, PartialEq, Eq, Structural)]
pub enum RootNote {
    C,
    CSharp,
    D,
    DSharp,
    E,
    F,
    FSharp,
    G,
    GSharp,
    A,
    ASharp,
    B,
}

impl Default for RootNote {
    fn default() -> (r: Self)
        ensures
            r == RootNote::C,
    {
        RootNote::C
    }
}

/// Scale used by a scale node.
#[derive(Clone, Copy, Debug, PartialEq, Eq, Structural)]
pub enum ScaleMode {
    MinorPentatonic,
    MajorPentatonic,
    Major,
    Minor,
    Chromatic,
}

impl Default for ScaleMode {
    fn default() -> (r: Self)
        ensures
            r == ScaleMode::MinorPentatonic,
    {
        ScaleMode::MinorPentatonic
    }
}

/// Semitone offset of a root note above C.
pub open spec fn semitone_of(root: RootNote) -> int {
    match root {
        RootNote::C => 0,
        RootNote::CSharp => 1,
        RootNote::D => 2,
        RootNote::DSharp => 3,
        RootNote::E => 4,
        RootNote::F => 5,
        RootNote::FSharp => 6,
        RootNote::G => 7,
        RootNote::GSharp => 8,
        RootNote::A => 9,
        RootNote::ASharp => 10,
        RootNote::B => 11,
    }
}

/// Semitone offset of `root` above C, in `0..12`.
pub fn root_note_semitone(root: RootNote) -> (r: i32)
    ensures
        r == semitone_of(root),
        0 <= r < 12,
{
    match root {
        RootNote::C => 0,
        RootNote::CSharp => 1,
        RootNote::D => 2,
        RootNote::DSharp => 3,
        RootNote::E => 4,
        RootNote::F => 5,
        RootNote::FSharp => 6,
        RootNote::G => 7,
        RootNote::GSharp => 8,
        RootNote::A => 9,
        RootNote::ASharp => 10,
        RootNote::B => 11,
    }
}

/// The next root note up the chromatic scale (B wraps round to C).
pub open spec fn next_root(root: RootNote) -> RootNote {
    match root {
        RootNote::C => RootNote::CSharp,
        RootNote::CSharp => RootNote::D,
        RootNote::D => RootNote::DSharp,
        RootNote::DSharp => RootNote::E,
        RootNote::E => RootNote::F,
        RootNote::F => RootNote::FSharp,
        RootNote::FSharp => RootNote::G,
        RootNote::G => RootNote::GSharp,
        RootNote::GSharp => RootNote::A,
        RootNote::A => RootNote::ASharp,
        RootNote::ASharp => RootNote::B,
        RootNote::B => RootNote::C,
    }
}

/// A root's semitone is its chromatic distance above C: C is 0, each step up
/// the chromatic scale adds one semitone (B, at 11, wraps round to C), and no
/// two roots share a semitone.
pub proof fn lemma_semitones_are_chromatic(root: RootNote, other: RootNote)
    ensures
        semitone_of(RootNote::C) == 0,
        semitone_of(next_root(root)) == (semitone_of(root) + 1) % 12,
        0 <= semitone_of(root) < 12,
        semitone_of(root) == semitone_of(other) ==> root == other,
{
}

/// The label the editor shows for a node type.
pub open spec fn type_label(node_type: NodeType) -> Seq<char> {
    match node_type {
        NodeType::Bell => "Bell"@,
        NodeType::LowShelf => "Low Shelf"@,
        NodeType::HighShelf => "High Shelf"@,
        NodeType::Scale => "Scale"@,
    }
}

/// The label the editor shows for a node type.
pub fn node_type_label(node_type: NodeType) -> (label: &'static str)
    ensures
        label@ == type_label(node_type),
{
    match node_type {
        NodeType::Bell => "Bell",
        NodeType::LowShelf => "Low Shelf",
        NodeType::HighShelf => "High Shelf",
        NodeType::Scale => "Scale",
    }
}

/// The continuous shape of a node: centre (or cutoff) frequency, peak delay
/// and width in octaves, in whatever number type the host uses.
#[derive(Clone, Copy, Debug, PartialEq)]
pub struct NodeShape<F> {
    pub freq_hz: F,
    pub amount_ms: F,
    pub width_oct: F,
}

impl<F> NodeShape<F> {
    /// A shape from its three values.
    pub fn new(freq_hz: F, amount_ms: F, width_oct: F) -> (r: Self)
        ensures
            r == (NodeShape { freq_hz, amount_ms, width_oct }),
    {
        NodeShape { freq_hz, amount_ms, width_oct }
    }
}

/// The parameters of one node slot as the audio engine reads them.
///
/// `S` holds the continuous shape of the node (centre frequency, amount and
/// width); the slot logic of this crate only carries it along.
#[derive(Clone, Copy, Debug, PartialEq)]
pub struct NodeRuntimeParams<S> {
    pub enabled: bool,
    pub node_type: NodeType,
    pub shape: S,
    pub scale_root: RootNote,
    pub scale_mode: ScaleMode,
}

/// A node as the editor's cache stores it: the runtime parameters of a slot
/// together with the slot index and a one-based display id.
#[derive(Clone, Copy, Debug, PartialEq)]
pub struct NodeModel<S> {
    pub slot: usize,
    pub id: u32,
    pub enabled: bool,
    pub node_type: NodeType,
    pub shape: S,
    pub scale_root: RootNote,
    pub scale_mode: ScaleMode,
}

/// The one-based display id of a slot: `slot + 1`, counted in `u32`.
pub open spec fn slot_id(slot: usize) -> u32 {
    ((slot as u32) + 1) as u32
}

/// Whether `slot` has a display id that does not overflow `u32`.
pub open spec fn slot_id_fits(slot: usize) -> bool {
    (slot as u32) < u32::MAX
}

/// The cached model of `node` in slot `slot`.
pub open spec fn model_of<S>(slot: usize, node: NodeRuntimeParams<S>) -> NodeModel<S> {
    NodeModel {
        slot,
        id: slot_id(slot),
        enabled: node.enabled,
        node_type: node.node_type,
        shape: node.shape,
        scale_root: node.scale_root,
        scale_mode: node.scale_mode,
    }
}

/// The runtime parameters that a cached model stands for.
pub open spec fn params_of<S>(model: NodeModel<S>) -> NodeRuntimeParams<S> {
    NodeRuntimeParams {
        enabled: model.enabled,
        node_type: model.node_type,
        shape: model.shape,
        scale_root: model.scale_root,
        scale_mode: model.scale_mode,
    }
}

impl<S: Copy> NodeModel<S> {
    /// The model of `node` placed in slot `slot`, with display id `slot + 1`.
    pub fn from_runtime(slot: usize, node: NodeRuntimeParams<S>) -> (m: Self)
        requires
            slot_id_fits(slot),
        ensures
            m == model_of(slot, node),
    {
        NodeModel {
            slot,
            id: slot as u32 + 1,
            enabled: node.enabled,
            node_type: node.node_type,
            shape: node.shape,
            scale_root: node.scale_root,
            scale_mode: node.scale_mode,
        }
    }

    /// The runtime parameters this model stands for.
    pub fn to_runtime(&self) -> (p: NodeRuntimeParams<S>)
        ensures
            p == params_of(*self),
    {
        NodeRuntimeParams {
            enabled: self.enabled,
            node_type: self.node_type,
            shape: self.shape,
            scale_root: self.scale_root,
            scale_mode: self.scale_mode,
        }
    }

    /// The label of the node's type.
    pub fn display_name(&self) -> (label: &'static str)
        ensures
            label@ == type_label(self.node_type),
    {
        node_type_label(self.node_type)
    }
}

/// Turning runtime parameters into a cached model and back gives them again.
pub proof fn lemma_model_round_trip<S>(slot: usize, node: NodeRuntimeParams<S>)
    ensures
        params_of(model_of(slot, node)) == node,
        model_of(slot, node).slot == slot,
{
}

} // verus!
