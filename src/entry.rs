use vstd::prelude::*;

verus! {

/// Address of a stored entity: the position of its content in the store.
#[derive(Clone, Copy, Debug, PartialEq, Eq, Structural)]
pub struct EntryHash(pub usize);

/// Address of a single write (a create, an update or a delete).
#[derive(Clone, Copy, Debug, PartialEq, Eq, Structural)]
pub struct ActionHash(pub usize);

/// The root segment of a path index.
#[derive(Clone, Copy, Debug, PartialEq, Eq, Structural)]
pub enum AnchorRoot {
    /// "assessment_tray_config": every tray configuration.
    TrayConfigs,
    /// "methods": every method.
    Methods,
    /// "all_applets": the configurations registered under each name.
    AllApplets,
    /// "assessment_widget_tray_config": every widget tray configuration.
    WidgetTrayConfigs,
}

/// A path anchor: a root segment and a leaf segment (empty for the root itself).
#[derive(Clone, Debug)]
pub struct AnchorName {
    pub root: AnchorRoot,
    pub leaf: String,
}

impl AnchorName {
    pub open spec fn view(&self) -> (AnchorRoot, Seq<char>) {
        (self.root, self.leaf@)
    }

    /// Whether two anchors name the same path.
    pub fn same_as(&self, other: &AnchorName) -> (r: bool)
        ensures
            r == (self@ == other@),
    {
        self.root == other.root && self.leaf == other.leaf
    }
}

/// The kind of value a dimension or range holds.
#[derive(Clone, Copy, Debug, PartialEq, Eq, Structural)]
pub enum ValueKind {
    Integer,
    Float,
}

/// A floating-point value carried through the store as its IEEE-754 bit pattern.
#[derive(Clone, Copy, Debug, PartialEq, Eq, Structural)]
pub struct FloatBits(pub u64);

/// A value on a dimension's scale.
#[derive(Clone, Copy, Debug, PartialEq, Eq, Structural)]
pub enum RangeValue {
    Integer(u32),
    Float(FloatBits),
}

/// A named aggregation program.
#[derive(Clone, Copy, Debug, PartialEq, Eq, Structural)]
pub enum Program {
    Sum,
    Average,
}

/// A named scale.
#[derive(Clone, Debug)]
pub struct Range {
    pub name: String,
    pub kind: ValueKind,
}

/// A dimension along which resources are assessed.
#[derive(Clone, Debug)]
pub struct Dimension {
    pub name: String,
    pub range_eh: EntryHash,
    pub computed: bool,
}

/// The kind of resource being assessed.
#[derive(Clone, Debug)]
pub struct ResourceDef {
    pub resource_name: String,
    pub applet_eh: EntryHash,
}

/// A cultural context, named within an applet.
#[derive(Clone, Debug)]
pub struct CulturalContext {
    pub name: String,
    pub resource_def_eh: EntryHash,
}

/// A reduction from the assessments on its input dimensions to one output dimension.
#[derive(Clone, Debug)]
pub struct Method {
    pub name: String,
    pub program: Program,
    pub input_dimension_ehs: Vec<EntryHash>,
    pub output_dimension_eh: EntryHash,
}

/// A value recorded for a resource on a dimension.
#[derive(Clone, Copy, Debug)]
pub struct Assessment {
    pub value: RangeValue,
    pub dimension_eh: EntryHash,
    pub resource_eh: EntryHash,
    pub resource_def_eh: EntryHash,
}

/// One control of an assessment tray.
#[derive(Clone, Debug)]
pub struct AssessmentControlConfig {
    pub applet_id: String,
    pub control_key: String,
    pub dimension_eh: EntryHash,
}

/// A named arrangement of assessment controls.
#[derive(Clone, Debug)]
pub struct AssessmentTrayConfig {
    pub name: String,
    pub assessment_control_configs: Vec<AssessmentControlConfig>,
}

/// One block of a widget tray: the widget that shows a dimension.
#[derive(Clone, Debug)]
pub struct AssessmentWidgetBlockConfig {
    pub applet_id: String,
    pub component_name: String,
    pub dimension_eh: EntryHash,
}

/// A named arrangement of assessment widgets.
#[derive(Clone, Debug)]
pub struct AssessmentWidgetTrayConfig {
    pub name: String,
    pub assessment_widget_blocks: Vec<AssessmentWidgetBlockConfig>,
}

/// A name bound to the address of an entity created under it.
#[derive(Clone, Debug)]
pub struct NamedEntry {
    pub name: String,
    pub address: EntryHash,
}

/// The entities created by one applet registration, by name: each list binds a name
/// at most once (see `wf`).
#[derive(Clone, Debug)]
pub struct AppletConfig {
    pub name: String,
    pub applet_eh: EntryHash,
    pub ranges: Vec<NamedEntry>,
    pub dimensions: Vec<NamedEntry>,
    pub resource_defs: Vec<NamedEntry>,
    pub methods: Vec<NamedEntry>,
    pub cultural_contexts: Vec<NamedEntry>,
}

/// The content of a stored entity.
#[derive(Clone, Debug)]
pub enum Entry {
    Anchor(AnchorName),
    Range(Range),
    Dimension(Dimension),
    ResourceDef(ResourceDef),
    CulturalContext(CulturalContext),
    Method(Method),
    Assessment(Assessment),
    AssessmentTrayConfig(AssessmentTrayConfig),
    AssessmentWidgetTrayConfig(AssessmentWidgetTrayConfig),
    AppletConfig(AppletConfig),
}

impl AppletConfig {
    /// Each list binds a name at most once.
    pub open spec fn wf(&self) -> bool {
        &&& crate::named::names_unique(self.ranges@)
        &&& crate::named::names_unique(self.dimensions@)
        &&& crate::named::names_unique(self.resource_defs@)
        &&& crate::named::names_unique(self.methods@)
        &&& crate::named::names_unique(self.cultural_contexts@)
    }
}

} // verus!
