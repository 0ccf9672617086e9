use vstd::prelude::*;
use crate::entry::{
    AnchorName, AnchorRoot, AssessmentWidgetBlockConfig, AssessmentWidgetTrayConfig, Entry,
    EntryHash,
};
use crate::error::WeError;
use crate::ledger::{Ledger, Link, LinkTag, LinkType};
use crate::paths::ensure_path;
use crate::pointer::{cleared, get_pointer, pointer_replaced, pointer_target, replace_pointer};
use crate::versioning::{lemma_create_keeps_deletes, lemma_created_live};

verus! {

/// A widget tray configuration as a caller writes it.
pub struct AssessmentWidgetTrayConfigInput {
    pub name: String,
    pub assessment_widget_blocks: Vec<AssessmentWidgetBlockConfig>,
}

/// Makes `assessment_tray_eh` the default widget tray of `resource_def_eh`.
pub struct SetAssessmentTrayDefaultInput {
    pub resource_def_eh: EntryHash,
    pub assessment_tray_eh: EntryHash,
}

/// The name of the index of every widget tray configuration.
pub open spec fn widget_trays_path() -> (AnchorRoot, Seq<char>) {
    (AnchorRoot::WidgetTrayConfigs, Seq::empty())
}

/// The widget tray configuration stored at `assessment_tray_eh`, if it is live.
pub fn get_assessment_tray_config(ledger: &Ledger, assessment_tray_eh: EntryHash) -> (r: Option<EntryHash>)
    ensures
        r == (if ledger@.live(assessment_tray_eh) {
            Some(assessment_tray_eh)
        } else {
            None::<EntryHash>
        }),
{
    if ledger.is_live(assessment_tray_eh) {
        Some(assessment_tray_eh)
    } else {
        None
    }
}

/// Stores a widget tray configuration and lists it in the index of widget trays.
pub fn set_assessment_tray_config(ledger: &mut Ledger, tray_config_input: AssessmentWidgetTrayConfigInput) -> (r:
    Result<EntryHash, WeError>)
    requires
        old(ledger)@.wf(),
    ensures
        final(ledger)@.wf(),
        match r {
            Ok(h) => {
                &&& h.0 == old(ledger)@.entries.len()
                &&& final(ledger)@.entries[h.0 as int] == Entry::AssessmentWidgetTrayConfig(
                    AssessmentWidgetTrayConfig {
                        name: tray_config_input.name,
                        assessment_widget_blocks: tray_config_input.assessment_widget_blocks,
                    },
                )
                &&& final(ledger)@.live(h)
                &&& final(ledger)@.anchor(widget_trays_path()) matches Some(root)
                    && final(ledger)@.links.last() == (Link {
                    base: root,
                    target: h,
                    link_type: LinkType::WidgetTrayConfig,
                    tag: LinkTag::Empty,
                    deleted: false,
                })
            },
            Err(e) => e == WeError::WriteFailure && !old(ledger)@.room(2, 1),
        },
{
    let config = AssessmentWidgetTrayConfig {
        name: tray_config_input.name,
        assessment_widget_blocks: tray_config_input.assessment_widget_blocks,
    };
    let ghost before = ledger@;
    let (h, _a) = ledger.create_entry(Entry::AssessmentWidgetTrayConfig(config))?;
    let ghost after_create = ledger@;
    proof {
        lemma_created_live(before, after_create, h);
    }
    let name = AnchorName { root: AnchorRoot::WidgetTrayConfigs, leaf: String::new() };
    proof {
        assert(name.leaf@ =~= Seq::<char>::empty());
        assert(name@ == widget_trays_path());
    }
    let root = ensure_path(ledger, name)?;
    proof {
        if ledger@ != after_create {
            lemma_create_keeps_deletes(after_create, ledger@, ledger@.actions.last()->Create_entry, h);
        }
    }
    ledger.create_link(root, h, LinkType::WidgetTrayConfig, LinkTag::Empty)?;
    Ok(h)
}

/// The default widget tray of `resource_def_eh`: the first default edge's target, if
/// it is live.
pub fn get_default_assessment_tray_config_for_resource_def(ledger: &Ledger, resource_def_eh: EntryHash) -> (r:
    Option<EntryHash>)
    ensures
        r == (match pointer_target(ledger@, resource_def_eh, LinkType::ResourceDefDefaultWidgetTrayConfig) {
            Some(t) => if ledger@.live(t) {
                Some(t)
            } else {
                None::<EntryHash>
            },
            None => None::<EntryHash>,
        }),
{
    match get_pointer(ledger, resource_def_eh, LinkType::ResourceDefDefaultWidgetTrayConfig) {
        None => None,
        Some(t) => get_assessment_tray_config(ledger, t),
    }
}

/// Makes the widget tray the default of the resource definition, replacing every
/// earlier default edge. Not atomic, as for tray configurations.
pub fn set_default_assessment_tray_config_for_resource_def(ledger: &mut Ledger, input: SetAssessmentTrayDefaultInput) -> (r:
    Result<EntryHash, WeError>)
    requires
        old(ledger)@.wf(),
    ensures
        final(ledger)@.wf(),
        match r {
            Ok(t) => {
                &&& t == input.assessment_tray_eh
                &&& pointer_replaced(
                    old(ledger)@,
                    final(ledger)@,
                    input.resource_def_eh,
                    LinkType::ResourceDefDefaultWidgetTrayConfig,
                    t,
                )
                &&& pointer_target(final(ledger)@, input.resource_def_eh, LinkType::ResourceDefDefaultWidgetTrayConfig)
                    == Some(t)
            },
            Err(e) => {
                &&& e == WeError::WriteFailure
                &&& old(ledger)@.links_full()
                &&& final(ledger)@.entries == old(ledger)@.entries
                &&& final(ledger)@.actions == old(ledger)@.actions
                &&& final(ledger)@.links.len() == old(ledger)@.links.len()
                &&& forall|j: int| 0 <= j < old(ledger)@.links.len() ==> #[trigger] final(ledger)@.links[j]
                    == cleared(old(ledger)@.links[j], input.resource_def_eh, LinkType::ResourceDefDefaultWidgetTrayConfig)
            },
        },
{
    replace_pointer(
        ledger,
        input.resource_def_eh,
        LinkType::ResourceDefDefaultWidgetTrayConfig,
        input.assessment_tray_eh,
    )?;
    Ok(input.assessment_tray_eh)
}

} // verus!
