use vstd::prelude::*;
use crate::entry::{
    ActionHash, AnchorName, AnchorRoot, AssessmentControlConfig, AssessmentTrayConfig, Entry,
    EntryHash,
};
use crate::error::WeError;
use crate::ledger::{Ledger, LedgerView, LinkTag, LinkType, Resolution};
use crate::pointer::{cleared, get_pointer, lemma_pointer_read_after_write, pointer_replaced, pointer_target, replace_pointer};
use crate::paths::{ensure_path, find_anchor};

verus! {

/// A tray configuration as a caller writes it.
pub struct AssessmentTrayConfigInput {
    pub name: String,
    pub assessment_control_configs: Vec<AssessmentControlConfig>,
}

/// A new revision for the tray configuration written by `original_action_hash`.
pub struct AssessmentTrayConfigUpdateInput {
    pub original_action_hash: ActionHash,
    pub updated_assessment_tray_config: AssessmentTrayConfigInput,
}

/// Makes `assessment_tray_eh` the default tray configuration of `resource_def_eh`.
pub struct SetAssessmentTrayDefaultInput {
    pub resource_def_eh: EntryHash,
    pub assessment_tray_eh: EntryHash,
}

/// The name of the index of every tray configuration.
pub open spec fn trays_path() -> (AnchorRoot, Seq<char>) {
    (AnchorRoot::TrayConfigs, Seq::empty())
}

/// The stored tray configuration at `h`: absent when `h` is not live, an error when
/// it holds another kind of entity.
pub open spec fn tray_at(v: LedgerView, h: EntryHash) -> Result<Option<EntryHash>, WeError> {
    if !v.live(h) {
        Ok(None)
    } else if v.entries[h.0 as int] is AssessmentTrayConfig {
        Ok(Some(h))
    } else {
        Err(WeError::TypeMismatch)
    }
}

/// The current revision of the tray configuration whose lineage starts at `h`.
pub open spec fn latest_tray(v: LedgerView, h: EntryHash) -> Result<Option<EntryHash>, WeError> {
    match v.resolved(h) {
        Resolution::Missing => Err(WeError::NotFound),
        Resolution::Absent => Ok(None),
        Resolution::Current(c) => tray_at(v, c),
    }
}

/// The current revisions of the lineages in `hs`, dropping absent ones; the first
/// error met, if any.
pub open spec fn latest_trays(v: LedgerView, hs: Seq<EntryHash>) -> Result<Seq<EntryHash>, WeError>
    decreases hs.len(),
{
    if hs.len() == 0 {
        Ok(Seq::empty())
    } else {
        match latest_trays(v, hs.drop_last()) {
            Err(e) => Err(e),
            Ok(s) => match latest_tray(v, hs.last()) {
                Err(e) => Err(e),
                Ok(None) => Ok(s),
                Ok(Some(t)) => Ok(s.push(t)),
            },
        }
    }
}

/// Every tray configuration listed in the index, at its current revision.
pub open spec fn all_trays(v: LedgerView) -> Result<Seq<EntryHash>, WeError> {
    match v.anchor(trays_path()) {
        None => Ok(Seq::empty()),
        Some(root) => latest_trays(v, v.targets_from(root, LinkType::AssessmentTrayConfig, None)),
    }
}

/// The default pointer of `key`: the first live default edge's target.
pub open spec fn default_target(v: LedgerView, key: EntryHash) -> Option<EntryHash> {
    pointer_target(v, key, LinkType::ResourceDefDefaultAssessmentTrayConfig)
}

/// The default tray configuration of `key`, at its current revision.
pub open spec fn default_tray(v: LedgerView, key: EntryHash) -> Result<Option<EntryHash>, WeError> {
    match default_target(v, key) {
        None => Ok(None),
        Some(t) => latest_tray(v, t),
    }
}

/// The tray configuration stored at `assessment_tray_eh`.
pub fn get_assessment_tray_config(ledger: &Ledger, assessment_tray_eh: EntryHash) -> (r: Result<
    Option<EntryHash>,
    WeError,
>)
    ensures
        r == tray_at(ledger@, assessment_tray_eh),
{
    if !ledger.is_live(assessment_tray_eh) {
        return Ok(None);
    }
    match ledger.entry(assessment_tray_eh) {
        Entry::AssessmentTrayConfig(_) => Ok(Some(assessment_tray_eh)),
        _ => Err(WeError::TypeMismatch),
    }
}

/// The current revision of the tray configuration whose lineage starts at `entry_hash`:
/// `None` when the lineage ends in a tombstone.
pub fn get_latest_assessment_tray(ledger: &Ledger, entry_hash: EntryHash) -> (r: Result<
    Option<EntryHash>,
    WeError,
>)
    ensures
        r == latest_tray(ledger@, entry_hash),
{
    match ledger.resolve_latest(entry_hash) {
        Resolution::Missing => Err(WeError::NotFound),
        Resolution::Absent => Ok(None),
        Resolution::Current(c) => get_assessment_tray_config(ledger, c),
    }
}

/// Every indexed tray configuration, at its current revision, in index order.
pub fn get_assessment_tray_configs(ledger: &Ledger) -> (r: Result<Vec<EntryHash>, WeError>)
    ensures
        match r {
            Ok(v) => all_trays(ledger@) == Ok::<Seq<EntryHash>, WeError>(v@),
            Err(e) => all_trays(ledger@) == Err::<Seq<EntryHash>, WeError>(e),
        },
{
    let name = AnchorName { root: AnchorRoot::TrayConfigs, leaf: String::new() };
    proof {
        assert(name.leaf@ =~= Seq::<char>::empty());
        assert(name@ == trays_path());
    }
    let root = match find_anchor(ledger, &name) {
        None => {
            return Ok(Vec::new());
        },
        Some(root) => root,
    };
    let targets = ledger.get_link_targets(root, LinkType::AssessmentTrayConfig, None);
    let mut out: Vec<EntryHash> = Vec::new();
    let mut i: usize = 0;
    while i < targets.len()
        invariant
            ledger@.anchor(trays_path()) == Some(root),
            targets@ == ledger@.targets_from(root, LinkType::AssessmentTrayConfig, None),
            i <= targets@.len(),
            latest_trays(ledger@, targets@.subrange(0, i as int)) == Ok::<Seq<EntryHash>, WeError>(out@),
        decreases targets@.len() - i,
    {
        let ghost next = targets@.subrange(0, i + 1);
        proof {
            assert(next.drop_last() =~= targets@.subrange(0, i as int));
            assert(next.last() == targets@[i as int]);
        }
        match get_latest_assessment_tray(ledger, targets[i]) {
            Err(e) => {
                proof {
                    assert(latest_trays(ledger@, next) == Err::<Seq<EntryHash>, WeError>(e));
                    lemma_latest_trays_err(ledger@, targets@, i + 1);
                }
                return Err(e);
            },
            Ok(None) => {},
            Ok(Some(t)) => {
                out.push(t);
            },
        }
        i = i + 1;
    }
    proof {
        assert(targets@.subrange(0, targets@.len() as int) =~= targets@);
    }
    Ok(out)
}

/// An error in a prefix is the error of the whole sequence.
proof fn lemma_latest_trays_err(v: LedgerView, hs: Seq<EntryHash>, k: int)
    requires
        0 <= k <= hs.len(),
        latest_trays(v, hs.subrange(0, k)) is Err,
    ensures
        latest_trays(v, hs) == latest_trays(v, hs.subrange(0, k)),
    decreases hs.len() - k,
{
    if k < hs.len() {
        assert(hs.subrange(0, k + 1).drop_last() =~= hs.subrange(0, k));
        lemma_latest_trays_err(v, hs, k + 1);
    } else {
        assert(hs.subrange(0, k) =~= hs);
    }
}

/// Stores a tray configuration and lists it in the index of every tray configuration.
pub fn set_assessment_tray_config(ledger: &mut Ledger, tray_config_input: AssessmentTrayConfigInput) -> (r:
    Result<EntryHash, WeError>)
    requires
        old(ledger)@.wf(),
    ensures
        final(ledger)@.wf(),
        match r {
            Ok(h) => {
                &&& h.0 == old(ledger)@.entries.len()
                &&& final(ledger)@.entries[h.0 as int] == Entry::AssessmentTrayConfig(
                    AssessmentTrayConfig {
                        name: tray_config_input.name,
                        assessment_control_configs: tray_config_input.assessment_control_configs,
                    },
                )
                &&& tray_at(final(ledger)@, h) == Ok::<Option<EntryHash>, WeError>(Some(h))
                &&& final(ledger)@.anchor(trays_path()) matches Some(root) && final(ledger)@.links.last()
                    == (crate::ledger::Link {
                    base: root,
                    target: h,
                    link_type: LinkType::AssessmentTrayConfig,
                    tag: LinkTag::Empty,
                    deleted: false,
                })
            },
            Err(e) => e == WeError::WriteFailure && !old(ledger)@.room(2, 1),
        },
{
    let config = AssessmentTrayConfig {
        name: tray_config_input.name,
        assessment_control_configs: tray_config_input.assessment_control_configs,
    };
    let (h, _a) = ledger.create_entry(Entry::AssessmentTrayConfig(config))?;
    let ghost after_create = ledger@;
    let name = AnchorName { root: AnchorRoot::TrayConfigs, leaf: String::new() };
    proof {
        assert(name.leaf@ =~= Seq::<char>::empty());
        assert(name@ == trays_path());
    }
    let root = ensure_path(ledger, name)?;
    let _l = ledger.create_link(root, h, LinkType::AssessmentTrayConfig, LinkTag::Empty)?;
    proof {
        assert(ledger@.entries[h.0 as int] == after_create.entries[h.0 as int]);
        assert(!ledger@.has_delete(h)) by {
            if ledger@.has_delete(h) {
                let i = choose|i: int|
                    0 <= i < ledger@.actions.len() && crate::ledger::deletes(
                        #[trigger] ledger@.actions[i],
                        h,
                    );
                let _ = ledger@.actions[i];
            }
        }
    }
    Ok(h)
}

/// The default tray configuration of `resource_def_eh`: the first default edge's target,
/// at its current revision. More than one default edge may exist after concurrent
/// writers; the first one wins and the others are ignored.
pub fn get_default_assessment_tray_config_for_resource_def(ledger: &Ledger, resource_def_eh: EntryHash) -> (r:
    Result<Option<EntryHash>, WeError>)
    ensures
        r == default_tray(ledger@, resource_def_eh),
{
    match get_pointer(ledger, resource_def_eh, LinkType::ResourceDefDefaultAssessmentTrayConfig) {
        None => Ok(None),
        Some(t) => get_latest_assessment_tray(ledger, t),
    }
}

/// Makes the tray configuration the default of the resource definition: deletes every
/// default edge of the resource definition, then adds one to the tray configuration.
/// Not atomic: a concurrent writer may leave two defaults, or none for a moment.
pub fn set_default_assessment_tray_config_for_resource_def(ledger: &mut Ledger, input: SetAssessmentTrayDefaultInput) -> (r:
    Result<EntryHash, WeError>)
    requires
        old(ledger)@.wf(),
    ensures
        final(ledger)@.wf(),
        match r {
            Ok(t) => {
                &&& t == input.assessment_tray_eh
                &&& pointer_replaced(
                    old(ledger)@,
                    final(ledger)@,
                    input.resource_def_eh,
                    LinkType::ResourceDefDefaultAssessmentTrayConfig,
                    t,
                )
                &&& default_target(final(ledger)@, input.resource_def_eh) == Some(t)
            },
            Err(e) => {
                &&& e == WeError::WriteFailure
                &&& old(ledger)@.links_full()
                &&& final(ledger)@.entries == old(ledger)@.entries
                &&& final(ledger)@.actions == old(ledger)@.actions
                &&& final(ledger)@.links.len() == old(ledger)@.links.len()
                &&& forall|j: int| 0 <= j < old(ledger)@.links.len() ==> #[trigger] final(ledger)@.links[j]
                    == cleared(old(ledger)@.links[j], input.resource_def_eh, LinkType::ResourceDefDefaultAssessmentTrayConfig)
            },
        },
{
    replace_pointer(
        ledger,
        input.resource_def_eh,
        LinkType::ResourceDefDefaultAssessmentTrayConfig,
        input.assessment_tray_eh,
    )?;
    Ok(input.assessment_tray_eh)
}

/// A default written with no writer in between is the default read back: the tray
/// configuration just set, at its current revision.
pub proof fn lemma_default_read_after_write(old: LedgerView, new: LedgerView, key: EntryHash, target: EntryHash)
    requires
        new.wf(),
        pointer_replaced(old, new, key, LinkType::ResourceDefDefaultAssessmentTrayConfig, target),
    ensures
        default_target(new, key) == Some(target),
        default_tray(new, key) == latest_tray(new, target),
{
    lemma_pointer_read_after_write(old, new, key, LinkType::ResourceDefDefaultAssessmentTrayConfig, target);
}

/// Stores a new revision of the tray configuration written by the input's original
/// action, and returns the revision's entity address.
pub fn update_assessment_tray_config(ledger: &mut Ledger, input: AssessmentTrayConfigUpdateInput) -> (r: Result<
    EntryHash,
    WeError,
>)
    requires
        old(ledger)@.wf(),
    ensures
        final(ledger)@.wf(),
        match r {
            Ok(h) => {
                &&& old(ledger)@.written_by(input.original_action_hash) matches Some(orig)
                &&& h.0 == old(ledger)@.entries.len()
                &&& final(ledger)@.entries == old(ledger)@.entries.push(
                    Entry::AssessmentTrayConfig(
                        AssessmentTrayConfig {
                            name: input.updated_assessment_tray_config.name,
                            assessment_control_configs: input.updated_assessment_tray_config.assessment_control_configs,
                        },
                    ),
                )
                &&& final(ledger)@.actions == old(ledger)@.actions.push(
                    crate::ledger::Action::Update {
                        original_action: input.original_action_hash,
                        original_entry: orig,
                        entry: h,
                    },
                )
                &&& final(ledger)@.links == old(ledger)@.links
            },
            Err(e) => {
                &&& final(ledger)@ == old(ledger)@
                &&& e == if old(ledger)@.written_by(input.original_action_hash) is None {
                    WeError::NotFound
                } else {
                    WeError::WriteFailure
                }
                &&& (old(ledger)@.written_by(input.original_action_hash) is None || old(ledger)@.entries_full())
            },
        },
{
    let config = AssessmentTrayConfig {
        name: input.updated_assessment_tray_config.name,
        assessment_control_configs: input.updated_assessment_tray_config.assessment_control_configs,
    };
    let (h, _a) = ledger.update_entry(input.original_action_hash, Entry::AssessmentTrayConfig(config))?;
    Ok(h)
}

} // verus!
