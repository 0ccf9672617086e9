use vstd::prelude::*;
use crate::entry::{ActionHash, Entry, EntryHash, ResourceDef};
use crate::error::WeError;
use crate::ledger::Ledger;

verus! {

/// A new revision for the resource definition written by `original_action_hash`.
pub struct UpdateResourceDefInput {
    pub original_action_hash: ActionHash,
    pub updated_resource_def: ResourceDef,
}

/// The resource definition stored at `entry_hash`, if it is live.
pub fn get_resource_def(ledger: &Ledger, entry_hash: EntryHash) -> (r: Option<EntryHash>)
    ensures
        r == (if ledger@.live(entry_hash) {
            Some(entry_hash)
        } else {
            None::<EntryHash>
        }),
{
    if ledger.is_live(entry_hash) {
        Some(entry_hash)
    } else {
        None
    }
}

/// Stores a resource definition and returns its entity address.
pub fn create_resource_def(ledger: &mut Ledger, resource_def: ResourceDef) -> (r: Result<EntryHash, WeError>)
    requires
        old(ledger)@.wf(),
    ensures
        final(ledger)@.wf(),
        r.is_err() == old(ledger)@.entries_full(),
        match r {
            Ok(h) => {
                &&& h.0 == old(ledger)@.entries.len()
                &&& final(ledger)@.entries == old(ledger)@.entries.push(Entry::ResourceDef(resource_def))
                &&& final(ledger)@.links == old(ledger)@.links
            },
            Err(e) => e == WeError::WriteFailure && final(ledger)@ == old(ledger)@,
        },
{
    let (h, _a) = ledger.create_entry(Entry::ResourceDef(resource_def))?;
    Ok(h)
}

/// Stores a new revision of a resource definition; returns the revision's write.
pub fn update_resource_def(ledger: &mut Ledger, input: UpdateResourceDefInput) -> (r: Result<ActionHash, WeError>)
    requires
        old(ledger)@.wf(),
    ensures
        final(ledger)@.wf(),
        match r {
            Ok(a) => {
                &&& old(ledger)@.written_by(input.original_action_hash) is Some
                &&& a.0 == old(ledger)@.actions.len()
                &&& final(ledger)@.entries == old(ledger)@.entries.push(
                    Entry::ResourceDef(input.updated_resource_def),
                )
                &&& final(ledger)@.actions == old(ledger)@.actions.push(
                    crate::ledger::Action::Update {
                        original_action: input.original_action_hash,
                        original_entry: old(ledger)@.written_by(input.original_action_hash).unwrap(),
                        entry: EntryHash(old(ledger)@.entries.len() as usize),
                    },
                )
                &&& final(ledger)@.links == old(ledger)@.links
            },
            Err(e) => {
                &&& final(ledger)@ == old(ledger)@
                &&& e == if old(ledger)@.written_by(input.original_action_hash) is None {
                    WeError::NotFound
                } else {
                    WeError::WriteFailure
                }
                &&& (old(ledger)@.written_by(input.original_action_hash) is None || old(ledger)@.entries_full())
            },
        },
{
    let (_h, a) = ledger.update_entry(input.original_action_hash, Entry::ResourceDef(input.updated_resource_def))?;
    Ok(a)
}

/// Tombstones the resource definition written by `action_hash`.
pub fn delete_resource_def(ledger: &mut Ledger, action_hash: ActionHash) -> (r: Result<ActionHash, WeError>)
    requires
        old(ledger)@.wf(),
    ensures
        final(ledger)@.wf(),
        match r {
            Ok(a) => {
                &&& old(ledger)@.written_by(action_hash) matches Some(e)
                &&& final(ledger)@.has_delete(e)
                &&& a.0 == old(ledger)@.actions.len()
                &&& final(ledger)@.entries == old(ledger)@.entries
                &&& final(ledger)@.links == old(ledger)@.links
            },
            Err(e) => {
                &&& final(ledger)@ == old(ledger)@
                &&& e == if old(ledger)@.written_by(action_hash) is None {
                    WeError::NotFound
                } else {
                    WeError::WriteFailure
                }
                &&& (old(ledger)@.written_by(action_hash) is None || old(ledger)@.actions_full())
            },
        },
{
    let r = ledger.delete_entry(action_hash);
    proof {
        if let Ok(a) = r {
            assert(crate::ledger::deletes(ledger@.actions[a.0 as int], ledger@.actions[a.0 as int]->Delete_deleted_entry));
        }
    }
    r
}

} // verus!
