use vstd::prelude::*;
use crate::entry::{AnchorName, AnchorRoot, Entry, EntryHash};
use crate::error::WeError;
use crate::ledger::{Ledger, LedgerView};

verus! {

/// Whether `e` is the anchor of the path `name`.
pub open spec fn is_anchor_for(e: Entry, name: (AnchorRoot, Seq<char>)) -> bool {
    match e {
        Entry::Anchor(a) => a@ == name,
        _ => false,
    }
}

/// The first anchor of the path `name` among `entries`, if any.
pub open spec fn first_anchor(entries: Seq<Entry>, name: (AnchorRoot, Seq<char>)) -> Option<EntryHash>
    decreases entries.len(),
{
    if entries.len() == 0 {
        None
    } else {
        match first_anchor(entries.drop_last(), name) {
            Some(h) => Some(h),
            None => if is_anchor_for(entries.last(), name) {
                Some(EntryHash((entries.len() - 1) as usize))
            } else {
                None
            },
        }
    }
}

impl LedgerView {
    /// The address that roots the index of the path `name`, once the path exists.
    pub open spec fn anchor(self, name: (AnchorRoot, Seq<char>)) -> Option<EntryHash> {
        first_anchor(self.entries, name)
    }
}

/// The anchor of the path `name`, if it has been created.
pub fn find_anchor(ledger: &Ledger, name: &AnchorName) -> (r: Option<EntryHash>)
    ensures
        r == ledger@.anchor(name@),
{
    let n = ledger.entry_count();
    let mut i: usize = 0;
    while i < n
        invariant
            n == ledger@.entries.len(),
            i <= n,
            first_anchor(ledger@.entries.subrange(0, i as int), name@) is None,
        decreases n - i,
    {
        let ghost pre = ledger@.entries.subrange(0, i as int);
        let ghost next = ledger@.entries.subrange(0, i + 1);
        proof {
            assert(next.drop_last() =~= pre);
        }
        let found = match ledger.entry(EntryHash(i)) {
            Entry::Anchor(a) => a.same_as(name),
            _ => false,
        };
        if found {
            proof {
                lemma_first_anchor_prefix(ledger@.entries, i + 1, name@);
            }
            return Some(EntryHash(i));
        }
        i = i + 1;
    }
    proof {
        assert(ledger@.entries.subrange(0, n as int) =~= ledger@.entries);
    }
    None
}

/// Once a prefix holds an anchor of the path, the whole sequence gives the same one.
proof fn lemma_first_anchor_prefix(entries: Seq<Entry>, k: int, name: (AnchorRoot, Seq<char>))
    requires
        0 <= k <= entries.len(),
        first_anchor(entries.subrange(0, k), name) is Some,
    ensures
        first_anchor(entries, name) == first_anchor(entries.subrange(0, k), name),
    decreases entries.len() - k,
{
    if k < entries.len() {
        assert(entries.subrange(0, k + 1).drop_last() =~= entries.subrange(0, k));
        lemma_first_anchor_prefix(entries, k + 1, name);
    } else {
        assert(entries.subrange(0, k) =~= entries);
    }
}

/// The anchor of the path `name`, created if it is not there yet.
pub fn ensure_path(ledger: &mut Ledger, name: AnchorName) -> (r: Result<EntryHash, WeError>)
    requires
        old(ledger)@.wf(),
    ensures
        final(ledger)@.wf(),
        final(ledger)@.links == old(ledger)@.links,
        match r {
            Ok(h) => {
                &&& final(ledger)@.anchor(name@) == Some(h)
                &&& old(ledger)@.anchor(name@) is Some ==> final(ledger)@ == old(ledger)@
                &&& old(ledger)@.anchor(name@) is None ==> {
                    &&& h.0 == old(ledger)@.entries.len()
                    &&& final(ledger)@.entries == old(ledger)@.entries.push(Entry::Anchor(name))
                    &&& final(ledger)@.actions == old(ledger)@.actions.push(
                        crate::ledger::Action::Create { entry: h },
                    )
                }
            },
            Err(err) => {
                &&& err == WeError::WriteFailure
                &&& old(ledger)@.anchor(name@) is None
                &&& old(ledger)@.entries_full()
                &&& final(ledger)@ == old(ledger)@
            },
        },
{
    match find_anchor(ledger, &name) {
        Some(h) => Ok(h),
        None => {
            let ghost old_entries = ledger@.entries;
            let ghost nm = name@;
            let (h, _a) = ledger.create_entry(Entry::Anchor(name))?;
            proof {
                assert(ledger@.entries.drop_last() =~= old_entries);
                assert(is_anchor_for(ledger@.entries.last(), nm));
            }
            Ok(h)
        },
    }
}

} // verus!
