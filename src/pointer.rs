use vstd::prelude::*;
use crate::entry::EntryHash;
use crate::error::WeError;
use crate::ledger::{link_matches, matching, Ledger, LedgerView, Link, LinkTag, LinkType};

verus! {

/// The pointer of `key`: the first live edge of type `ty`'s target. Several edges may
/// exist after concurrent writers; the first one wins and the others are ignored.
pub open spec fn pointer_target(v: LedgerView, key: EntryHash, ty: LinkType) -> Option<EntryHash> {
    let ts = v.targets_from(key, ty, None);
    if ts.len() == 0 {
        None
    } else {
        Some(ts[0])
    }
}

/// The pointer of `key` for edges of type `ty`.
pub fn get_pointer(ledger: &Ledger, key: EntryHash, ty: LinkType) -> (r: Option<EntryHash>)
    ensures
        r == pointer_target(ledger@, key, ty),
{
    let ts = ledger.get_link_targets(key, ty, None);
    if ts.len() == 0 {
        None
    } else {
        Some(ts[0])
    }
}

/// `l` with its deletion mark set when it is a live pointer edge of type `ty` from `key`.
pub open spec fn cleared(l: Link, key: EntryHash, ty: LinkType) -> Link {
    if link_matches(l, key, ty, None) {
        Link { deleted: true, ..l }
    } else {
        l
    }
}

/// `new` is `old` after every pointer edge of type `ty` from `key` was deleted and one
/// such edge from `key` to `target` was added.
pub open spec fn pointer_replaced(old: LedgerView, new: LedgerView, key: EntryHash, ty: LinkType, target: EntryHash) -> bool {
    &&& new.entries == old.entries
    &&& new.actions == old.actions
    &&& new.links.len() == old.links.len() + 1
    &&& forall|j: int| 0 <= j < old.links.len() ==> #[trigger] new.links[j] == cleared(old.links[j], key, ty)
    &&& new.links.last() == (Link {
        base: key,
        target,
        link_type: ty,
        tag: LinkTag::Empty,
        deleted: false,
    })
}

/// With no live matching edge, nothing matches.
proof fn lemma_no_match(links: Seq<Link>, base: EntryHash, ty: LinkType, tag: Option<LinkTag>)
    requires
        forall|j: int| 0 <= j < links.len() ==> !link_matches(#[trigger] links[j], base, ty, tag),
    ensures
        matching(links, base, ty, tag) == Seq::<usize>::empty(),
    decreases links.len(),
{
    if links.len() > 0 {
        let _ = links[links.len() - 1];
        lemma_no_match(links.drop_last(), base, ty, tag);
    }
}

/// After a pointer is replaced, the pointer of its key is the new target: a read right
/// after a write, with no writer in between, sees the target just written.
pub proof fn lemma_pointer_read_after_write(old: LedgerView, new: LedgerView, key: EntryHash, ty: LinkType, target: EntryHash)
    requires
        new.wf(),
        pointer_replaced(old, new, key, ty, target),
    ensures
        pointer_target(new, key, ty) == Some(target),
{
    let pre = new.links.drop_last();
    assert forall|j: int| 0 <= j < pre.len() implies !link_matches(#[trigger] pre[j], key, ty, None) by {
        assert(new.links[j] == cleared(old.links[j], key, ty));
    }
    lemma_no_match(pre, key, ty, None);
    let m = matching(new.links, key, ty, None);
    assert(m =~= seq![(new.links.len() - 1) as usize]);
    assert(new.links[new.links.len() - 1] == new.links.last());
    assert(new.targets_from(key, ty, None).len() == 1);
    assert(new.targets_from(key, ty, None)[0] == target);
    assert(new.targets_from(key, ty, None) =~= seq![target]);
}


/// Deletes every pointer edge of type `ty` from `key`, then adds one to `target`.
/// Not atomic: between the deletes and the create another writer may add its own
/// edge, leaving two pointers, or read none for a moment.
pub fn replace_pointer(ledger: &mut Ledger, key: EntryHash, ty: LinkType, target: EntryHash) -> (r: Result<(), WeError>)
    requires
        old(ledger)@.wf(),
    ensures
        final(ledger)@.wf(),
        match r {
            Ok(_) => {
                &&& pointer_replaced(old(ledger)@, final(ledger)@, key, ty, target)
                &&& pointer_target(final(ledger)@, key, ty) == Some(target)
            },
            Err(e) => {
                &&& e == WeError::WriteFailure
                &&& old(ledger)@.links_full()
                &&& final(ledger)@.entries == old(ledger)@.entries
                &&& final(ledger)@.actions == old(ledger)@.actions
                &&& final(ledger)@.links.len() == old(ledger)@.links.len()
                &&& forall|j: int| 0 <= j < old(ledger)@.links.len() ==> #[trigger] final(ledger)@.links[j]
                    == cleared(old(ledger)@.links[j], key, ty)
            },
        },
{
    let existing = ledger.get_links(key, ty, None);
    let ghost start = ledger@;
    proof {
        lemma_matching_complete(start.links, key, ty, None);
    }
    let mut k: usize = 0;
    while k < existing.len()
        invariant
            ledger@.wf(),
            existing@ == start.links_from(key, ty, None),
            forall|j: int| 0 <= j < start.links.len() && link_matches(#[trigger] start.links[j], key, ty, None)
                ==> existing@.contains(j as usize),
            forall|m: int| 0 <= m < existing@.len() ==> #[trigger] existing@[m] < start.links.len()
                && link_matches(start.links[existing@[m] as int], key, ty, None),
            k <= existing@.len(),
            ledger@.entries == start.entries,
            ledger@.actions == start.actions,
            ledger@.links.len() == start.links.len(),
            forall|j: int| 0 <= j < start.links.len() ==> #[trigger] ledger@.links[j] == if existing@.subrange(0, k as int).contains(j as usize) {
                cleared(start.links[j], key, ty)
            } else {
                start.links[j]
            },
        decreases existing@.len() - k,
    {
        let at = existing[k];
        let ghost before = ledger@;
        let _ = ledger.delete_link(at);
        k = k + 1;
        proof {
            assert(ledger@.links == before.links.update(
                at as int,
                Link { deleted: true, ..before.links[at as int] },
            ));
            assert forall|j: int| 0 <= j < start.links.len() implies #[trigger] ledger@.links[j] == if existing@.subrange(0, k as int).contains(j as usize) {
                cleared(start.links[j], key, ty)
            } else {
                start.links[j]
            } by {
                let prev = existing@.subrange(0, k - 1);
                let cur = existing@.subrange(0, k as int);
                assert(link_matches(start.links[at as int], key, ty, None));
                assert(before.links[j] == if prev.contains(j as usize) {
                    cleared(start.links[j], key, ty)
                } else {
                    start.links[j]
                });
                if j == at as int {
                    assert(cur[k - 1] == at);
                    assert(cur.contains(j as usize));
                    assert(ledger@.links[j] == Link { deleted: true, ..before.links[j] });
                    assert(link_matches(start.links[j], key, ty, None));
                    assert(cleared(start.links[j], key, ty) == Link { deleted: true, ..start.links[j] });
                    if prev.contains(j as usize) {
                        assert(before.links[j] == cleared(start.links[j], key, ty));
                    } else {
                        assert(before.links[j] == start.links[j]);
                    }
                    assert(ledger@.links[j] == cleared(start.links[j], key, ty));
                } else {
                    assert(ledger@.links[j] == before.links[j]);
                    if cur.contains(j as usize) {
                        let m = choose|m: int| 0 <= m < cur.len() && #[trigger] cur[m] == j as usize;
                        if m == k - 1 {
                            assert(cur[m] == at);
                        }
                        assert(prev[m] == j as usize);
                    }
                    if prev.contains(j as usize) {
                        let m = choose|m: int| 0 <= m < prev.len() && #[trigger] prev[m] == j as usize;
                        assert(cur[m] == j as usize);
                    }
                }
            }
        }
    }
    proof {
        assert(existing@.subrange(0, existing@.len() as int) =~= existing@);
        assert forall|j: int| 0 <= j < start.links.len() implies #[trigger] ledger@.links[j] == cleared(start.links[j], key, ty) by {
            if !existing@.contains(j as usize) {
                assert(!link_matches(start.links[j], key, ty, None));
            }
        }
    }
    let ghost cleared_links = ledger@.links;
    let _l = ledger.create_link(key, target, ty, LinkTag::Empty)?;
    proof {
        assert forall|j: int| 0 <= j < start.links.len() implies #[trigger] ledger@.links[j] == cleared(start.links[j], key, ty) by {
            assert(ledger@.links[j] == cleared_links[j]);
        }
        lemma_pointer_read_after_write(start, ledger@, key, ty, target);
    }
    Ok(())
}


/// `matching` lists exactly the positions of the live matching edges.
pub proof fn lemma_matching_complete(links: Seq<Link>, base: EntryHash, ty: LinkType, tag: Option<LinkTag>)
    requires
        links.len() <= usize::MAX,
    ensures
        forall|j: int| 0 <= j < links.len() && link_matches(#[trigger] links[j], base, ty, tag)
            ==> matching(links, base, ty, tag).contains(j as usize),
        forall|m: int| 0 <= m < matching(links, base, ty, tag).len() ==> #[trigger] matching(links, base, ty, tag)[m]
            < links.len() && link_matches(links[matching(links, base, ty, tag)[m] as int], base, ty, tag),
    decreases links.len(),
{
    if links.len() > 0 {
        let pre = links.drop_last();
        lemma_matching_complete(pre, base, ty, tag);
        let rest = matching(pre, base, ty, tag);
        let m = matching(links, base, ty, tag);
        assert forall|j: int| 0 <= j < links.len() && link_matches(#[trigger] links[j], base, ty, tag)
            implies m.contains(j as usize) by {
            if j < links.len() - 1 {
                assert(pre[j] == links[j]);
                let q = choose|q: int| 0 <= q < rest.len() && rest[q] == j as usize;
                assert(m[q] == j as usize);
            } else {
                assert(m[m.len() - 1] == j as usize);
            }
        }
        assert forall|q: int| 0 <= q < m.len() implies #[trigger] m[q] < links.len() && link_matches(
            links[m[q] as int],
            base,
            ty,
            tag,
        ) by {
            if q < rest.len() {
                assert(m[q] == rest[q]);
                assert(pre[rest[q] as int] == links[rest[q] as int]);
            }
        }
    }
}


} // verus!
