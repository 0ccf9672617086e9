use vstd::prelude::*;
use crate::entry::{ActionHash, Entry, EntryHash};
use crate::ledger::{deletes, last_update_in, Action, LedgerView, Resolution};

verus! {

/// Appending a write that is not a revision of `y` leaves `y`'s latest revision as it was.
proof fn lemma_push_keeps_last_update(actions: Seq<Action>, a: Action, y: EntryHash)
    requires
        !(a matches Action::Update { original_entry, .. } && original_entry == y),
    ensures
        last_update_in(actions.push(a), y) == last_update_in(actions, y),
{
    assert(actions.push(a).drop_last() =~= actions);
}

/// Appending a revision of `c` makes it `c`'s latest revision.
proof fn lemma_push_update(actions: Seq<Action>, a: ActionHash, c: EntryHash, n: EntryHash)
    ensures
        last_update_in(actions.push(Action::Update { original_action: a, original_entry: c, entry: n }), c)
            == Some(n),
{
}

/// In a well-formed store, an entity stored after every existing write has neither
/// revisions nor tombstones.
proof fn lemma_fresh_unwritten(v: LedgerView, y: EntryHash)
    requires
        v.wf(),
        y.0 >= v.entries.len(),
    ensures
        last_update_in(v.actions, y) is None,
        !v.has_delete(y),
{
    lemma_no_update_in(v, v.actions, y);
    if v.has_delete(y) {
        let i = choose|i: int| 0 <= i < v.actions.len() && deletes(#[trigger] v.actions[i], y);
        let _ = v.actions[i];
    }
}

proof fn lemma_no_update_in(v: LedgerView, actions: Seq<Action>, y: EntryHash)
    requires
        v.wf(),
        y.0 >= v.entries.len(),
        actions.len() <= v.actions.len(),
        forall|i: int| 0 <= i < actions.len() ==> actions[i] == v.actions[i],
    ensures
        last_update_in(actions, y) is None,
    decreases actions.len(),
{
    if actions.len() > 0 {
        let _ = v.actions[actions.len() - 1];
        lemma_no_update_in(v, actions.drop_last(), y);
    }
}

/// If `new` keeps every stored entity of `old` and agrees with it on the revisions
/// and tombstones of every entity but `c`, then a lineage that reached `c` in `old`
/// resolves in `new` as `c` does.
proof fn lemma_frame(old: LedgerView, new: LedgerView, x: EntryHash, c: EntryHash)
    requires
        old.resolved(x) == Resolution::Current(c),
        new.entries.len() >= old.entries.len(),
        forall|y: EntryHash|
            y != c && old.stored(y) ==> #[trigger] new.last_update(y) == old.last_update(y)
                && new.has_delete(y) == old.has_delete(y),
    ensures
        new.resolved(x) == new.resolved(c),
    decreases old.entries.len() - x.0,
{
    if x != c {
        assert(old.stored(x));
        let n = old.last_update(x).unwrap();
        assert(new.last_update(x) == old.last_update(x));
        lemma_frame(old, new, n, c);
    }
}

/// An entity with no revision and no tombstone resolves to itself: its original content.
pub proof fn lemma_unrevised_resolves_to_original(v: LedgerView, e: EntryHash)
    requires
        v.stored(e),
        v.last_update(e) is None,
        !v.has_delete(e),
    ensures
        v.resolved(e) == Resolution::Current(e),
{
}

/// Revising the current revision `c` of a lineage moves every address of the lineage
/// to the new revision `n`, whose content is the revision's content. Applied once per
/// revision, a chain of revisions resolves to the last one.
pub proof fn lemma_revision_becomes_current(
    old: LedgerView,
    new: LedgerView,
    e: EntryHash,
    c: EntryHash,
    a: ActionHash,
    n: EntryHash,
    content: Entry,
)
    requires
        old.wf(),
        old.resolved(e) == Resolution::Current(c),
        n.0 == old.entries.len(),
        new.entries == old.entries.push(content),
        new.actions == old.actions.push(Action::Update { original_action: a, original_entry: c, entry: n }),
    ensures
        new.resolved(e) == Resolution::Current(n),
        new.entries[n.0 as int] == content,
{
    let u = Action::Update { original_action: a, original_entry: c, entry: n };
    assert forall|y: EntryHash| y != c && old.stored(y) implies #[trigger] new.last_update(y)
        == old.last_update(y) && new.has_delete(y) == old.has_delete(y) by {
        lemma_push_keeps_last_update(old.actions, u, y);
        if new.has_delete(y) {
            let i = choose|i: int| 0 <= i < new.actions.len() && deletes(#[trigger] new.actions[i], y);
            assert(old.actions[i] == new.actions[i]);
        }
        if old.has_delete(y) {
            let i = choose|i: int| 0 <= i < old.actions.len() && deletes(#[trigger] old.actions[i], y);
            assert(old.actions[i] == new.actions[i]);
        }
    }
    lemma_frame(old, new, e, c);
    lemma_resolved_stored(old, e);
    lemma_push_update(old.actions, a, c, n);
    lemma_fresh_unwritten(old, n);
    lemma_push_keeps_last_update(old.actions, u, n);
    if new.has_delete(n) {
        let i = choose|i: int| 0 <= i < new.actions.len() && deletes(#[trigger] new.actions[i], n);
        assert(old.actions[i] == new.actions[i]);
    }
    assert(new.resolved(n) == Resolution::Current(n));
}

/// A tombstone on the current revision `c` of a lineage makes the whole lineage absent.
pub proof fn lemma_tombstone_makes_absent(
    old: LedgerView,
    new: LedgerView,
    e: EntryHash,
    c: EntryHash,
    a: ActionHash,
)
    requires
        old.wf(),
        old.resolved(e) == Resolution::Current(c),
        new.entries == old.entries,
        new.actions == old.actions.push(Action::Delete { deleted_action: a, deleted_entry: c }),
    ensures
        new.resolved(e) == Resolution::Absent,
{
    let d = Action::Delete { deleted_action: a, deleted_entry: c };
    assert forall|y: EntryHash| y != c && old.stored(y) implies #[trigger] new.last_update(y)
        == old.last_update(y) && new.has_delete(y) == old.has_delete(y) by {
        lemma_push_keeps_last_update(old.actions, d, y);
        if new.has_delete(y) {
            let i = choose|i: int| 0 <= i < new.actions.len() && deletes(#[trigger] new.actions[i], y);
            assert(old.actions[i] == new.actions[i]);
        }
        if old.has_delete(y) {
            let i = choose|i: int| 0 <= i < old.actions.len() && deletes(#[trigger] old.actions[i], y);
            assert(old.actions[i] == new.actions[i]);
        }
    }
    lemma_frame(old, new, e, c);
    lemma_resolved_stored(old, e);
    lemma_push_keeps_last_update(old.actions, d, c);
    assert(deletes(new.actions[old.actions.len() as int], c));
}

/// The current revision of a lineage is stored, and has neither revision nor tombstone.
pub proof fn lemma_resolved_stored(v: LedgerView, e: EntryHash)
    requires
        v.resolved(e) is Current,
    ensures
        v.stored(v.resolved(e)->Current_0),
        v.last_update(v.resolved(e)->Current_0) is None,
        !v.has_delete(v.resolved(e)->Current_0),
    decreases v.entries.len() - e.0,
{
    if let Some(n) = v.last_update(e) {
        lemma_resolved_stored(v, n);
    }
}

/// Appending a create leaves every entity's tombstones as they were.
pub proof fn lemma_create_keeps_deletes(old: LedgerView, new: LedgerView, x: EntryHash, h: EntryHash)
    requires
        new.actions == old.actions.push(Action::Create { entry: x }),
    ensures
        new.has_delete(h) == old.has_delete(h),
{
    if new.has_delete(h) {
        let i = choose|i: int| 0 <= i < new.actions.len() && deletes(#[trigger] new.actions[i], h);
        assert(old.actions[i] == new.actions[i]);
    }
    if old.has_delete(h) {
        let i = choose|i: int| 0 <= i < old.actions.len() && deletes(#[trigger] old.actions[i], h);
        assert(old.actions[i] == new.actions[i]);
    }
}

/// A freshly created entity is live.
pub proof fn lemma_created_live(old: LedgerView, new: LedgerView, h: EntryHash)
    requires
        old.wf(),
        h.0 == old.entries.len(),
        new.entries.len() == old.entries.len() + 1,
        new.actions == old.actions.push(Action::Create { entry: h }),
    ensures
        new.live(h),
{
    lemma_fresh_unwritten(old, h);
    lemma_create_keeps_deletes(old, new, h, h);
}

/// The address at which the `k`-th revision of a chain starting at `e` is stored,
/// where `views[k]` is the store just before that revision (the origin for `k == 0`).
pub open spec fn chain_address(views: Seq<LedgerView>, e: EntryHash, k: int) -> EntryHash {
    if k == 0 {
        e
    } else {
        EntryHash(views[k - 1].entries.len() as usize)
    }
}

/// `views[k + 1]` is `views[k]` after the revision `contents[k]` of the previous revision
/// of the chain, for each step `k`.
pub open spec fn revision_chain(
    views: Seq<LedgerView>,
    e: EntryHash,
    actions: Seq<ActionHash>,
    contents: Seq<Entry>,
) -> bool {
    &&& views.len() == contents.len() + 1
    &&& actions.len() == contents.len()
    &&& forall|k: int| 0 <= k < views.len() ==> (#[trigger] views[k]).wf()
    &&& forall|k: int|
        0 <= k < contents.len() ==> {
            &&& (#[trigger] views[k + 1]).entries == views[k].entries.push(contents[k])
            &&& views[k + 1].actions == views[k].actions.push(
                Action::Update {
                    original_action: actions[k],
                    original_entry: chain_address(views, e, k),
                    entry: chain_address(views, e, k + 1),
                },
            )
        }
}

/// An entity with `N` chained revisions and no tombstone resolves to the `N`-th
/// revision's content, never an intermediate one.
pub proof fn lemma_revision_chain_resolves_to_last(
    views: Seq<LedgerView>,
    e: EntryHash,
    actions: Seq<ActionHash>,
    contents: Seq<Entry>,
)
    requires
        revision_chain(views, e, actions, contents),
        contents.len() > 0,
        views[0].stored(e),
        views[0].last_update(e) is None,
        !views[0].has_delete(e),
    ensures
        views.last().resolved(e) == Resolution::Current(chain_address(views, e, contents.len() as int)),
        views.last().entries[chain_address(views, e, contents.len() as int).0 as int] == contents.last(),
    decreases contents.len(),
{
    let n = contents.len() as int;
    let _ = views[n];
    let _ = views[n - 1];
    if n == 1 {
        let _ = views[0];
        lemma_unrevised_resolves_to_original(views[0], e);
    } else {
        let sub = views.subrange(0, n);
        let sub_actions = actions.subrange(0, n - 1);
        let sub_contents = contents.subrange(0, n - 1);
        assert forall|k: int| 0 <= k < sub.len() implies (#[trigger] sub[k]).wf() by {
            assert(sub[k] == views[k]);
        }
        assert forall|k: int| 0 <= k < sub_contents.len() implies {
            &&& (#[trigger] sub[k + 1]).entries == sub[k].entries.push(sub_contents[k])
            &&& sub[k + 1].actions == sub[k].actions.push(
                Action::Update {
                    original_action: sub_actions[k],
                    original_entry: chain_address(sub, e, k),
                    entry: chain_address(sub, e, k + 1),
                },
            )
        } by {
            let _ = views[k + 1];
            assert(sub[k + 1] == views[k + 1]);
            assert(sub[k] == views[k]);
            if k > 0 {
                assert(sub[k - 1] == views[k - 1]);
            }
        }
        lemma_revision_chain_resolves_to_last(sub, e, sub_actions, sub_contents);
        assert(sub.last() == views[n - 1]);
        assert(chain_address(sub, e, n - 1) == chain_address(views, e, n - 1)) by {
            if n - 1 > 0 {
                assert(sub[n - 2] == views[n - 2]);
            }
        }
    }
    lemma_revision_becomes_current(
        views[n - 1],
        views[n],
        e,
        chain_address(views, e, n - 1),
        actions[n - 1],
        chain_address(views, e, n),
        contents[n - 1],
    );
}

} // verus!
