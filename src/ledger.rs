use vstd::prelude::*;
use crate::entry::{ActionHash, Entry, EntryHash};
use crate::error::WeError;

verus! {

/// One write in the store's log.
#[derive(Clone, Copy, Debug, PartialEq, Eq, Structural)]
pub enum Action {
    /// Stores a new entity.
    Create { entry: EntryHash },
    /// Stores a new revision of `original_entry`, written by `original_action`.
    Update { original_action: ActionHash, original_entry: EntryHash, entry: EntryHash },
    /// Tombstones the entity written by `deleted_action`.
    Delete { deleted_action: ActionHash, deleted_entry: EntryHash },
}

/// The kinds of edge the indices use.
#[derive(Clone, Copy, Debug, PartialEq, Eq, Structural)]
pub enum LinkType {
    Method,
    DimensionToMethod,
    AppletConfig,
    ResourceDefToAppletConfig,
    AssessmentTrayConfig,
    ResourceDefDefaultAssessmentTrayConfig,
    ResourceToAssessment,
    WidgetTrayConfig,
    ResourceDefDefaultWidgetTrayConfig,
}

/// The tag that tells apart edges of one type from one base.
#[derive(Clone, Copy, Debug, PartialEq, Eq, Structural)]
pub enum LinkTag {
    Empty,
    Input,
    Output,
    Dimension(EntryHash),
}

/// A directed, typed, tagged edge. A deleted edge stays in the log, marked.
#[derive(Clone, Copy, Debug, PartialEq, Eq, Structural)]
pub struct Link {
    pub base: EntryHash,
    pub target: EntryHash,
    pub link_type: LinkType,
    pub tag: LinkTag,
    pub deleted: bool,
}

/// What resolving an entity address gives.
#[derive(Clone, Copy, Debug, PartialEq, Eq, Structural)]
pub enum Resolution {
    /// The address holds no entity.
    Missing,
    /// The lineage ends in a tombstone.
    Absent,
    /// The lineage's current revision is stored at this address.
    Current(EntryHash),
}

/// The mathematical content of a store.
pub struct LedgerView {
    pub entries: Seq<Entry>,
    pub actions: Seq<Action>,
    pub links: Seq<Link>,
}

/// The last revision written over `e` in `actions`, if any.
pub open spec fn last_update_in(actions: Seq<Action>, e: EntryHash) -> Option<EntryHash>
    decreases actions.len(),
{
    if actions.len() == 0 {
        None
    } else {
        match actions.last() {
            Action::Update { original_entry, entry, .. } if original_entry == e => Some(entry),
            _ => last_update_in(actions.drop_last(), e),
        }
    }
}

/// Whether `a` tombstones `e`.
pub open spec fn deletes(a: Action, e: EntryHash) -> bool {
    match a {
        Action::Delete { deleted_entry, .. } => deleted_entry == e,
        _ => false,
    }
}

/// Whether `l` is a live edge from `base` of type `ty` carrying `tag` (any tag for `None`).
pub open spec fn link_matches(l: Link, base: EntryHash, ty: LinkType, tag: Option<LinkTag>) -> bool {
    &&& !l.deleted
    &&& l.base == base
    &&& l.link_type == ty
    &&& match tag {
        None => true,
        Some(t) => l.tag == t,
    }
}

/// Positions of the live matching edges in `links`, in insertion order.
pub open spec fn matching(links: Seq<Link>, base: EntryHash, ty: LinkType, tag: Option<LinkTag>) -> Seq<usize>
    decreases links.len(),
{
    if links.len() == 0 {
        Seq::empty()
    } else {
        let rest = matching(links.drop_last(), base, ty, tag);
        if link_matches(links.last(), base, ty, tag) {
            rest.push((links.len() - 1) as usize)
        } else {
            rest
        }
    }
}

impl LedgerView {
    pub open spec fn stored(self, e: EntryHash) -> bool {
        e.0 < self.entries.len()
    }

    pub open spec fn last_update(self, e: EntryHash) -> Option<EntryHash> {
        last_update_in(self.actions, e)
    }

    pub open spec fn has_delete(self, e: EntryHash) -> bool {
        exists|i: int| 0 <= i < self.actions.len() && deletes(#[trigger] self.actions[i], e)
    }

    /// Stored and not tombstoned.
    pub open spec fn live(self, e: EntryHash) -> bool {
        self.stored(e) && !self.has_delete(e)
    }

    /// The entity that the action at `a` wrote, if it wrote one.
    pub open spec fn written_by(self, a: ActionHash) -> Option<EntryHash> {
        if a.0 < self.actions.len() {
            match self.actions[a.0 as int] {
                Action::Create { entry } => Some(entry),
                Action::Update { entry, .. } => Some(entry),
                Action::Delete { .. } => None,
            }
        } else {
            None
        }
    }

    /// Every write refers to stored entities, and each revision is stored after
    /// the entity it revises, so lineages cannot loop.
    pub open spec fn wf(self) -> bool {
        &&& forall|i: int|
            0 <= i < self.actions.len() ==> match #[trigger] self.actions[i] {
                Action::Create { entry } => entry.0 < self.entries.len(),
                Action::Update { original_entry, entry, .. } => original_entry.0 < entry.0
                    < self.entries.len(),
                Action::Delete { deleted_entry, .. } => deleted_entry.0 < self.entries.len(),
            }
        &&& self.entries.len() < usize::MAX
        &&& self.links.len() < usize::MAX
    }

    /// The current state of the lineage that starts at `e`: follow the most
    /// recent revision while there is one; at the frontier a tombstone means absent.
    pub open spec fn resolved(self, e: EntryHash) -> Resolution
        decreases self.entries.len() - e.0,
    {
        if !self.stored(e) {
            Resolution::Missing
        } else {
            match self.last_update(e) {
                Some(n) => if e.0 < n.0 && self.stored(n) {
                    self.resolved(n)
                } else {
                    Resolution::Missing
                },
                None => if self.has_delete(e) {
                    Resolution::Absent
                } else {
                    Resolution::Current(e)
                },
            }
        }
    }

    /// The store can take `n` more entities and `m` more edges.
    pub open spec fn room(self, n: int, m: int) -> bool {
        &&& self.entries.len() + n < usize::MAX
        &&& self.actions.len() + n < usize::MAX
        &&& self.links.len() + m < usize::MAX
    }

    /// No further entity can be written.
    pub open spec fn entries_full(self) -> bool {
        self.entries.len() + 1 >= usize::MAX || self.actions.len() + 1 >= usize::MAX
    }

    /// No further tombstone can be written.
    pub open spec fn actions_full(self) -> bool {
        self.actions.len() + 1 >= usize::MAX
    }

    /// No further edge can be written.
    pub open spec fn links_full(self) -> bool {
        self.links.len() + 1 >= usize::MAX
    }

    /// Positions of the live edges from `base` of type `ty` with tag `tag`.
    pub open spec fn links_from(self, base: EntryHash, ty: LinkType, tag: Option<LinkTag>) -> Seq<usize> {
        matching(self.links, base, ty, tag)
    }

    /// Targets of the live edges from `base` of type `ty` with tag `tag`, in insertion order.
    pub open spec fn targets_from(self, base: EntryHash, ty: LinkType, tag: Option<LinkTag>) -> Seq<EntryHash> {
        self.links_from(base, ty, tag).map_values(|i: usize| self.links[i as int].target)
    }
}

/// An append-only store of entities, writes and links.
pub struct Ledger {
    entries: Vec<Entry>,
    actions: Vec<Action>,
    links: Vec<Link>,
}

impl Ledger {
    pub closed spec fn view(&self) -> LedgerView {
        LedgerView { entries: self.entries@, actions: self.actions@, links: self.links@ }
    }

    /// An empty store.
    pub fn new() -> (r: Ledger)
        ensures
            r@.entries.len() == 0,
            r@.actions.len() == 0,
            r@.links.len() == 0,
            r@.wf(),
    {
        Ledger { entries: Vec::new(), actions: Vec::new(), links: Vec::new() }
    }

    /// The content stored at `e`.
    pub fn entry(&self, e: EntryHash) -> (r: &Entry)
        requires
            self@.stored(e),
        ensures
            *r == self@.entries[e.0 as int],
    {
        &self.entries[e.0]
    }

    pub fn entry_count(&self) -> (r: usize)
        ensures
            r == self@.entries.len(),
    {
        self.entries.len()
    }

    pub fn link(&self, i: usize) -> (r: Link)
        requires
            i < self@.links.len(),
        ensures
            r == self@.links[i as int],
    {
        self.links[i]
    }

    /// Stores `content` as a new entity.
    pub fn create_entry(&mut self, content: Entry) -> (r: Result<(EntryHash, ActionHash), WeError>)
        requires
            old(self)@.wf(),
        ensures
            final(self)@.wf(),
            r.is_err() == old(self)@.entries_full(),
            match r {
                Ok((e, a)) => {
                    &&& e.0 == old(self)@.entries.len()
                    &&& a.0 == old(self)@.actions.len()
                    &&& final(self)@.entries == old(self)@.entries.push(content)
                    &&& final(self)@.actions == old(self)@.actions.push(Action::Create { entry: e })
                    &&& final(self)@.links == old(self)@.links
                },
                Err(err) => err == WeError::WriteFailure && final(self)@ == old(self)@,
            },
    {
        if self.entries.len() >= usize::MAX - 1 || self.actions.len() >= usize::MAX - 1 {
            return Err(WeError::WriteFailure);
        }
        let e = EntryHash(self.entries.len());
        let a = ActionHash(self.actions.len());
        self.entries.push(content);
        self.actions.push(Action::Create { entry: e });
        proof {
            lemma_push_action_wf(old(self)@, self@);
        }
        Ok((e, a))
    }

    /// The entity that the action at `a` wrote, if it wrote one.
    pub fn written_by(&self, a: ActionHash) -> (r: Option<EntryHash>)
        ensures
            r == self@.written_by(a),
    {
        if a.0 < self.actions.len() {
            match self.actions[a.0] {
                Action::Create { entry } => Some(entry),
                Action::Update { entry, .. } => Some(entry),
                Action::Delete { .. } => None,
            }
        } else {
            None
        }
    }

    /// Stores `content` as a new revision of the entity that `original_action` wrote.
    pub fn update_entry(&mut self, original_action: ActionHash, content: Entry) -> (r: Result<
        (EntryHash, ActionHash),
        WeError,
    >)
        requires
            old(self)@.wf(),
        ensures
            final(self)@.wf(),
            match r {
                Ok((e, a)) => {
                    &&& old(self)@.written_by(original_action) is Some
                    &&& !old(self)@.entries_full()
                    &&& e.0 == old(self)@.entries.len()
                    &&& a.0 == old(self)@.actions.len()
                    &&& final(self)@.entries == old(self)@.entries.push(content)
                    &&& final(self)@.actions == old(self)@.actions.push(
                        Action::Update {
                            original_action,
                            original_entry: old(self)@.written_by(original_action).unwrap(),
                            entry: e,
                        },
                    )
                    &&& final(self)@.links == old(self)@.links
                },
                Err(err) => {
                    &&& final(self)@ == old(self)@
                    &&& err == if old(self)@.written_by(original_action) is None {
                        WeError::NotFound
                    } else {
                        WeError::WriteFailure
                    }
                    &&& (old(self)@.written_by(original_action) is None || old(self)@.entries_full())
                },
            },
    {
        let original_entry = match self.written_by(original_action) {
            Some(o) => o,
            None => {
                return Err(WeError::NotFound);
            },
        };
        if self.entries.len() >= usize::MAX - 1 || self.actions.len() >= usize::MAX - 1 {
            return Err(WeError::WriteFailure);
        }
        let e = EntryHash(self.entries.len());
        let a = ActionHash(self.actions.len());
        proof {
            assert(original_entry.0 < self.entries@.len()) by {
                let _ = self@.actions[original_action.0 as int];
            }
        }
        self.entries.push(content);
        self.actions.push(Action::Update { original_action, original_entry, entry: e });
        proof {
            lemma_push_action_wf(old(self)@, self@);
        }
        Ok((e, a))
    }

    /// Tombstones the entity that `action` wrote.
    pub fn delete_entry(&mut self, action: ActionHash) -> (r: Result<ActionHash, WeError>)
        requires
            old(self)@.wf(),
        ensures
            final(self)@.wf(),
            match r {
                Ok(a) => {
                    &&& old(self)@.written_by(action) is Some
                    &&& !old(self)@.actions_full()
                    &&& a.0 == old(self)@.actions.len()
                    &&& final(self)@.entries == old(self)@.entries
                    &&& final(self)@.actions == old(self)@.actions.push(
                        Action::Delete {
                            deleted_action: action,
                            deleted_entry: old(self)@.written_by(action).unwrap(),
                        },
                    )
                    &&& final(self)@.links == old(self)@.links
                },
                Err(err) => {
                    &&& final(self)@ == old(self)@
                    &&& err == if old(self)@.written_by(action) is None {
                        WeError::NotFound
                    } else {
                        WeError::WriteFailure
                    }
                    &&& (old(self)@.written_by(action) is None || old(self)@.actions_full())
                },
            },
    {
        let deleted_entry = match self.written_by(action) {
            Some(o) => o,
            None => {
                return Err(WeError::NotFound);
            },
        };
        if self.actions.len() >= usize::MAX - 1 {
            return Err(WeError::WriteFailure);
        }
        let a = ActionHash(self.actions.len());
        proof {
            let _ = self@.actions[action.0 as int];
        }
        self.actions.push(Action::Delete { deleted_action: action, deleted_entry });
        proof {
            lemma_push_action_wf(old(self)@, self@);
        }
        Ok(a)
    }

    /// Adds an edge from `base` to `target`.
    pub fn create_link(&mut self, base: EntryHash, target: EntryHash, link_type: LinkType, tag: LinkTag) -> (r: Result<usize, WeError>)
        requires
            old(self)@.wf(),
        ensures
            final(self)@.wf(),
            r.is_err() == old(self)@.links_full(),
            match r {
                Ok(i) => {
                    &&& i == old(self)@.links.len()
                    &&& final(self)@.links == old(self)@.links.push(
                        Link { base, target, link_type, tag, deleted: false },
                    )
                    &&& final(self)@.entries == old(self)@.entries
                    &&& final(self)@.actions == old(self)@.actions
                },
                Err(err) => err == WeError::WriteFailure && final(self)@ == old(self)@,
            },
    {
        if self.links.len() >= usize::MAX - 1 {
            return Err(WeError::WriteFailure);
        }
        let i = self.links.len();
        self.links.push(Link { base, target, link_type, tag, deleted: false });
        Ok(i)
    }

    /// Marks the edge at position `i` deleted.
    pub fn delete_link(&mut self, i: usize) -> (r: Result<(), WeError>)
        requires
            old(self)@.wf(),
        ensures
            final(self)@.wf(),
            r.is_err() == (i >= old(self)@.links.len()),
            match r {
                Ok(_) => final(self)@.links == old(self)@.links.update(
                    i as int,
                    Link { deleted: true, ..old(self)@.links[i as int] },
                ),
                Err(err) => err == WeError::NotFound && final(self)@.links == old(self)@.links,
            },
            final(self)@.entries == old(self)@.entries,
            final(self)@.actions == old(self)@.actions,
    {
        if i >= self.links.len() {
            return Err(WeError::NotFound);
        }
        let l = self.links[i];
        self.links.set(i, Link { deleted: true, ..l });
        Ok(())
    }

    /// Positions of the live edges from `base` of type `link_type` with tag `tag`
    /// (any tag for `None`), in insertion order.
    pub fn get_links(&self, base: EntryHash, link_type: LinkType, tag: Option<LinkTag>) -> (r: Vec<usize>)
        ensures
            r@ == self@.links_from(base, link_type, tag),
    {
        let mut r: Vec<usize> = Vec::new();
        let mut i: usize = 0;
        while i < self.links.len()
            invariant
                i <= self.links@.len(),
                r@ == matching(self.links@.subrange(0, i as int), base, link_type, tag),
            decreases self.links@.len() - i,
        {
            let l = self.links[i];
            let ghost pre = self.links@.subrange(0, i as int);
            let ghost next = self.links@.subrange(0, i + 1);
            proof {
                assert(next.drop_last() =~= pre);
                assert(next.last() == l);
            }
            let matched = !l.deleted && l.base == base && l.link_type == link_type && match tag {
                None => true,
                Some(t) => l.tag == t,
            };
            if matched {
                r.push(i);
            }
            i = i + 1;
        }
        proof {
            assert(self.links@.subrange(0, self.links@.len() as int) =~= self.links@);
        }
        r
    }

    /// Targets of the live edges from `base` of type `link_type` with tag `tag`.
    pub fn get_link_targets(&self, base: EntryHash, link_type: LinkType, tag: Option<LinkTag>) -> (r: Vec<EntryHash>)
        ensures
            r@ == self@.targets_from(base, link_type, tag),
    {
        let idx = self.get_links(base, link_type, tag);
        let mut r: Vec<EntryHash> = Vec::new();
        let mut k: usize = 0;
        let _n = self.links.len();
        proof {
            lemma_matching_in_range(self@.links, base, link_type, tag);
        }
        while k < idx.len()
            invariant
                k <= idx@.len(),
                idx@ == self@.links_from(base, link_type, tag),
                forall|j: int| 0 <= j < idx@.len() ==> #[trigger] idx@[j] < self@.links.len(),
                r@ == idx@.subrange(0, k as int).map_values(|i: usize| self@.links[i as int].target),
            decreases idx@.len() - k,
        {
            r.push(self.links[idx[k]].target);
            k = k + 1;
            proof {
                assert(r@ =~= idx@.subrange(0, k as int).map_values(|i: usize| self@.links[i as int].target));
            }
        }
        proof {
            assert(idx@.subrange(0, idx@.len() as int) =~= idx@);
        }
        r
    }

    /// The most recent revision written over `e`, if any.
    pub fn last_update(&self, e: EntryHash) -> (r: Option<EntryHash>)
        ensures
            r == self@.last_update(e),
    {
        let mut r: Option<EntryHash> = None;
        let mut i: usize = 0;
        while i < self.actions.len()
            invariant
                i <= self.actions@.len(),
                r == last_update_in(self.actions@.subrange(0, i as int), e),
            decreases self.actions@.len() - i,
        {
            let ghost pre = self.actions@.subrange(0, i as int);
            let ghost next = self.actions@.subrange(0, i + 1);
            proof {
                assert(next.drop_last() =~= pre);
            }
            match self.actions[i] {
                Action::Update { original_entry, entry, .. } => {
                    if original_entry == e {
                        r = Some(entry);
                    }
                },
                _ => {},
            }
            i = i + 1;
        }
        proof {
            assert(self.actions@.subrange(0, self.actions@.len() as int) =~= self.actions@);
        }
        r
    }

    /// Whether any tombstone names `e`.
    pub fn has_delete(&self, e: EntryHash) -> (r: bool)
        ensures
            r == self@.has_delete(e),
    {
        let mut i: usize = 0;
        while i < self.actions.len()
            invariant
                i <= self.actions@.len(),
                forall|j: int| 0 <= j < i ==> !deletes(#[trigger] self.actions@[j], e),
            decreases self.actions@.len() - i,
        {
            match self.actions[i] {
                Action::Delete { deleted_entry, .. } => {
                    if deleted_entry == e {
                        assert(deletes(self@.actions[i as int], e));
                        return true;
                    }
                },
                _ => {},
            }
            i = i + 1;
        }
        false
    }

    /// Stored and not tombstoned.
    pub fn is_live(&self, e: EntryHash) -> (r: bool)
        ensures
            r == self@.live(e),
    {
        e.0 < self.entries.len() && !self.has_delete(e)
    }

    /// The current state of the lineage that starts at `e`.
    pub fn resolve_latest(&self, e: EntryHash) -> (r: Resolution)
        ensures
            r == self@.resolved(e),
    {
        let mut cur = e;
        loop
            invariant
                self@.resolved(e) == self@.resolved(cur),
            decreases self@.entries.len() - cur.0,
        {
            if cur.0 >= self.entries.len() {
                return Resolution::Missing;
            }
            match self.last_update(cur) {
                Some(n) => {
                    if cur.0 < n.0 && n.0 < self.entries.len() {
                        cur = n;
                    } else {
                        return Resolution::Missing;
                    }
                },
                None => {
                    if self.has_delete(cur) {
                        return Resolution::Absent;
                    } else {
                        return Resolution::Current(cur);
                    }
                },
            }
        }
    }
}

/// Appending one write whose references are stored keeps a store well-formed.
proof fn lemma_push_action_wf(old: LedgerView, new: LedgerView)
    requires
        old.wf(),
        new.actions.len() == old.actions.len() + 1,
        forall|i: int| 0 <= i < old.actions.len() ==> new.actions[i] == old.actions[i],
        new.entries.len() >= old.entries.len(),
        new.entries.len() < usize::MAX,
        new.links.len() < usize::MAX,
        match new.actions.last() {
            Action::Create { entry } => entry.0 < new.entries.len(),
            Action::Update { original_entry, entry, .. } => original_entry.0 < entry.0 < new.entries.len(),
            Action::Delete { deleted_entry, .. } => deleted_entry.0 < new.entries.len(),
        },
    ensures
        new.wf(),
{
    assert forall|i: int| 0 <= i < new.actions.len() implies match #[trigger] new.actions[i] {
        Action::Create { entry } => entry.0 < new.entries.len(),
        Action::Update { original_entry, entry, .. } => original_entry.0 < entry.0 < new.entries.len(),
        Action::Delete { deleted_entry, .. } => deleted_entry.0 < new.entries.len(),
    } by {
        if i < old.actions.len() {
            assert(new.actions[i] == old.actions[i]);
        }
    }
}

/// Every position that `matching` lists is a position of `links`.
pub proof fn lemma_matching_in_range(links: Seq<Link>, base: EntryHash, ty: LinkType, tag: Option<LinkTag>)
    requires
        links.len() <= usize::MAX,
    ensures
        forall|j: int|
            0 <= j < matching(links, base, ty, tag).len() ==> #[trigger] matching(links, base, ty, tag)[j]
                < links.len(),
    decreases links.len(),
{
    if links.len() > 0 {
        let rest = matching(links.drop_last(), base, ty, tag);
        lemma_matching_in_range(links.drop_last(), base, ty, tag);
        assert forall|j: int|
            0 <= j < matching(links, base, ty, tag).len() implies #[trigger] matching(
                links,
                base,
                ty,
                tag,
            )[j] < links.len() by {
            if j < rest.len() {
                assert(rest[j] < links.drop_last().len());
            }
        }
    }
}

} // verus!
