use vstd::prelude::*;
use crate::entry::{CulturalContext, Entry, EntryHash, NamedEntry, Range, ResourceDef};
use crate::error::WeError;
use crate::ledger::{Ledger, LedgerView};

verus! {

/// A declaration in a bundle: it has a name and becomes one stored entity.
pub trait Declaration: Sized {
    spec fn decl_name(&self) -> Seq<char>;

    spec fn as_entry(&self) -> Entry;

    fn name_string(&self) -> (r: String)
        ensures
            r@ == self.decl_name(),
    ;

    fn into_entry(self) -> (r: Entry)
        ensures
            r == self.as_entry(),
    ;
}

impl Declaration for Range {
    open spec fn decl_name(&self) -> Seq<char> {
        self.name@
    }

    open spec fn as_entry(&self) -> Entry {
        Entry::Range(*self)
    }

    fn name_string(&self) -> (r: String) {
        self.name.clone()
    }

    fn into_entry(self) -> (r: Entry) {
        Entry::Range(self)
    }
}

impl Declaration for ResourceDef {
    open spec fn decl_name(&self) -> Seq<char> {
        self.resource_name@
    }

    open spec fn as_entry(&self) -> Entry {
        Entry::ResourceDef(*self)
    }

    fn name_string(&self) -> (r: String) {
        self.resource_name.clone()
    }

    fn into_entry(self) -> (r: Entry) {
        Entry::ResourceDef(self)
    }
}

impl Declaration for CulturalContext {
    open spec fn decl_name(&self) -> Seq<char> {
        self.name@
    }

    open spec fn as_entry(&self) -> Entry {
        Entry::CulturalContext(*self)
    }

    fn name_string(&self) -> (r: String) {
        self.name.clone()
    }

    fn into_entry(self) -> (r: Entry) {
        Entry::CulturalContext(self)
    }
}

/// No name occurs twice.
pub open spec fn names_unique(s: Seq<NamedEntry>) -> bool {
    forall|i: int, j: int| 0 <= i < j < s.len() ==> (#[trigger] s[i]).name@ != (#[trigger] s[j]).name@
}

/// `i` is the last declaration in `d` named `n`.
pub open spec fn last_named<T: Declaration>(d: Seq<T>, i: int, n: Seq<char>) -> bool {
    &&& 0 <= i < d.len()
    &&& d[i].decl_name() == n
    &&& forall|i2: int| i < i2 < d.len() ==> (#[trigger] d[i2]).decl_name() != n
}

/// `e` names the stored entity of the last declaration in `d` with its name.
pub open spec fn stored_as_last<T: Declaration>(v: LedgerView, e: NamedEntry, d: Seq<T>) -> bool {
    exists|i: int|
        #[trigger] last_named(d, i, e.name@) && e.address.0 < v.entries.len() && v.entries[e.address.0 as int]
            == d[i].as_entry()
}

/// Some entry of `s` is named `n`.
pub open spec fn names_bound(s: Seq<NamedEntry>, n: Seq<char>) -> bool {
    exists|k: int| 0 <= k < s.len() && #[trigger] s[k].name@ == n
}

/// `s` maps each name declared in `d` to the stored entity of the last declaration
/// with that name, one entry per name.
pub open spec fn keeps_last<T: Declaration>(v: LedgerView, s: Seq<NamedEntry>, d: Seq<T>) -> bool {
    &&& names_unique(s)
    &&& forall|k: int| 0 <= k < s.len() ==> stored_as_last(v, #[trigger] s[k], d)
    &&& forall|i: int| 0 <= i < d.len() ==> names_bound(s, (#[trigger] d[i]).decl_name())
}

/// Binds `name` to `address` in `list`, replacing an earlier binding of that name.
fn insert_named(list: &mut Vec<NamedEntry>, name: String, address: EntryHash)
    requires
        names_unique(old(list)@),
    ensures
        names_unique(final(list)@),
        final(list)@.len() <= old(list)@.len() + 1,
        exists|k: int| 0 <= k < final(list)@.len() && #[trigger] final(list)@[k].name@ == name@,
        forall|k: int| 0 <= k < final(list)@.len() && (#[trigger] final(list)@[k]).name@ == name@ ==> final(list)@[k].address
            == address,
        forall|k: int|
            0 <= k < final(list)@.len() && (#[trigger] final(list)@[k]).name@ != name@ ==> exists|k0: int|
                0 <= k0 < old(list)@.len() && #[trigger] old(list)@[k0] == final(list)@[k],
        forall|k0: int|
            0 <= k0 < old(list)@.len() && (#[trigger] old(list)@[k0]).name@ != name@ ==> exists|k: int|
                0 <= k < final(list)@.len() && #[trigger] final(list)@[k] == old(list)@[k0],
{
    let ghost n = name@;
    let mut j: usize = 0;
    while j < list.len()
        invariant
            j <= list@.len(),
            n == name@,
            list@ == old(list)@,
            names_unique(list@),
            forall|q: int| 0 <= q < j ==> (#[trigger] list@[q]).name@ != n,
        decreases list@.len() - j,
    {
        if list[j].name == name {
            let ghost before = list@;
            list.set(j, NamedEntry { name, address });
            proof {
                assert(list@[j as int].name@ == n);
                assert forall|a: int, b: int| 0 <= a < b < list@.len() implies (#[trigger] list@[a]).name@ != (#[trigger] list@[b]).name@ by {
                    assert(before[a].name@ != before[b].name@);
                }
                assert forall|k: int| 0 <= k < list@.len() && (#[trigger] list@[k]).name@ != n implies exists|k0: int|
                    0 <= k0 < before.len() && #[trigger] before[k0] == list@[k] by {
                    assert(before[k] == list@[k]);
                }
                assert forall|k0: int| 0 <= k0 < before.len() && (#[trigger] before[k0]).name@ != n implies exists|k: int|
                    0 <= k < list@.len() && #[trigger] list@[k] == before[k0] by {
                    assert(before[k0] == list@[k0]);
                }
            }
            return;
        }
        j = j + 1;
    }
    let ghost before = list@;
    list.push(NamedEntry { name, address });
    proof {
        let last = before.len() as int;
        assert(list@[last].name@ == n);
        assert forall|a: int, b: int| 0 <= a < b < list@.len() implies (#[trigger] list@[a]).name@ != (#[trigger] list@[b]).name@ by {
            if b < last {
                assert(before[a].name@ != before[b].name@);
            } else {
                assert(list@[a] == before[a]);
            }
        }
        assert forall|k: int| 0 <= k < list@.len() && (#[trigger] list@[k]).name@ != n implies exists|k0: int|
            0 <= k0 < before.len() && #[trigger] before[k0] == list@[k] by {
            assert(before[k] == list@[k]);
        }
        assert forall|k0: int| 0 <= k0 < before.len() && (#[trigger] before[k0]).name@ != n implies exists|k: int|
            0 <= k < list@.len() && #[trigger] list@[k] == before[k0] by {
            assert(before[k0] == list@[k0]);
        }
    }
}

/// Stores each declaration of `items` in turn and returns, for each declared name,
/// the address of the last declaration with that name.
pub fn create_named<T: Declaration>(ledger: &mut Ledger, items: Vec<T>) -> (r: Result<Vec<NamedEntry>, WeError>)
    requires
        old(ledger)@.wf(),
    ensures
        final(ledger)@.wf(),
        final(ledger)@.entries.len() >= old(ledger)@.entries.len(),
        forall|j: int| 0 <= j < old(ledger)@.entries.len() ==> #[trigger] final(ledger)@.entries[j] == old(ledger)@.entries[j],
        final(ledger)@.links == old(ledger)@.links,
        match r {
            Ok(out) => {
                &&& final(ledger)@.entries.len() == old(ledger)@.entries.len() + items@.len()
                &&& final(ledger)@.actions.len() == old(ledger)@.actions.len() + items@.len()
                &&& out@.len() <= items@.len()
                &&& keeps_last(final(ledger)@, out@, items@)
            },
            Err(e) => e == WeError::WriteFailure && !old(ledger)@.room(items@.len() as int, 0),
        },
{
    let ghost orig = items@;
    let ghost start = ledger@;
    let mut rest = items;
    let mut out: Vec<NamedEntry> = Vec::new();
    let mut p: usize = 0;
    while rest.len() > 0
        invariant
            start == old(ledger)@,
            orig == items@,
            ledger@.wf(),
            p + rest@.len() == orig.len(),
            rest@ == orig.subrange(p as int, orig.len() as int),
            ledger@.entries.len() == start.entries.len() + p,
            ledger@.actions.len() == start.actions.len() + p,
            forall|j: int| 0 <= j < start.entries.len() ==> #[trigger] ledger@.entries[j] == start.entries[j],
            ledger@.links == start.links,
            out@.len() <= p,
            keeps_last(ledger@, out@, orig.subrange(0, p as int)),
        decreases rest@.len(),
    {
        let ghost before = ledger@;
        let ghost out0 = out@;
        let ghost d0 = orig.subrange(0, p as int);
        let item = rest.remove(0);
        let name = item.name_string();
        let (h, _a) = ledger.create_entry(item.into_entry())?;
        insert_named(&mut out, name, h);
        p = p + 1;
        proof {
            let d = orig.subrange(0, p as int);
            let n = name@;
            assert(rest@ =~= orig.subrange(p as int, orig.len() as int));
            assert(d[p - 1] == orig[p - 1]);
            assert forall|i: int| 0 <= i < d0.len() implies #[trigger] d[i] == d0[i] by {}
            assert(item == orig[p - 1]);
            assert forall|k: int| 0 <= k < out@.len() implies stored_as_last(ledger@, #[trigger] out@[k], d) by {
                if out@[k].name@ == n {
                    assert(last_named(d, p - 1, n));
                    assert(ledger@.entries[h.0 as int] == d[p - 1].as_entry());
                } else {
                    let k0 = choose|k0: int| 0 <= k0 < out0.len() && #[trigger] out0[k0] == out@[k];
                    assert(stored_as_last(before, out0[k0], d0));
                    let i = choose|i: int|
                        #[trigger] last_named(d0, i, out0[k0].name@) && out0[k0].address.0 < before.entries.len()
                            && before.entries[out0[k0].address.0 as int] == d0[i].as_entry();
                    assert(ledger@.entries[out0[k0].address.0 as int] == before.entries[out0[k0].address.0 as int]);
                    assert(d[i] == d0[i]);
                    assert forall|i2: int| i < i2 < d.len() implies (#[trigger] d[i2]).decl_name() != out@[k].name@ by {
                        if i2 < d0.len() {
                            assert(d[i2] == d0[i2]);
                        }
                    }
                    assert(last_named(d, i, out@[k].name@));
                }
            }
            assert forall|i: int| 0 <= i < d.len() implies names_bound(out@, (#[trigger] d[i]).decl_name()) by {
                if d[i].decl_name() == n {
                } else {
                    assert(d[i] == d0[i]);
                    assert(names_bound(out0, d0[i].decl_name()));
                    let k0 = choose|k0: int| 0 <= k0 < out0.len() && #[trigger] out0[k0].name@ == d0[i].decl_name();
                    let k = choose|k: int| 0 <= k < out@.len() && #[trigger] out@[k] == out0[k0];
                    assert(out@[k].name@ == d[i].decl_name());
                }
            }
        }
    }
    proof {
        assert(orig.subrange(0, p as int) =~= orig);
    }
    Ok(out)
}

} // verus!
