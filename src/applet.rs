use vstd::prelude::*;
use crate::entry::{
    AnchorName, AnchorRoot, AppletConfig, CulturalContext, Entry, EntryHash, NamedEntry, Range,
    ResourceDef,
};
use crate::named::{create_named, keeps_last, last_named, stored_as_last, Declaration};
use crate::error::WeError;
use crate::ledger::{matching, Ledger, LedgerView, Link, LinkTag, LinkType};
use crate::paths::{ensure_path, find_anchor};
use crate::versioning::{lemma_create_keeps_deletes, lemma_created_live};

verus! {

/// A declarative bundle: everything one applet registers under its name.
pub struct AppletConfigInput {
    pub name: String,
    pub applet_eh: EntryHash,
    pub ranges: Vec<Range>,
    pub resource_defs: Vec<ResourceDef>,
    pub cultural_contexts: Vec<CulturalContext>,
}

/// The name of the index of the configurations registered under `name`.
pub open spec fn applet_path(name: Seq<char>) -> (AnchorRoot, Seq<char>) {
    (AnchorRoot::AllApplets, name)
}

/// The configuration registered under `name`: the target of the most recent index
/// edge; absent when there is none; an error when that target is not a live
/// configuration.
pub open spec fn existing_applet(v: LedgerView, name: Seq<char>) -> Result<Option<EntryHash>, WeError> {
    match v.anchor(applet_path(name)) {
        None => Ok(None),
        Some(root) => {
            let ts = v.targets_from(root, LinkType::AppletConfig, None);
            if ts.len() == 0 {
                Ok(None)
            } else if !v.live(ts.last()) {
                Err(WeError::NotFound)
            } else if v.entries[ts.last().0 as int] is AppletConfig {
                Ok(Some(ts.last()))
            } else {
                Err(WeError::TypeMismatch)
            }
        },
    }
}

/// `c` binds each name declared in `config` to the entity stored for the last
/// declaration with that name, once per name; and every resource definition it
/// binds links back to the configuration stored at `h`.
pub open spec fn config_matches(v: LedgerView, c: AppletConfig, config: AppletConfigInput, h: EntryHash) -> bool {
    &&& c.name@ == config.name@
    &&& c.applet_eh == config.applet_eh
    &&& c.dimensions@.len() == 0
    &&& c.methods@.len() == 0
    &&& c.wf()
    &&& keeps_last(v, c.ranges@, config.ranges@)
    &&& keeps_last(v, c.resource_defs@, config.resource_defs@)
    &&& keeps_last(v, c.cultural_contexts@, config.cultural_contexts@)
    &&& forall|k: int|
        0 <= k < c.resource_defs@.len() ==> v.links.contains(
            Link {
                base: (#[trigger] c.resource_defs@[k]).address,
                target: h,
                link_type: LinkType::ResourceDefToAppletConfig,
                tag: LinkTag::Empty,
                deleted: false,
            },
        )
}

/// The store has room for every write that registering `config` makes: one entity per
/// declaration, the configuration and its path anchor; one edge per resource
/// definition and the index edge.
pub open spec fn bundle_room(v: LedgerView, config: AppletConfigInput) -> bool {
    v.room(
        (config.ranges@.len() + config.resource_defs@.len() + config.cultural_contexts@.len() + 2) as int,
        (config.resource_defs@.len() + 1) as int,
    )
}

/// `new` keeps every edge of `old` and adds none to a configuration index.
pub open spec fn nothing_indexed(old: LedgerView, new: LedgerView) -> bool {
    &&& new.links.len() >= old.links.len()
    &&& new.links.subrange(0, old.links.len() as int) == old.links
    &&& forall|j: int| old.links.len() <= j < new.links.len() ==> (#[trigger] new.links[j]).link_type
        != LinkType::AppletConfig
}

/// What `register_applet` does with `config`: returns the configuration already
/// registered under its name, writing nothing; or, when there is none, registers a new
/// one for the bundle and returns it.
pub open spec fn register_returns(
    old: LedgerView,
    new: LedgerView,
    config: AppletConfigInput,
    r: Result<EntryHash, WeError>,
) -> bool {
    match existing_applet(old, config.name@) {
        Err(e) => r == Err::<EntryHash, WeError>(e) && new == old,
        Ok(Some(c)) => r == Ok::<EntryHash, WeError>(c) && new == old,
        Ok(None) => match r {
            Ok(h) => {
                &&& h.0 >= old.entries.len()
                &&& new.entries[h.0 as int] matches Entry::AppletConfig(c) && config_matches(new, c, config, h)
                &&& existing_applet(new, config.name@) == Ok::<Option<EntryHash>, WeError>(Some(h))
            },
            Err(e) => {
                &&& e == WeError::WriteFailure
                &&& !bundle_room(old, config)
                &&& nothing_indexed(old, new)
            },
        },
    }
}

/// Registering twice under one name, with no other writer in between, returns the
/// same configuration both times, and the second registration writes nothing (the
/// second bundle's other contents are not looked at).
pub proof fn lemma_register_idempotent(
    v0: LedgerView,
    v1: LedgerView,
    v2: LedgerView,
    first: AppletConfigInput,
    second: AppletConfigInput,
    r1: Result<EntryHash, WeError>,
    r2: Result<EntryHash, WeError>,
)
    requires
        register_returns(v0, v1, first, r1),
        register_returns(v1, v2, second, r2),
        second.name@ == first.name@,
        r1 is Ok,
    ensures
        r2 == r1,
        v2 == v1,
{
}

/// The configuration registered under `applet_name`, if any.
pub fn check_if_applet_config_exists(ledger: &Ledger, applet_name: &String) -> (r: Result<
    Option<EntryHash>,
    WeError,
>)
    ensures
        r == existing_applet(ledger@, applet_name@),
{
    let name = AnchorName { root: AnchorRoot::AllApplets, leaf: applet_name.clone() };
    let root = match find_anchor(ledger, &name) {
        None => {
            return Ok(None);
        },
        Some(root) => root,
    };
    let ts = ledger.get_link_targets(root, LinkType::AppletConfig, None);
    if ts.len() == 0 {
        return Ok(None);
    }
    let last = ts[ts.len() - 1];
    if !ledger.is_live(last) {
        return Err(WeError::NotFound);
    }
    match ledger.entry(last) {
        Entry::AppletConfig(_) => Ok(Some(last)),
        _ => Err(WeError::TypeMismatch),
    }
}

/// Creates every entity that `config` declares, then the configuration that names
/// them, links each resource definition to it and, last, indexes it under its name.
/// A failure stops the registration: what was already written stays, but the
/// configuration is not indexed, so a later registration under the name starts afresh.
pub fn create_entries_from_applet_config(ledger: &mut Ledger, config: AppletConfigInput) -> (r: Result<
    EntryHash,
    WeError,
>)
    requires
        old(ledger)@.wf(),
    ensures
        final(ledger)@.wf(),
        match r {
            Ok(h) => {
                &&& h.0 >= old(ledger)@.entries.len()
                &&& final(ledger)@.entries[h.0 as int] matches Entry::AppletConfig(c) && config_matches(
                    final(ledger)@,
                    c,
                    config,
                    h,
                )
                &&& final(ledger)@.live(h)
                &&& final(ledger)@.anchor(applet_path(config.name@)) matches Some(root)
                    && final(ledger)@.targets_from(root, LinkType::AppletConfig, None).last() == h
                    && final(ledger)@.targets_from(root, LinkType::AppletConfig, None).len() > 0
            },
            Err(e) => {
                &&& e == WeError::WriteFailure
                &&& !bundle_room(old(ledger)@, config)
                &&& nothing_indexed(old(ledger)@, final(ledger)@)
            },
        },
{
    let ghost input = config;
    let ghost start = ledger@;
    proof {
        assert(start.links.subrange(0, start.links.len() as int) =~= start.links);
    }
    let ranges = create_named(ledger, config.ranges)?;
    let ghost e1 = ledger@;
    let resource_defs = create_named(ledger, config.resource_defs)?;
    let ghost e2 = ledger@;
    let cultural_contexts = create_named(ledger, config.cultural_contexts)?;
    let ghost e3 = ledger@;
    proof {
        lemma_keeps_last_grow(e1, e3, ranges@, input.ranges@);
        lemma_keeps_last_grow(e2, e3, resource_defs@, input.resource_defs@);
        assert(start.links.subrange(0, start.links.len() as int) =~= start.links);
    }
    let mut rd_hashes: Vec<EntryHash> = Vec::new();
    let mut k: usize = 0;
    while k < resource_defs.len()
        invariant
            k <= resource_defs@.len(),
            rd_hashes@.len() == k,
            forall|q: int| 0 <= q < k ==> #[trigger] rd_hashes@[q] == resource_defs@[q].address,
        decreases resource_defs@.len() - k,
    {
        rd_hashes.push(resource_defs[k].address);
        k = k + 1;
    }
    let name = config.name.clone();
    let applet_config = AppletConfig {
        name: config.name,
        applet_eh: config.applet_eh,
        ranges,
        dimensions: Vec::new(),
        resource_defs,
        methods: Vec::new(),
        cultural_contexts,
    };
    let (h, _a) = ledger.create_entry(Entry::AppletConfig(applet_config))?;
    let ghost after_create = ledger@;
    proof {
        lemma_created_live(e3, after_create, h);
        lemma_keeps_last_grow(e3, after_create, applet_config.ranges@, input.ranges@);
        lemma_keeps_last_grow(e3, after_create, applet_config.resource_defs@, input.resource_defs@);
        lemma_keeps_last_grow(e3, after_create, applet_config.cultural_contexts@, input.cultural_contexts@);
    }
    let anchor = AnchorName { root: AnchorRoot::AllApplets, leaf: name };
    let root = ensure_path(ledger, anchor)?;
    let ghost after_path = ledger@;
    proof {
        if after_path != after_create {
            lemma_create_keeps_deletes(after_create, after_path, after_path.actions.last()->Create_entry, h);
        }
        lemma_keeps_last_grow(after_create, after_path, applet_config.ranges@, input.ranges@);
        lemma_keeps_last_grow(after_create, after_path, applet_config.resource_defs@, input.resource_defs@);
        lemma_keeps_last_grow(after_create, after_path, applet_config.cultural_contexts@, input.cultural_contexts@);
    }
    let ghost base_len = after_path.links.len();
    let mut i: usize = 0;
    while i < rd_hashes.len()
        invariant
            start == old(ledger)@,
            input == config,
            ledger@.wf(),
            i <= rd_hashes@.len(),
            rd_hashes@.len() <= input.resource_defs@.len(),
            ledger@.entries == after_path.entries,
            ledger@.actions == after_path.actions,
            after_path.links == start.links,
            ledger@.links.len() == base_len + i,
            base_len == start.links.len(),
            ledger@.links.subrange(0, base_len as int) == start.links,
            forall|j: int| base_len <= j < ledger@.links.len() ==> (#[trigger] ledger@.links[j]).link_type
                == LinkType::ResourceDefToAppletConfig,
            forall|q: int| 0 <= q < i ==> #[trigger] ledger@.links[base_len + q] == (Link {
                base: rd_hashes@[q],
                target: h,
                link_type: LinkType::ResourceDefToAppletConfig,
                tag: LinkTag::Empty,
                deleted: false,
            }),
        decreases rd_hashes@.len() - i,
    {
        let ghost prev = ledger@.links;
        ledger.create_link(rd_hashes[i], h, LinkType::ResourceDefToAppletConfig, LinkTag::Empty)?;
        proof {
            assert(ledger@.links.subrange(0, base_len as int) =~= prev.subrange(0, base_len as int));
            assert forall|j: int| base_len <= j < ledger@.links.len() implies (#[trigger] ledger@.links[j]).link_type
                == LinkType::ResourceDefToAppletConfig by {
                if j < prev.len() {
                    assert(ledger@.links[j] == prev[j]);
                }
            }
            assert forall|q: int| 0 <= q < i + 1 implies #[trigger] ledger@.links[base_len + q] == (Link {
                base: rd_hashes@[q],
                target: h,
                link_type: LinkType::ResourceDefToAppletConfig,
                tag: LinkTag::Empty,
                deleted: false,
            }) by {
                if q < i {
                    assert(ledger@.links[base_len + q] == prev[base_len + q]);
                }
            }
        }
        i = i + 1;
    }
    let ghost linked = ledger@;
    ledger.create_link(root, h, LinkType::AppletConfig, LinkTag::Empty)?;
    proof {
        let v = ledger@;
        assert(v.links.drop_last() =~= linked.links);
        assert(v.entries[h.0 as int] == after_create.entries[h.0 as int]);
        let c = after_create.entries[h.0 as int]->AppletConfig_0;
        assert forall|q: int| 0 <= q < c.resource_defs@.len() implies v.links.contains(
            Link {
                base: (#[trigger] c.resource_defs@[q]).address,
                target: h,
                link_type: LinkType::ResourceDefToAppletConfig,
                tag: LinkTag::Empty,
                deleted: false,
            },
        ) by {
            assert(rd_hashes@[q] == c.resource_defs@[q].address);
            assert(v.links[base_len + q] == linked.links[base_len + q]);
        }
        let m = matching(v.links, root, LinkType::AppletConfig, None);
        assert(m.last() == (v.links.len() - 1) as usize);
    }
    Ok(h)
}

/// A store that only grows keeps every name binding it had.
proof fn lemma_keeps_last_grow<T: Declaration>(old: LedgerView, new: LedgerView, s: Seq<NamedEntry>, d: Seq<T>)
    requires
        keeps_last(old, s, d),
        new.entries.len() >= old.entries.len(),
        forall|j: int| 0 <= j < old.entries.len() ==> #[trigger] new.entries[j] == old.entries[j],
    ensures
        keeps_last(new, s, d),
{
    assert forall|k: int| 0 <= k < s.len() implies stored_as_last(new, #[trigger] s[k], d) by {
        assert(stored_as_last(old, s[k], d));
        let i = choose|i: int|
            #[trigger] last_named(d, i, s[k].name@) && s[k].address.0 < old.entries.len()
                && old.entries[s[k].address.0 as int] == d[i].as_entry();
        assert(last_named(d, i, s[k].name@));
        assert(new.entries[s[k].address.0 as int] == old.entries[s[k].address.0 as int]);
    }
}

/// Registers the bundle under its name unless a configuration is registered there
/// already, in which case that one is returned and nothing is written. Two writers
/// that register one name at once may both write a configuration; readers then take
/// the most recent.
pub fn register_applet(ledger: &mut Ledger, applet_config_input: AppletConfigInput) -> (r: Result<
    EntryHash,
    WeError,
>)
    requires
        old(ledger)@.wf(),
    ensures
        final(ledger)@.wf(),
        register_returns(old(ledger)@, final(ledger)@, applet_config_input, r),
{
    match check_if_applet_config_exists(ledger, &applet_config_input.name)? {
        Some(c) => Ok(c),
        None => {
            let ghost nm = applet_config_input.name@;
            let r = create_entries_from_applet_config(ledger, applet_config_input);
            proof {
                if let Ok(h) = r {
                    let v = ledger@;
                    let root = v.anchor(applet_path(nm))->Some_0;
                    let ts = v.targets_from(root, LinkType::AppletConfig, None);
                    assert(ts.last() == h);
                }
            }
            r
        },
    }
}

} // verus!
