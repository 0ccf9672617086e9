use vstd::prelude::*;
use crate::compute::{aggregate, compute_objective_assessment, Aggregate};
use crate::entry::{
    ActionHash, AnchorName, AnchorRoot, Assessment, Entry, EntryHash, Method, RangeValue,
};
use crate::error::WeError;
use crate::ledger::{Ledger, LedgerView, Link, LinkTag, LinkType};
use crate::paths::{ensure_path, find_anchor};
use crate::versioning::{lemma_create_keeps_deletes, lemma_created_live};

verus! {

/// Which side of a method a dimension stands on.
#[derive(Clone, Copy, Debug, PartialEq, Eq, Structural)]
pub enum DimensionRole {
    Input,
    Output,
}

impl DimensionRole {
    /// Reads "input" or "output".
    pub fn parse(s: &String) -> (r: Option<DimensionRole>)
        ensures
            r == (if s@ == "input"@ {
                Some(DimensionRole::Input)
            } else if s@ == "output"@ {
                Some(DimensionRole::Output)
            } else {
                None::<DimensionRole>
            }),
    {
        let input = "input".to_owned();
        let output = "output".to_owned();
        if *s == input {
            Some(DimensionRole::Input)
        } else if *s == output {
            Some(DimensionRole::Output)
        } else {
            None
        }
    }

    /// The tag of the edges from a dimension to the methods that use it in this role.
    pub fn tag(self) -> (r: LinkTag)
        ensures
            r == role_tag(self),
    {
        match self {
            DimensionRole::Input => LinkTag::Input,
            DimensionRole::Output => LinkTag::Output,
        }
    }
}

pub open spec fn role_tag(role: DimensionRole) -> LinkTag {
    match role {
        DimensionRole::Input => LinkTag::Input,
        DimensionRole::Output => LinkTag::Output,
    }
}

/// Whether `m` declares `d` in `role`.
pub open spec fn declares(m: Method, d: EntryHash, role: DimensionRole) -> bool {
    match role {
        DimensionRole::Input => m.input_dimension_ehs@.contains(d),
        DimensionRole::Output => m.output_dimension_eh == d,
    }
}

/// Whether `h` holds a live method that declares `d` in `role`.
pub open spec fn is_method_for(v: LedgerView, h: EntryHash, d: EntryHash, role: DimensionRole) -> bool {
    &&& v.live(h)
    &&& v.entries[h.0 as int] matches Entry::Method(m)
    &&& declares(m, d, role)
}

/// The addresses in `hs` that hold live methods declaring `d` in `role`, in order.
pub open spec fn methods_for(v: LedgerView, hs: Seq<EntryHash>, d: EntryHash, role: DimensionRole) -> Seq<EntryHash>
    decreases hs.len(),
{
    if hs.len() == 0 {
        Seq::empty()
    } else {
        let rest = methods_for(v, hs.drop_last(), d, role);
        if is_method_for(v, hs.last(), d, role) {
            rest.push(hs.last())
        } else {
            rest
        }
    }
}

/// The live addresses in `hs`, in order.
pub open spec fn live_only(v: LedgerView, hs: Seq<EntryHash>) -> Seq<EntryHash>
    decreases hs.len(),
{
    if hs.len() == 0 {
        Seq::empty()
    } else {
        let rest = live_only(v, hs.drop_last());
        if v.live(hs.last()) {
            rest.push(hs.last())
        } else {
            rest
        }
    }
}

/// The name of the index of every method.
pub open spec fn methods_path() -> (AnchorRoot, Seq<char>) {
    (AnchorRoot::Methods, Seq::empty())
}

/// Every live method listed in the index of methods.
pub open spec fn all_methods(v: LedgerView) -> Seq<EntryHash> {
    match v.anchor(methods_path()) {
        None => Seq::empty(),
        Some(root) => live_only(v, v.targets_from(root, LinkType::Method, None)),
    }
}

/// A dimension and the role in which methods should declare it.
pub struct QueryParams {
    pub dimension_type: String,
    pub dimension_eh: EntryHash,
}

/// A query for methods: by dimension, or every method when there is no query.
pub struct GetMethodsForDimensionInput {
    pub query: Option<QueryParams>,
}

/// What `get_methods_for_dimension` gives for a query on `d` in the role named `role`.
pub open spec fn methods_for_query(v: LedgerView, d: EntryHash, role: Seq<char>) -> Result<Seq<EntryHash>, WeError> {
    if !v.live(d) {
        Err(WeError::NotFound)
    } else if !(v.entries[d.0 as int] is Dimension) {
        Err(WeError::TypeMismatch)
    } else if role == "input"@ {
        Ok(methods_for(v, v.targets_from(d, LinkType::DimensionToMethod, Some(LinkTag::Input)), d, DimensionRole::Input))
    } else if role == "output"@ {
        Ok(methods_for(v, v.targets_from(d, LinkType::DimensionToMethod, Some(LinkTag::Output)), d, DimensionRole::Output))
    } else {
        Err(WeError::InvalidReference)
    }
}

/// The method stored at `entry_hash`, if it is live.
pub fn get_method(ledger: &Ledger, entry_hash: EntryHash) -> (r: Option<EntryHash>)
    ensures
        r == (if ledger@.live(entry_hash) {
            Some(entry_hash)
        } else {
            None::<EntryHash>
        }),
{
    if ledger.is_live(entry_hash) {
        Some(entry_hash)
    } else {
        None
    }
}

/// Whether `d` is among `ds`.
fn contains_hash(ds: &Vec<EntryHash>, d: EntryHash) -> (r: bool)
    ensures
        r == ds@.contains(d),
{
    let mut i: usize = 0;
    while i < ds.len()
        invariant
            i <= ds@.len(),
            forall|j: int| 0 <= j < i ==> ds@[j] != d,
        decreases ds@.len() - i,
    {
        if ds[i] == d {
            assert(ds@[i as int] == d);
            return true;
        }
        i = i + 1;
    }
    false
}

/// Whether `h` holds a live method that declares `d` in `role`.
fn check_method_for(ledger: &Ledger, h: EntryHash, d: EntryHash, role: DimensionRole) -> (r: bool)
    ensures
        r == is_method_for(ledger@, h, d, role),
{
    if !ledger.is_live(h) {
        return false;
    }
    match ledger.entry(h) {
        Entry::Method(m) => match role {
            DimensionRole::Input => contains_hash(&m.input_dimension_ehs, d),
            DimensionRole::Output => m.output_dimension_eh == d,
        },
        _ => false,
    }
}

/// Every live method in the index of methods, in index order.
pub fn get_methods(ledger: &Ledger) -> (r: Vec<EntryHash>)
    ensures
        r@ == all_methods(ledger@),
{
    let name = AnchorName { root: AnchorRoot::Methods, leaf: String::new() };
    proof {
        assert(name.leaf@ =~= Seq::<char>::empty());
        assert(name@ == methods_path());
    }
    let root = match find_anchor(ledger, &name) {
        None => {
            return Vec::new();
        },
        Some(root) => root,
    };
    let ts = ledger.get_link_targets(root, LinkType::Method, None);
    let mut out: Vec<EntryHash> = Vec::new();
    let mut i: usize = 0;
    while i < ts.len()
        invariant
            i <= ts@.len(),
            out@ == live_only(ledger@, ts@.subrange(0, i as int)),
        decreases ts@.len() - i,
    {
        proof {
            assert(ts@.subrange(0, i + 1).drop_last() =~= ts@.subrange(0, i as int));
        }
        if ledger.is_live(ts[i]) {
            out.push(ts[i]);
        }
        i = i + 1;
    }
    proof {
        assert(ts@.subrange(0, ts@.len() as int) =~= ts@);
    }
    out
}

/// The methods that declare the queried dimension in the queried role ("input" or
/// "output"), found through the dimension's edges and checked against each method's
/// own declaration; every method when there is no query.
pub fn get_methods_for_dimension(ledger: &Ledger, input: GetMethodsForDimensionInput) -> (r: Result<
    Vec<EntryHash>,
    WeError,
>)
    ensures
        match input.query {
            None => r == Ok::<Vec<EntryHash>, WeError>(r->Ok_0) && r->Ok_0@ == all_methods(ledger@),
            Some(q) => match r {
                Ok(v) => methods_for_query(ledger@, q.dimension_eh, q.dimension_type@) == Ok::<
                    Seq<EntryHash>,
                    WeError,
                >(v@),
                Err(e) => methods_for_query(ledger@, q.dimension_eh, q.dimension_type@) == Err::<
                    Seq<EntryHash>,
                    WeError,
                >(e),
            },
        },
        match (input.query, r) {
            (Some(q), Ok(v)) => forall|k: int|
                0 <= k < v@.len() ==> is_method_for(
                    ledger@,
                    #[trigger] v@[k],
                    q.dimension_eh,
                    if q.dimension_type@ == "input"@ {
                        DimensionRole::Input
                    } else {
                        DimensionRole::Output
                    },
                ),
            _ => true,
        },
{
    let q = match input.query {
        None => {
            return Ok(get_methods(ledger));
        },
        Some(q) => q,
    };
    let d = q.dimension_eh;
    if !ledger.is_live(d) {
        return Err(WeError::NotFound);
    }
    match ledger.entry(d) {
        Entry::Dimension(_) => {},
        _ => {
            return Err(WeError::TypeMismatch);
        },
    }
    let role = match DimensionRole::parse(&q.dimension_type) {
        None => {
            return Err(WeError::InvalidReference);
        },
        Some(role) => role,
    };
    let ts = ledger.get_link_targets(d, LinkType::DimensionToMethod, Some(role.tag()));
    let mut out: Vec<EntryHash> = Vec::new();
    let mut i: usize = 0;
    while i < ts.len()
        invariant
            i <= ts@.len(),
            out@ == methods_for(ledger@, ts@.subrange(0, i as int), d, role),
            forall|k: int| 0 <= k < out@.len() ==> is_method_for(ledger@, #[trigger] out@[k], d, role),
        decreases ts@.len() - i,
    {
        proof {
            assert(ts@.subrange(0, i + 1).drop_last() =~= ts@.subrange(0, i as int));
        }
        if check_method_for(ledger, ts[i], d, role) {
            out.push(ts[i]);
        }
        i = i + 1;
    }
    proof {
        assert(ts@.subrange(0, ts@.len() as int) =~= ts@);
    }
    Ok(out)
}

/// A copy of `ds`.
fn copy_hashes(ds: &Vec<EntryHash>) -> (r: Vec<EntryHash>)
    ensures
        r@ == ds@,
{
    let mut r: Vec<EntryHash> = Vec::new();
    let mut i: usize = 0;
    while i < ds.len()
        invariant
            i <= ds@.len(),
            r@ == ds@.subrange(0, i as int),
        decreases ds@.len() - i,
    {
        r.push(ds[i]);
        i = i + 1;
        proof {
            assert(r@ =~= ds@.subrange(0, i as int));
        }
    }
    proof {
        assert(ds@.subrange(0, ds@.len() as int) =~= ds@);
    }
    r
}

/// The edges that `create_method` adds for a method stored at `h`, after the index edge.
pub open spec fn method_edges(m: Method, h: EntryHash) -> Seq<Link> {
    seq![Link { base: m.output_dimension_eh, target: h, link_type: LinkType::DimensionToMethod, tag: LinkTag::Output, deleted: false }]
        + m.input_dimension_ehs@.map_values(
        |d: EntryHash|
            Link { base: d, target: h, link_type: LinkType::DimensionToMethod, tag: LinkTag::Input, deleted: false },
    )
}

/// Stores a method, lists it in the index of methods, and links it from its output
/// dimension (tag "output") and from each input dimension (tag "input").
pub fn create_method(ledger: &mut Ledger, method: Method) -> (r: Result<EntryHash, WeError>)
    requires
        old(ledger)@.wf(),
    ensures
        final(ledger)@.wf(),
        match r {
            Ok(h) => {
                &&& h.0 == old(ledger)@.entries.len()
                &&& final(ledger)@.entries[h.0 as int] == Entry::Method(method)
                &&& final(ledger)@.live(h)
                &&& final(ledger)@.anchor(methods_path()) matches Some(root)
                &&& final(ledger)@.links == old(ledger)@.links.push(
                    Link { base: root, target: h, link_type: LinkType::Method, tag: LinkTag::Empty, deleted: false },
                ) + method_edges(method, h)
            },
            Err(e) => e == WeError::WriteFailure && !old(ledger)@.room(2, 2 + method.input_dimension_ehs@.len() as int),
        },
{
    let ghost m = method;
    let inputs = copy_hashes(&method.input_dimension_ehs);
    let output = method.output_dimension_eh;
    let ghost before = ledger@;
    let (h, _a) = ledger.create_entry(Entry::Method(method))?;
    let ghost after_create = ledger@;
    proof {
        lemma_created_live(before, after_create, h);
    }
    let name = AnchorName { root: AnchorRoot::Methods, leaf: String::new() };
    proof {
        assert(name.leaf@ =~= Seq::<char>::empty());
        assert(name@ == methods_path());
    }
    let root = ensure_path(ledger, name)?;
    let ghost after_path = ledger@;
    proof {
        if after_path != after_create {
            lemma_create_keeps_deletes(after_create, after_path, after_path.actions.last()->Create_entry, h);
        }
    }
    let ghost base_links = ledger@.links.push(
        Link { base: root, target: h, link_type: LinkType::Method, tag: LinkTag::Empty, deleted: false },
    );
    ledger.create_link(root, h, LinkType::Method, LinkTag::Empty)?;
    ledger.create_link(output, h, LinkType::DimensionToMethod, LinkTag::Output)?;
    let ghost edges = method_edges(m, h);
    let mut i: usize = 0;
    while i < inputs.len()
        invariant
            ledger@.wf(),
            inputs@ == m.input_dimension_ehs@,
            edges == method_edges(m, h),
            base_links.len() == old(ledger)@.links.len() + 1,
            edges.len() == inputs@.len() + 1,
            m == method,
            i <= inputs@.len(),
            ledger@.links == base_links + edges.subrange(0, i + 1),
            ledger@.entries == after_path.entries,
            ledger@.actions == after_path.actions,
            ledger@.anchor(methods_path()) == Some(root),
            h.0 < after_create.entries.len(),
            after_path.entries[h.0 as int] == Entry::Method(m),
            !ledger@.has_delete(h),
        decreases inputs@.len() - i,
    {
        ledger.create_link(inputs[i], h, LinkType::DimensionToMethod, LinkTag::Input)?;
        i = i + 1;
        proof {
            assert(edges[i as int] == Link { base: inputs@[i - 1], target: h, link_type: LinkType::DimensionToMethod, tag: LinkTag::Input, deleted: false });
            assert(ledger@.links =~= base_links + edges.subrange(0, i + 1));
        }
    }
    proof {
        assert(edges.subrange(0, inputs@.len() + 1 as int) =~= edges);
    }
    Ok(h)
}

/// A value to record for a resource on a dimension.
pub struct CreateAssessmentInput {
    pub value: RangeValue,
    pub dimension_eh: EntryHash,
    pub resource_eh: EntryHash,
    pub resource_def_eh: EntryHash,
}

/// Stores an assessment and links it from its resource, tagged with its dimension.
pub fn create_assessment(ledger: &mut Ledger, input: CreateAssessmentInput) -> (r: Result<EntryHash, WeError>)
    requires
        old(ledger)@.wf(),
    ensures
        final(ledger)@.wf(),
        match r {
            Ok(h) => {
                &&& h.0 == old(ledger)@.entries.len()
                &&& final(ledger)@.entries == old(ledger)@.entries.push(
                    Entry::Assessment(
                        Assessment {
                            value: input.value,
                            dimension_eh: input.dimension_eh,
                            resource_eh: input.resource_eh,
                            resource_def_eh: input.resource_def_eh,
                        },
                    ),
                )
                &&& final(ledger)@.live(h)
                &&& final(ledger)@.links == old(ledger)@.links.push(
                    Link {
                        base: input.resource_eh,
                        target: h,
                        link_type: LinkType::ResourceToAssessment,
                        tag: LinkTag::Dimension(input.dimension_eh),
                        deleted: false,
                    },
                )
            },
            Err(e) => e == WeError::WriteFailure && !old(ledger)@.room(1, 1),
        },
{
    let a = Assessment {
        value: input.value,
        dimension_eh: input.dimension_eh,
        resource_eh: input.resource_eh,
        resource_def_eh: input.resource_def_eh,
    };
    let ghost before = ledger@;
    let (h, _a) = ledger.create_entry(Entry::Assessment(a))?;
    proof {
        lemma_created_live(before, ledger@, h);
    }
    ledger.create_link(input.resource_eh, h, LinkType::ResourceToAssessment, LinkTag::Dimension(input.dimension_eh))?;
    proof {
        assert(!ledger@.has_delete(h));
    }
    Ok(h)
}

/// The values of the live assessments among `hs`, in order.
pub open spec fn assessment_values(v: LedgerView, hs: Seq<EntryHash>) -> Seq<RangeValue>
    decreases hs.len(),
{
    if hs.len() == 0 {
        Seq::empty()
    } else {
        let rest = assessment_values(v, hs.drop_last());
        if v.live(hs.last()) && v.entries[hs.last().0 as int] is Assessment {
            rest.push(v.entries[hs.last().0 as int]->Assessment_0.value)
        } else {
            rest
        }
    }
}

/// The values of the assessments of `resource` on each dimension of `dims`, one
/// dimension after the other; every assessor's value is kept.
pub open spec fn gathered(v: LedgerView, resource: EntryHash, dims: Seq<EntryHash>) -> Seq<RangeValue>
    decreases dims.len(),
{
    if dims.len() == 0 {
        Seq::empty()
    } else {
        gathered(v, resource, dims.drop_last()) + assessment_values(
            v,
            v.targets_from(resource, LinkType::ResourceToAssessment, Some(LinkTag::Dimension(dims.last()))),
        )
    }
}

/// Appends the values of the live assessments among `hs` to `out`.
fn append_assessment_values(ledger: &Ledger, hs: &Vec<EntryHash>, out: &mut Vec<RangeValue>)
    ensures
        final(out)@ == old(out)@ + assessment_values(ledger@, hs@),
{
    let ghost start = out@;
    let mut i: usize = 0;
    while i < hs.len()
        invariant
            i <= hs@.len(),
            out@ == start + assessment_values(ledger@, hs@.subrange(0, i as int)),
        decreases hs@.len() - i,
    {
        proof {
            assert(hs@.subrange(0, i + 1).drop_last() =~= hs@.subrange(0, i as int));
        }
        let h = hs[i];
        if ledger.is_live(h) {
            match ledger.entry(h) {
                Entry::Assessment(a) => {
                    out.push(a.value);
                },
                _ => {},
            }
        }
        i = i + 1;
        proof {
            assert(out@ =~= start + assessment_values(ledger@, hs@.subrange(0, i as int)));
        }
    }
    proof {
        assert(hs@.subrange(0, hs@.len() as int) =~= hs@);
    }
}

/// The values of every assessment of `resource_eh` on the dimensions `dims`.
pub fn get_assessment_values(ledger: &Ledger, resource_eh: EntryHash, dims: &Vec<EntryHash>) -> (r: Vec<RangeValue>)
    ensures
        r@ == gathered(ledger@, resource_eh, dims@),
{
    let mut out: Vec<RangeValue> = Vec::new();
    let mut j: usize = 0;
    while j < dims.len()
        invariant
            j <= dims@.len(),
            out@ == gathered(ledger@, resource_eh, dims@.subrange(0, j as int)),
        decreases dims@.len() - j,
    {
        proof {
            assert(dims@.subrange(0, j + 1).drop_last() =~= dims@.subrange(0, j as int));
        }
        let ts = ledger.get_link_targets(resource_eh, LinkType::ResourceToAssessment, Some(LinkTag::Dimension(dims[j])));
        append_assessment_values(ledger, &ts, &mut out);
        j = j + 1;
    }
    proof {
        assert(dims@.subrange(0, dims@.len() as int) =~= dims@);
    }
    out
}

/// The resource to assess, its resource definition, and the method to run.
pub struct RunMethodInput {
    pub resource_eh: EntryHash,
    pub resource_def_eh: EntryHash,
    pub method_eh: EntryHash,
}

/// A run whose result is floating point: the values to fold, the divisor, and where
/// the result is to be recorded.
pub struct PendingAssessment {
    pub values: Vec<RangeValue>,
    pub divisor: usize,
    pub dimension_eh: EntryHash,
    pub resource_eh: EntryHash,
    pub resource_def_eh: EntryHash,
}

/// What a method run did.
pub enum MethodOutcome {
    /// The integer result was recorded as the assessment at this address.
    Recorded(EntryHash),
    /// The result is floating point; it is to be computed and recorded by the caller.
    Pending(PendingAssessment),
}

/// The method stored at `h`.
pub open spec fn method_at(v: LedgerView, h: EntryHash) -> Result<Method, WeError> {
    if !v.live(h) {
        Err(WeError::NotFound)
    } else {
        match v.entries[h.0 as int] {
            Entry::Method(m) => Ok(m),
            _ => Err(WeError::TypeMismatch),
        }
    }
}

/// The values a run of the method `method_eh` on `resource_eh` reduces: an error when
/// the method is missing, declares no input dimension, or finds no value.
pub open spec fn run_inputs(v: LedgerView, method_eh: EntryHash, resource_eh: EntryHash) -> Result<Seq<RangeValue>, WeError> {
    match method_at(v, method_eh) {
        Err(e) => Err(e),
        Ok(m) => if m.input_dimension_ehs@.len() == 0 {
            Err(WeError::ComputationError)
        } else if gathered(v, resource_eh, m.input_dimension_ehs@).len() == 0 {
            Err(WeError::ComputationError)
        } else {
            Ok(gathered(v, resource_eh, m.input_dimension_ehs@))
        },
    }
}

/// The result of a run of the method `method_eh` on `resource_eh`.
pub open spec fn run_result(v: LedgerView, method_eh: EntryHash, resource_eh: EntryHash) -> Result<Aggregate, WeError> {
    match run_inputs(v, method_eh, resource_eh) {
        Err(e) => Err(e),
        Ok(vs) => aggregate(method_at(v, method_eh)->Ok_0.program, vs),
    }
}

/// Runs a method on a resource: gathers the assessments on the method's input
/// dimensions, reduces them with its program and, for an integer result, records it
/// as an assessment on the method's output dimension.
pub fn run_method(ledger: &mut Ledger, input: RunMethodInput) -> (r: Result<MethodOutcome, WeError>)
    requires
        old(ledger)@.wf(),
    ensures
        final(ledger)@.wf(),
        match run_result(old(ledger)@, input.method_eh, input.resource_eh) {
            Err(e) => r == Err::<MethodOutcome, WeError>(e) && final(ledger)@ == old(ledger)@,
            Ok(Aggregate::Integer(x)) => match r {
                Ok(MethodOutcome::Recorded(h)) => {
                    &&& h.0 == old(ledger)@.entries.len()
                    &&& final(ledger)@.entries == old(ledger)@.entries.push(
                        Entry::Assessment(
                            Assessment {
                                value: RangeValue::Integer(x),
                                dimension_eh: method_at(old(ledger)@, input.method_eh)->Ok_0.output_dimension_eh,
                                resource_eh: input.resource_eh,
                                resource_def_eh: input.resource_def_eh,
                            },
                        ),
                    )
                    &&& final(ledger)@.live(h)
                },
                Ok(MethodOutcome::Pending(_)) => false,
                Err(e) => e == WeError::WriteFailure && !old(ledger)@.room(1, 1),
            },
            Ok(Aggregate::Float { divisor }) => match r {
                Ok(MethodOutcome::Pending(p)) => {
                    &&& p.values@ == run_inputs(old(ledger)@, input.method_eh, input.resource_eh)->Ok_0
                    &&& p.divisor == divisor
                    &&& p.dimension_eh == method_at(old(ledger)@, input.method_eh)->Ok_0.output_dimension_eh
                    &&& p.resource_eh == input.resource_eh
                    &&& p.resource_def_eh == input.resource_def_eh
                    &&& final(ledger)@ == old(ledger)@
                },
                _ => false,
            },
        },
{
    if !ledger.is_live(input.method_eh) {
        return Err(WeError::NotFound);
    }
    let (program, dims, output) = match ledger.entry(input.method_eh) {
        Entry::Method(m) => (m.program, copy_hashes(&m.input_dimension_ehs), m.output_dimension_eh),
        _ => {
            return Err(WeError::TypeMismatch);
        },
    };
    if dims.len() == 0 {
        return Err(WeError::ComputationError);
    }
    let values = get_assessment_values(ledger, input.resource_eh, &dims);
    if values.len() == 0 {
        return Err(WeError::ComputationError);
    }
    match compute_objective_assessment(program, &values)? {
        Aggregate::Integer(x) => {
            let h = create_assessment(
                ledger,
                CreateAssessmentInput {
                    value: RangeValue::Integer(x),
                    dimension_eh: output,
                    resource_eh: input.resource_eh,
                    resource_def_eh: input.resource_def_eh,
                },
            )?;
            Ok(MethodOutcome::Recorded(h))
        },
        Aggregate::Float { divisor } => Ok(
            MethodOutcome::Pending(
                PendingAssessment {
                    values,
                    divisor,
                    dimension_eh: output,
                    resource_eh: input.resource_eh,
                    resource_def_eh: input.resource_def_eh,
                },
            ),
        ),
    }
}

/// A new revision for the method written by `original_action_hash`.
pub struct UpdateMethodInput {
    pub original_action_hash: ActionHash,
    pub updated_method: Method,
}

/// Stores a new revision of a method; returns the revision's write.
pub fn update_method(ledger: &mut Ledger, input: UpdateMethodInput) -> (r: Result<ActionHash, WeError>)
    requires
        old(ledger)@.wf(),
    ensures
        final(ledger)@.wf(),
        match r {
            Ok(a) => {
                &&& old(ledger)@.written_by(input.original_action_hash) is Some
                &&& a.0 == old(ledger)@.actions.len()
                &&& final(ledger)@.entries == old(ledger)@.entries.push(Entry::Method(input.updated_method))
                &&& final(ledger)@.actions == old(ledger)@.actions.push(
                    crate::ledger::Action::Update {
                        original_action: input.original_action_hash,
                        original_entry: old(ledger)@.written_by(input.original_action_hash).unwrap(),
                        entry: EntryHash(old(ledger)@.entries.len() as usize),
                    },
                )
                &&& final(ledger)@.links == old(ledger)@.links
            },
            Err(e) => {
                &&& final(ledger)@ == old(ledger)@
                &&& e == if old(ledger)@.written_by(input.original_action_hash) is None {
                    WeError::NotFound
                } else {
                    WeError::WriteFailure
                }
                &&& (old(ledger)@.written_by(input.original_action_hash) is None || old(ledger)@.entries_full())
            },
        },
{
    let (_h, a) = ledger.update_entry(input.original_action_hash, Entry::Method(input.updated_method))?;
    Ok(a)
}

/// Tombstones the method written by `action_hash`.
pub fn delete_method(ledger: &mut Ledger, action_hash: ActionHash) -> (r: Result<ActionHash, WeError>)
    requires
        old(ledger)@.wf(),
    ensures
        final(ledger)@.wf(),
        match r {
            Ok(a) => {
                &&& old(ledger)@.written_by(action_hash) matches Some(e)
                &&& final(ledger)@.has_delete(e)
                &&& a.0 == old(ledger)@.actions.len()
                &&& final(ledger)@.entries == old(ledger)@.entries
                &&& final(ledger)@.links == old(ledger)@.links
            },
            Err(e) => {
                &&& final(ledger)@ == old(ledger)@
                &&& e == if old(ledger)@.written_by(action_hash) is None {
                    WeError::NotFound
                } else {
                    WeError::WriteFailure
                }
                &&& (old(ledger)@.written_by(action_hash) is None || old(ledger)@.actions_full())
            },
        },
{
    let r = ledger.delete_entry(action_hash);
    proof {
        if let Ok(a) = r {
            assert(crate::ledger::deletes(ledger@.actions[a.0 as int], ledger@.actions[a.0 as int]->Delete_deleted_entry));
        }
    }
    r
}

/// The path under which every method is indexed.
pub fn methods_typed_path() -> (r: AnchorName)
    ensures
        r@ == methods_path(),
{
    let r = AnchorName { root: AnchorRoot::Methods, leaf: String::new() };
    proof {
        assert(r.leaf@ =~= Seq::<char>::empty());
    }
    r
}

} // verus!
