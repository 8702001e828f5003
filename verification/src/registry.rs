//! The registry of a resolved telemetry schema: its groups of attributes and signals.
use vstd::prelude::*;
use crate::attribute::{Attribute, AttributeRef};
use crate::catalog::Catalog;
use crate::deprecated::Deprecated;
use crate::error::Error;
use crate::keyed::{derefs, KeyView, Keyed};
use crate::lineage::GroupLineage;
use crate::text::{has_prefix, starts_with};

verus! {

/// The kind of a group.
#[derive(Debug, Clone, Copy, PartialEq, Eq, Hash, Structural)]
pub enum GroupType {
    /// A group of attributes.
    AttributeGroup,
    /// A span.
    Span,
    /// An event.
    Event,
    /// A metric.
    Metric,
    /// A group of metrics.
    MetricGroup,
    /// A resource.
    Resource,
    /// An instrumentation scope.
    Scope,
    /// A group of no declared kind.
    Undefined,
}

/// The kind of instrument of a metric.
#[derive(Debug, Clone, Copy, PartialEq, Eq, Hash, Structural)]
pub enum InstrumentSpec {
    /// An up-down counter.
    UpDownCounter,
    /// A counter.
    Counter,
    /// A gauge.
    Gauge,
    /// A histogram.
    Histogram,
}

impl InstrumentSpec {
    /// The name of the instrument kind.
    pub open spec fn text_view(self) -> Seq<char> {
        match self {
            InstrumentSpec::UpDownCounter => "updowncounter"@,
            InstrumentSpec::Counter => "counter"@,
            InstrumentSpec::Gauge => "gauge"@,
            InstrumentSpec::Histogram => "histogram"@,
        }
    }

    /// The name of the instrument kind.
    pub fn text(&self) -> (s: String)
        ensures
            s@ == self.text_view(),
    {
        match self {
            InstrumentSpec::UpDownCounter => "updowncounter".to_owned(),
            InstrumentSpec::Counter => "counter".to_owned(),
            InstrumentSpec::Gauge => "gauge".to_owned(),
            InstrumentSpec::Histogram => "histogram".to_owned(),
        }
    }
}

/// The stability level of a group.
#[derive(Debug, Clone, Copy, PartialEq, Eq, Hash, Structural)]
pub enum Stability {
    /// Deprecated.
    Deprecated,
    /// Experimental.
    Experimental,
    /// Stable.
    Stable,
}

/// The kind of a span.
#[derive(Debug, Clone, Copy, PartialEq, Eq, Hash, Structural)]
pub enum SpanKindSpec {
    /// A client span.
    Client,
    /// A server span.
    Server,
    /// A producer span.
    Producer,
    /// A consumer span.
    Consumer,
    /// An internal span.
    Internal,
}

/// A constraint on the attributes of a group.
#[derive(Debug, Clone)]
pub struct Constraint {
    /// At least one of these attributes must be present.
    pub any_of: Vec<String>,
    /// The group whose attributes are included.
    pub includes: Option<String>,
}

/// The description of the body of an event.
#[derive(Debug, Clone)]
pub struct AnyValueSpec {
    /// The identifier of the body.
    pub id: String,
    /// A short description.
    pub brief: String,
    /// A longer description.
    pub note: String,
}

/// A group of the registry: a group of attributes or a signal.
#[derive(Debug, Clone)]
pub struct Group {
    /// The identifier of the group.
    pub id: String,
    /// The kind of the group.
    pub group_type: GroupType,
    /// A short description.
    pub brief: String,
    /// A longer description.
    pub note: String,
    /// The prefix of the names of the attributes of the group.
    pub prefix: String,
    /// The group that this one extends.
    pub extends: Option<String>,
    /// The stability level of the group.
    pub stability: Option<Stability>,
    /// The deprecation status, if the group is deprecated.
    pub deprecated: Option<Deprecated>,
    /// The name of the group.
    pub name: Option<String>,
    /// Where the group comes from.
    pub lineage: Option<GroupLineage>,
    /// A name of the group for display.
    pub display_name: Option<String>,
    /// References to the attributes of the group in the catalog.
    pub attributes: Vec<AttributeRef>,
    /// The kind of a span.
    pub span_kind: Option<SpanKindSpec>,
    /// The names of the events of a span.
    pub events: Vec<String>,
    /// The name of a metric.
    pub metric_name: Option<String>,
    /// The instrument of a metric.
    pub instrument: Option<InstrumentSpec>,
    /// The constraints on the attributes of the group.
    pub constraints: Vec<Constraint>,
    /// The unit of a metric.
    pub unit: Option<String>,
    /// The body of an event.
    pub body: Option<AnyValueSpec>,
}

impl KeyView for Group {
    open spec fn key_view(&self) -> Seq<char> {
        self.id@
    }
}

impl Keyed for Group {
    fn key(&self) -> (k: &String) {
        &self.id
    }
}

/// Whether all the references resolve in the catalog.
pub open spec fn refs_resolve(refs: Seq<AttributeRef>, catalog: Catalog) -> bool {
    forall|i: int| 0 <= i < refs.len() ==> catalog.resolves(#[trigger] refs[i])
}

/// The attributes that the references refer to.
pub open spec fn resolved(refs: Seq<AttributeRef>, catalog: Catalog) -> Seq<Attribute> {
    refs.map_values(|r: AttributeRef| catalog.attributes@[r.0 as int])
}

/// The position of the first reference that does not resolve.
pub open spec fn first_unresolved(refs: Seq<AttributeRef>, catalog: Catalog) -> int {
    choose|i: int|
        0 <= i < refs.len() && !catalog.resolves(#[trigger] refs[i]) && forall|j: int|
            0 <= j < i ==> catalog.resolves(#[trigger] refs[j])
}

impl Group {
    /// A group of attributes whose identifier starts with `registry.`.
    pub open spec fn is_registry_group(self) -> bool {
        self.group_type == GroupType::AttributeGroup && has_prefix(self.id@, "registry."@)
    }

    /// Whether the group is a group of attributes of the registry.
    pub fn is_registry_attribute_group(&self) -> (r: bool)
        ensures
            r == self.is_registry_group(),
    {
        match self.group_type {
            GroupType::AttributeGroup => starts_with(self.id.as_str(), "registry."),
            _ => false,
        }
    }

    /// The attributes of the group, looked up in the catalog; the first
    /// reference that the catalog does not hold is an error.
    pub fn attributes<'a>(&self, catalog: &'a Catalog) -> (r: Result<Vec<&'a Attribute>, Error>)
        ensures
            match r {
                Ok(v) => refs_resolve(self.attributes@, *catalog) && derefs(v@) == resolved(
                    self.attributes@,
                    *catalog,
                ),
                Err(Error::AttributeNotFound { attr_ref }) => !refs_resolve(self.attributes@, *catalog)
                    && attr_ref == self.attributes@[first_unresolved(self.attributes@, *catalog)],
            },
    {
        let mut v: Vec<&'a Attribute> = Vec::new();
        let mut i: usize = 0;
        while i < self.attributes.len()
            invariant
                i <= self.attributes@.len(),
                refs_resolve(self.attributes@.take(i as int), *catalog),
                derefs(v@) == resolved(self.attributes@.take(i as int), *catalog),
            decreases self.attributes@.len() - i,
        {
            let r = self.attributes[i];
            match catalog.attribute(&r) {
                Some(a) => {
                    let ghost before = v@;
                    v.push(a);
                    proof {
                        assert(self.attributes@.take(i + 1) =~= self.attributes@.take(i as int).push(r));
                        assert(derefs(v@) =~= derefs(before).push(*a));
                        assert(resolved(self.attributes@.take(i + 1), *catalog) =~= resolved(
                            self.attributes@.take(i as int),
                            *catalog,
                        ).push(*a));
                        assert(refs_resolve(self.attributes@.take(i + 1), *catalog)) by {
                            assert forall|j: int| 0 <= j < i + 1 implies catalog.resolves(
                                #[trigger] self.attributes@.take(i + 1)[j],
                            ) by {
                                if j < i {
                                    assert(self.attributes@.take(i + 1)[j] == self.attributes@.take(
                                        i as int,
                                    )[j]);
                                }
                            }
                        }
                    }
                },
                None => {
                    proof {
                        let refs = self.attributes@;
                        assert(!catalog.resolves(refs[i as int]));
                        assert forall|j: int| 0 <= j < i implies catalog.resolves(#[trigger] refs[j]) by {
                            assert(refs.take(i as int)[j] == refs[j]);
                        }
                        let k = first_unresolved(refs, *catalog);
                        assert(0 <= k < refs.len() && !catalog.resolves(refs[k]) && forall|j: int|
                            0 <= j < k ==> catalog.resolves(#[trigger] refs[j]));
                        if k < i {
                        } else if k > i {
                            assert(catalog.resolves(refs[i as int]));
                        }
                    }
                    return Err(Error::AttributeNotFound { attr_ref: r });
                },
            }
            i = i + 1;
        }
        assert(self.attributes@.take(i as int) =~= self.attributes@);
        Ok(v)
    }
}

/// The registry: the groups of a schema.
#[derive(Debug)]
pub struct Registry {
    /// The location of the registry.
    pub registry_url: String,
    /// The groups of the registry.
    pub groups: Vec<Group>,
}

/// Statistics on a registry.
#[derive(Debug)]
pub struct Stats {
    /// The number of groups.
    pub group_count: usize,
    /// For each kind of group that occurs, in order of first occurrence, the
    /// number of groups of that kind.
    pub group_breakdown: Vec<(GroupType, usize)>,
}

/// The position of kind `t` in a breakdown, or -1.
pub open spec fn breakdown_index(b: Seq<(GroupType, nat)>, t: GroupType) -> int
    decreases b.len(),
{
    if b.len() == 0 {
        -1
    } else if b.last().0 == t {
        b.len() - 1
    } else {
        breakdown_index(b.drop_last(), t)
    }
}

/// For each kind of group in `groups`, in order of first occurrence, the number
/// of groups of that kind.
pub open spec fn group_breakdown(groups: Seq<Group>) -> Seq<(GroupType, nat)>
    decreases groups.len(),
{
    if groups.len() == 0 {
        seq![]
    } else {
        let b = group_breakdown(groups.drop_last());
        let t = groups.last().group_type;
        let i = breakdown_index(b, t);
        if i >= 0 {
            b.update(i, (t, b[i].1 + 1))
        } else {
            b.push((t, 1nat))
        }
    }
}

/// A breakdown as numbers of unbounded size.
pub open spec fn breakdown_view(b: Seq<(GroupType, usize)>) -> Seq<(GroupType, nat)> {
    b.map_values(|p: (GroupType, usize)| (p.0, p.1 as nat))
}

proof fn lemma_breakdown_index(b: Seq<(GroupType, nat)>, t: GroupType)
    ensures
        -1 <= breakdown_index(b, t) < b.len(),
        breakdown_index(b, t) >= 0 ==> b[breakdown_index(b, t)].0 == t,
    decreases b.len(),
{
    if b.len() > 0 && b.last().0 != t {
        lemma_breakdown_index(b.drop_last(), t);
    }
}

proof fn lemma_breakdown_bound(groups: Seq<Group>)
    ensures
        forall|i: int| 0 <= i < group_breakdown(groups).len() ==> #[trigger] group_breakdown(groups)[i].1 <= groups.len(),
    decreases groups.len(),
{
    if groups.len() > 0 {
        lemma_breakdown_bound(groups.drop_last());
        lemma_breakdown_index(group_breakdown(groups.drop_last()), groups.last().group_type);
    }
}

/// The position of kind `t` in the breakdown `b`.
fn find_kind(b: &Vec<(GroupType, usize)>, t: GroupType) -> (r: Option<usize>)
    ensures
        match r {
            Some(n) => n == breakdown_index(breakdown_view(b@), t) && n < b@.len(),
            None => breakdown_index(breakdown_view(b@), t) == -1,
        },
{
    let ghost bv = breakdown_view(b@);
    let mut n = b.len();
    assert(bv.take(n as int) =~= bv);
    while n > 0
        invariant
            n <= b@.len(),
            bv == breakdown_view(b@),
            breakdown_index(bv, t) == breakdown_index(bv.take(n as int), t),
        decreases n,
    {
        assert(bv.take(n as int).drop_last() =~= bv.take(n - 1));
        if b[n - 1].0 == t {
            return Some(n - 1);
        }
        n = n - 1;
    }
    None
}

impl Registry {
    /// An empty registry at the given location.
    pub fn new(registry_url: &str) -> (r: Registry)
        ensures
            r.registry_url@ == registry_url@,
            r.groups@ == Seq::<Group>::empty(),
    {
        Registry { registry_url: registry_url.to_owned(), groups: Vec::new() }
    }

    /// Statistics on the registry.
    pub fn stats(&self) -> (s: Stats)
        ensures
            s.group_count == self.groups@.len(),
            breakdown_view(s.group_breakdown@) == group_breakdown(self.groups@),
    {
        let mut b: Vec<(GroupType, usize)> = Vec::new();
        let mut i: usize = 0;
        assert(breakdown_view(b@) =~= group_breakdown(self.groups@.take(0)));
        while i < self.groups.len()
            invariant
                i <= self.groups@.len(),
                breakdown_view(b@) == group_breakdown(self.groups@.take(i as int)),
            decreases self.groups@.len() - i,
        {
            let t = self.groups[i].group_type;
            let ghost prev = self.groups@.take(i as int);
            proof {
                assert(self.groups@.take(i + 1).drop_last() =~= prev);
                lemma_breakdown_bound(prev);
                lemma_breakdown_index(group_breakdown(prev), t);
            }
            let found = find_kind(&b, t);
            let ghost bv = breakdown_view(b@);
            if let Some(n) = found {
                let c = b[n].1;
                assert(bv[n as int].1 <= prev.len());
                b.set(n, (t, c + 1));
                assert(breakdown_view(b@) =~= bv.update(n as int, (t, bv[n as int].1 + 1)));
            } else {
                b.push((t, 1));
                assert(breakdown_view(b@) =~= bv.push((t, 1nat)));
            }
            i = i + 1;
        }
        assert(self.groups@.take(i as int) =~= self.groups@);
        Stats { group_count: self.groups.len(), group_breakdown: b }
    }
}

} // verus!
