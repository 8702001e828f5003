//! The concept of a Resolved Telemetry Schema.
//!
//! A Resolved Telemetry Schema is self-contained and doesn't contain any
//! external references to other schemas or semantic conventions.
use vstd::prelude::*;
use crate::attribute::Attribute;
use crate::catalog::Catalog;
use crate::instrumentation_library::InstrumentationLibrary;
use crate::keyed::{
    derefs, insert_by_key, keyed_collect, lemma_keyed_collect_preserves, lemma_keyed_collect_push,
};
use crate::text::has_prefix;
use crate::keyed::KeyView;
use crate::manifest::RegistryManifest;
use crate::registry::{refs_resolve, resolved, Group, GroupType, Registry};
use crate::resource::Resource;
use crate::versions::Versions;

pub mod attribute;
pub mod catalog;
pub mod cli;
pub mod deprecated;
pub mod diff;
pub mod error;
pub mod instrumentation_library;
pub mod keyed;
pub mod lineage;
pub mod manifest;
pub mod registry;
pub mod resource;
pub mod schema_changes;
pub mod text;
pub mod versions;

verus! {

/// The registry ID for the OpenTelemetry semantic conventions.
/// This ID is reserved and should not be used by any other registry.
pub const OTEL_REGISTRY_ID: &'static str = "OTEL";

/// A Resolved Telemetry Schema.
/// A Resolved Telemetry Schema is self-contained and doesn't contain any
/// external references to other schemas or semantic conventions.
#[derive(Debug)]
pub struct ResolvedTelemetrySchema {
    /// Version of the file structure.
    pub file_format: String,
    /// Schema URL that this file is published at.
    pub schema_url: String,
    /// The ID of the registry that this schema belongs to.
    pub registry_id: String,
    /// The registry that this schema belongs to.
    pub registry: Registry,
    /// Catalog of unique items that are shared across multiple registries
    /// and signals.
    pub catalog: Catalog,
    /// Resource definition (only for application).
    pub resource: Option<Resource>,
    /// Definition of the instrumentation library for the instrumented application or library.
    /// Or none if the resolved telemetry schema represents a semantic convention registry.
    pub instrumentation_library: Option<InstrumentationLibrary>,
    /// The list of dependencies of the current instrumentation application or library.
    pub dependencies: Vec<InstrumentationLibrary>,
    /// Definitions for each schema version in this family.
    /// Note: the ordering of versions is defined according to semver
    /// version number ordering rules.
    pub versions: Option<Versions>,
    /// The manifest of the registry.
    pub registry_manifest: Option<RegistryManifest>,
}

/// Statistics on a resolved telemetry schema.
#[derive(Debug)]
#[must_use]
pub struct Stats {
    /// Statistics on each registry.
    pub registry_stats: Vec<registry::Stats>,
    /// Statistics on the catalog.
    pub catalog_stats: catalog::Stats,
}

/// Whether a group counts: every group of attributes, or only the groups of
/// attributes of the registry.
pub open spec fn selected(g: Group, registry_only: bool) -> bool {
    if registry_only {
        g.is_registry_group()
    } else {
        g.group_type == GroupType::AttributeGroup
    }
}

/// The attributes that the selected groups refer to, group after group.
pub open spec fn selected_attributes(groups: Seq<Group>, catalog: Catalog, registry_only: bool) -> Seq<
    Attribute,
>
    decreases groups.len(),
{
    if groups.len() == 0 {
        seq![]
    } else {
        selected_attributes(groups.drop_last(), catalog, registry_only) + if selected(
            groups.last(),
            registry_only,
        ) {
            resolved(groups.last().attributes@, catalog)
        } else {
            seq![]
        }
    }
}

/// Whether the catalog holds every attribute that the selected groups refer to.
pub open spec fn selected_resolve(groups: Seq<Group>, catalog: Catalog, registry_only: bool) -> bool {
    forall|i: int|
        0 <= i < groups.len() && selected(#[trigger] groups[i], registry_only) ==> refs_resolve(
            groups[i].attributes@,
            catalog,
        )
}

/// The groups of type `t`, in order.
pub open spec fn groups_of_type(groups: Seq<Group>, t: GroupType) -> Seq<Group>
    decreases groups.len(),
{
    if groups.len() == 0 {
        seq![]
    } else if groups.last().group_type == t {
        groups_of_type(groups.drop_last(), t).push(groups.last())
    } else {
        groups_of_type(groups.drop_last(), t)
    }
}

/// Whether group `g` refers to an attribute of the catalog equal to `a`.
pub open spec fn refers_to(g: Group, catalog: Catalog, a: Attribute) -> bool {
    exists|r: int|
        0 <= r < g.attributes@.len() && catalog.attributes@[g.attributes@[r].0 as int] == a
}

/// Whether `g` is a group of attributes, of the registry when `registry_only`.
pub open spec fn is_attribute_group_of(g: Group, registry_only: bool) -> bool {
    &&& g.group_type == GroupType::AttributeGroup
    &&& registry_only ==> has_prefix(g.id@, "registry."@)
}

proof fn lemma_selected_attribute_sources(groups: Seq<Group>, catalog: Catalog, registry_only: bool)
    ensures
        forall|i: int|
            #![trigger selected_attributes(groups, catalog, registry_only)[i]]
            0 <= i < selected_attributes(groups, catalog, registry_only).len() ==> exists|gi: int|
                0 <= gi < groups.len() && is_attribute_group_of(#[trigger] groups[gi], registry_only)
                    && refers_to(
                    groups[gi],
                    catalog,
                    selected_attributes(groups, catalog, registry_only)[i],
                ),
    decreases groups.len(),
{
    if groups.len() > 0 {
        let q = groups.drop_last();
        let g = groups.last();
        lemma_selected_attribute_sources(q, catalog, registry_only);
        let sa = selected_attributes(groups, catalog, registry_only);
        let sq = selected_attributes(q, catalog, registry_only);
        assert forall|i: int| #![trigger sa[i]] 0 <= i < sa.len() implies exists|gi: int|
            0 <= gi < groups.len() && is_attribute_group_of(#[trigger] groups[gi], registry_only)
                && refers_to(groups[gi], catalog, sa[i]) by {
            if i < sq.len() {
                assert(sa[i] == sq[i]);
                let gi = choose|gi: int|
                    0 <= gi < q.len() && is_attribute_group_of(#[trigger] q[gi], registry_only)
                        && refers_to(q[gi], catalog, sq[i]);
                assert(groups[gi] == q[gi]);
            } else {
                let k = i - sq.len();
                assert(selected(g, registry_only));
                assert(sa[i] == resolved(g.attributes@, catalog)[k]);
                assert(sa[i] == catalog.attributes@[g.attributes@[k].0 as int]);
                assert(refers_to(g, catalog, sa[i]));
                assert(groups[groups.len() - 1] == g);
            }
        }
    }
}

proof fn lemma_groups_of_type_sources(groups: Seq<Group>, t: GroupType)
    ensures
        forall|i: int|
            0 <= i < groups_of_type(groups, t).len() ==> (#[trigger] groups_of_type(groups, t)[i]).group_type
                == t && exists|j: int| 0 <= j < groups.len() && groups[j] == groups_of_type(groups, t)[i],
    decreases groups.len(),
{
    if groups.len() > 0 {
        let q = groups.drop_last();
        lemma_groups_of_type_sources(q, t);
        let r = groups_of_type(groups, t);
        assert forall|i: int| 0 <= i < r.len() implies (#[trigger] r[i]).group_type == t && exists|j: int|
            0 <= j < groups.len() && groups[j] == r[i] by {
            if i < groups_of_type(q, t).len() {
                assert(r[i] == groups_of_type(q, t)[i]);
                let j = choose|j: int| 0 <= j < q.len() && q[j] == groups_of_type(q, t)[i];
                assert(groups[j] == q[j]);
            } else {
                assert(r[i] == groups.last());
                assert(groups[groups.len() - 1] == groups.last());
            }
        }
    }
}

/// Every attribute of the attribute map is an attribute of the catalog that a
/// group of type `AttributeGroup` refers to, and for the registry map a group
/// whose id starts with `registry.`; an attribute that only other groups
/// (spans, metrics, events, ...) refer to is never in the map.
pub proof fn lemma_attribute_map_sources(s: ResolvedTelemetrySchema, registry_only: bool)
    ensures
        forall|i: int|
            0 <= i < s.attribute_model(registry_only).len() ==> s.from_attribute_groups(
                #[trigger] s.attribute_model(registry_only)[i],
                registry_only,
            ),
{
    let groups = s.registry.groups@;
    lemma_selected_attribute_sources(groups, s.catalog, registry_only);
    let p = |a: Attribute|
        exists|gi: int|
            0 <= gi < groups.len() && is_attribute_group_of(#[trigger] groups[gi], registry_only)
                && refers_to(groups[gi], s.catalog, a);
    let sa = selected_attributes(groups, s.catalog, registry_only);
    assert forall|i: int| 0 <= i < sa.len() implies #[trigger] p(sa[i]) by {}
    lemma_keyed_collect_preserves(sa, p);
    assert forall|i: int| 0 <= i < s.attribute_model(registry_only).len() implies s.from_attribute_groups(
        #[trigger] s.attribute_model(registry_only)[i],
        registry_only,
    ) by {
        assert(p(keyed_collect(sa)[i]));
    }
}

/// Every group that `groups(t)` gives has type `t` and is a group of the registry.
pub proof fn lemma_group_map_sources(s: ResolvedTelemetrySchema, t: GroupType)
    ensures
        forall|i: int|
            0 <= i < s.group_model(t).len() ==> (#[trigger] s.group_model(t)[i]).group_type == t
                && exists|j: int| 0 <= j < s.registry.groups@.len() && s.registry.groups@[j] == s.group_model(t)[i],
{
    let groups = s.registry.groups@;
    lemma_groups_of_type_sources(groups, t);
    let p = |g: Group| g.group_type == t && exists|j: int| 0 <= j < groups.len() && groups[j] == g;
    let gt = groups_of_type(groups, t);
    assert forall|i: int| 0 <= i < gt.len() implies #[trigger] p(gt[i]) by {}
    lemma_keyed_collect_preserves(gt, p);
    assert forall|i: int| 0 <= i < s.group_model(t).len() implies (#[trigger] s.group_model(t)[i]).group_type
        == t && exists|j: int| 0 <= j < groups.len() && groups[j] == s.group_model(t)[i] by {
        assert(p(keyed_collect(gt)[i]));
    }
}

proof fn lemma_selected_attribute_complete(groups: Seq<Group>, catalog: Catalog, registry_only: bool)
    ensures
        forall|gi: int, r: int|
            #![trigger groups[gi].attributes@[r]]
            0 <= gi < groups.len() && is_attribute_group_of(groups[gi], registry_only) && 0 <= r
                < groups[gi].attributes@.len() ==> selected_attributes(groups, catalog, registry_only).contains(
                catalog.attributes@[groups[gi].attributes@[r].0 as int],
            ),
    decreases groups.len(),
{
    if groups.len() > 0 {
        let q = groups.drop_last();
        lemma_selected_attribute_complete(q, catalog, registry_only);
        let sa = selected_attributes(groups, catalog, registry_only);
        let sq = selected_attributes(q, catalog, registry_only);
        assert forall|gi: int, r: int|
            #![trigger groups[gi].attributes@[r]]
            0 <= gi < groups.len() && is_attribute_group_of(groups[gi], registry_only) && 0 <= r
                < groups[gi].attributes@.len() implies sa.contains(
            catalog.attributes@[groups[gi].attributes@[r].0 as int],
        ) by {
            let x = catalog.attributes@[groups[gi].attributes@[r].0 as int];
            if gi < q.len() {
                assert(q[gi] == groups[gi]);
                assert(q[gi].attributes@[r] == groups[gi].attributes@[r]);
                assert(sq.contains(x));
                let k = choose|k: int| 0 <= k < sq.len() && sq[k] == x;
                assert(sa[k] == sq[k]);
            } else {
                let g = groups.last();
                assert(groups[gi] == g);
                assert(selected(g, registry_only));
                let k = sq.len() + r;
                assert(sa[k] == resolved(g.attributes@, catalog)[r]);
                assert(sa[k] == x);
            }
        }
    }
}

/// Every attribute that a group of attributes (of the registry, for the
/// registry map) refers to has its name in the map, and no name occurs twice.
pub proof fn lemma_attribute_map_complete(s: ResolvedTelemetrySchema, registry_only: bool)
    ensures
        crate::keyed::distinct_keys(s.attribute_model(registry_only)),
        forall|gi: int, r: int|
            #![trigger s.registry.groups@[gi].attributes@[r]]
            0 <= gi < s.registry.groups@.len() && is_attribute_group_of(
                s.registry.groups@[gi],
                registry_only,
            ) && 0 <= r < s.registry.groups@[gi].attributes@.len() ==> crate::keyed::has_key(
                s.attribute_model(registry_only),
                s.catalog.attributes@[s.registry.groups@[gi].attributes@[r].0 as int].name@,
            ),
{
    let groups = s.registry.groups@;
    let sa = selected_attributes(groups, s.catalog, registry_only);
    crate::keyed::lemma_keyed_collect(sa);
    lemma_selected_attribute_complete(groups, s.catalog, registry_only);
    assert forall|gi: int, r: int|
        #![trigger groups[gi].attributes@[r]]
        0 <= gi < groups.len() && is_attribute_group_of(groups[gi], registry_only) && 0 <= r
            < groups[gi].attributes@.len() implies crate::keyed::has_key(
        s.attribute_model(registry_only),
        s.catalog.attributes@[groups[gi].attributes@[r].0 as int].name@,
    ) by {
        let x = s.catalog.attributes@[groups[gi].attributes@[r].0 as int];
        assert(sa.contains(x));
        let k = choose|k: int| 0 <= k < sa.len() && sa[k] == x;
        assert(sa[k].key_view() == x.name@);
    }
}

proof fn lemma_groups_of_type_complete(groups: Seq<Group>, t: GroupType)
    ensures
        forall|j: int|
            0 <= j < groups.len() && (#[trigger] groups[j]).group_type == t ==> exists|k: int|
                0 <= k < groups_of_type(groups, t).len() && #[trigger] groups_of_type(groups, t)[k] == groups[j],
    decreases groups.len(),
{
    if groups.len() > 0 {
        let q = groups.drop_last();
        lemma_groups_of_type_complete(q, t);
        let r = groups_of_type(groups, t);
        let rq = groups_of_type(q, t);
        assert forall|j: int| 0 <= j < groups.len() && (#[trigger] groups[j]).group_type == t implies exists|k: int|
            0 <= k < r.len() && #[trigger] r[k] == groups[j] by {
            if j < q.len() {
                assert(q[j] == groups[j]);
                let k = choose|k: int| 0 <= k < rq.len() && #[trigger] rq[k] == q[j];
                assert(r[k] == rq[k]);
            } else {
                assert(r[rq.len() as int] == groups.last());
            }
        }
    }
}

/// Every group of type `t` of the registry has its identifier in `groups(t)`,
/// and no identifier occurs twice there.
pub proof fn lemma_group_map_complete(s: ResolvedTelemetrySchema, t: GroupType)
    ensures
        crate::keyed::distinct_keys(s.group_model(t)),
        forall|j: int|
            0 <= j < s.registry.groups@.len() && (#[trigger] s.registry.groups@[j]).group_type == t
                ==> crate::keyed::has_key(s.group_model(t), s.registry.groups@[j].id@),
{
    let groups = s.registry.groups@;
    let gt = groups_of_type(groups, t);
    crate::keyed::lemma_keyed_collect(gt);
    lemma_groups_of_type_complete(groups, t);
    assert forall|j: int| 0 <= j < groups.len() && (#[trigger] groups[j]).group_type == t implies crate::keyed::has_key(
        s.group_model(t),
        groups[j].id@,
    ) by {
        let k = choose|k: int| 0 <= k < gt.len() && #[trigger] gt[k] == groups[j];
        assert(gt[k].key_view() == groups[j].id@);
    }
}

impl ResolvedTelemetrySchema {
    /// Whether some group of attributes (of the registry, when
    /// `registry_only`) refers to an attribute of the catalog equal to `a`.
    pub open spec fn from_attribute_groups(self, a: Attribute, registry_only: bool) -> bool {
        exists|gi: int|
            0 <= gi < self.registry.groups@.len() && is_attribute_group_of(
                #[trigger] self.registry.groups@[gi],
                registry_only,
            ) && refers_to(self.registry.groups@[gi], self.catalog, a)
    }

    /// Whether the catalog holds every attribute that the groups of attributes
    /// (all of them, or those of the registry only) refer to.
    pub open spec fn attributes_resolve(self, registry_only: bool) -> bool {
        selected_resolve(self.registry.groups@, self.catalog, registry_only)
    }

    /// The attributes of the groups of attributes (all of them, or those of the
    /// registry only) by name; for a name that occurs more than once, the last
    /// attribute is kept, at the place where the name first occurs.
    pub open spec fn attribute_model(self, registry_only: bool) -> Seq<Attribute> {
        keyed_collect(selected_attributes(self.registry.groups@, self.catalog, registry_only))
    }

    /// The groups of type `t` by identifier; for an identifier that occurs more
    /// than once, the last group is kept, at the place where the identifier
    /// first occurs.
    pub open spec fn group_model(self, t: GroupType) -> Seq<Group> {
        keyed_collect(groups_of_type(self.registry.groups@, t))
    }

    /// Create a new resolved telemetry schema.
    pub fn new(file_format: &str, schema_url: &str, registry_id: &str, registry_url: &str) -> (s: Self)
        ensures
            s.file_format@ == file_format@,
            s.schema_url@ == schema_url@,
            s.registry_id@ == registry_id@,
            s.registry.registry_url@ == registry_url@,
            s.registry.groups@ == Seq::<Group>::empty(),
            s.catalog.attributes@ == Seq::<Attribute>::empty(),
            s.resource is None,
            s.instrumentation_library is None,
            s.dependencies@ == Seq::<InstrumentationLibrary>::empty(),
            s.versions is None,
            s.registry_manifest is None,
    {
        Self {
            file_format: file_format.to_owned(),
            schema_url: schema_url.to_owned(),
            registry_id: registry_id.to_owned(),
            registry: Registry::new(registry_url),
            catalog: Catalog::default(),
            resource: None,
            instrumentation_library: None,
            dependencies: Vec::new(),
            versions: None,
            registry_manifest: None,
        }
    }

    /// Adds a new attribute group to the schema: the attributes go to the end
    /// of the catalog, and the group refers to them.
    pub fn add_attribute_group<const N: usize>(&mut self, group_id: &str, attrs: [Attribute; N])
        requires
            old(self).catalog.attributes@.len() + N <= u32::MAX + 1,
        ensures
            final(self).catalog.attributes@ == old(self).catalog.attributes@ + attrs@,
            final(self).registry.groups@.len() == old(self).registry.groups@.len() + 1,
            final(self).registry.groups@.drop_last() == old(self).registry.groups@,
            final(self).registry.registry_url == old(self).registry.registry_url,
            ({
                let g = final(self).registry.groups@.last();
                &&& g.id@ == group_id@
                &&& g.group_type == GroupType::AttributeGroup
                &&& g.brief@.len() == 0
                &&& g.note@.len() == 0
                &&& g.prefix@.len() == 0
                &&& g.extends is None
                &&& g.stability is None
                &&& g.deprecated is None
                &&& g.name matches Some(n) && n@ == group_id@
                &&& g.lineage is None
                &&& g.display_name is None
                &&& g.span_kind is None
                &&& g.attributes@.len() == N
                &&& forall|i: int| 0 <= i < N ==> #[trigger] g.attributes@[i].0
                    == old(self).catalog.attributes@.len() + i
                &&& g.events@.len() == 0
                &&& g.metric_name is None
                &&& g.instrument is None
                &&& g.constraints@.len() == 0
                &&& g.unit is None
                &&& g.body is None
            }),
            final(self).file_format == old(self).file_format,
            final(self).schema_url == old(self).schema_url,
            final(self).registry_id == old(self).registry_id,
            final(self).resource == old(self).resource,
            final(self).instrumentation_library == old(self).instrumentation_library,
            final(self).dependencies == old(self).dependencies,
            final(self).versions == old(self).versions,
            final(self).registry_manifest == old(self).registry_manifest,
    {
        let attr_refs = self.catalog.add_attributes(attrs);
        let group = Group {
            id: group_id.to_owned(),
            group_type: GroupType::AttributeGroup,
            brief: String::new(),
            note: String::new(),
            prefix: String::new(),
            extends: None,
            stability: None,
            deprecated: None,
            name: Some(group_id.to_owned()),
            lineage: None,
            display_name: None,
            attributes: attr_refs,
            span_kind: None,
            events: Vec::new(),
            metric_name: None,
            instrument: None,
            constraints: Vec::new(),
            unit: None,
            body: None,
        };
        self.registry.groups.push(group);
        assert(self.registry.groups@.drop_last() =~= old(self).registry.groups@);
    }

    /// Get the catalog of the resolved telemetry schema.
    pub fn catalog(&self) -> (c: &Catalog)
        ensures
            *c == self.catalog,
    {
        &self.catalog
    }

    /// Compute statistics on the resolved telemetry schema.
    pub fn stats(&self) -> (s: Stats)
        ensures
            s.registry_stats@.len() == 1,
            s.registry_stats@[0].group_count == self.registry.groups@.len(),
            registry::breakdown_view(s.registry_stats@[0].group_breakdown@)
                == registry::group_breakdown(self.registry.groups@),
            s.catalog_stats.attribute_count == self.catalog.attributes@.len(),
            s.catalog_stats.deprecated_count == catalog::deprecated_count(self.catalog.attributes@),
    {
        let mut registry_stats = Vec::new();
        registry_stats.push(self.registry.stats());
        Stats { registry_stats, catalog_stats: self.catalog.stats() }
    }

    /// Whether the catalog holds every attribute that the groups of attributes
    /// (all of them, or those of the registry only) refer to.
    pub fn attributes_are_resolved(&self, registry_only: bool) -> (r: bool)
        ensures
            r == self.attributes_resolve(registry_only),
    {
        let ghost groups = self.registry.groups@;
        let mut i: usize = 0;
        while i < self.registry.groups.len()
            invariant
                i <= groups.len(),
                groups == self.registry.groups@,
                forall|k: int| 0 <= k < i && selected(#[trigger] groups[k], registry_only) ==> refs_resolve(
                    groups[k].attributes@,
                    self.catalog,
                ),
            decreases groups.len() - i,
        {
            let group = &self.registry.groups[i];
            let keep = if registry_only {
                group.is_registry_attribute_group()
            } else {
                group.group_type == GroupType::AttributeGroup
            };
            if keep {
                let mut j: usize = 0;
                while j < group.attributes.len()
                    invariant
                        j <= group.attributes@.len(),
                        i < groups.len(),
                        groups == self.registry.groups@,
                        *group == groups[i as int],
                        selected(groups[i as int], registry_only),
                        forall|k: int| 0 <= k < j ==> self.catalog.resolves(#[trigger] group.attributes@[k]),
                    decreases group.attributes@.len() - j,
                {
                    if self.catalog.attribute(&group.attributes[j]).is_none() {
                        assert(!self.catalog.resolves(groups[i as int].attributes@[j as int]));
                        return false;
                    }
                    j = j + 1;
                }
                assert(refs_resolve(groups[i as int].attributes@, self.catalog));
            }
            i = i + 1;
        }
        true
    }

    fn collect_attributes(&self, registry_only: bool) -> (r: Vec<&Attribute>)
        requires
            self.attributes_resolve(registry_only),
        ensures
            derefs(r@) == self.attribute_model(registry_only),
    {
        let ghost groups = self.registry.groups@;
        let mut r: Vec<&Attribute> = Vec::new();
        let mut i: usize = 0;
        assert(derefs(r@) =~= keyed_collect(selected_attributes(groups.take(0), self.catalog, registry_only)));
        while i < self.registry.groups.len()
            invariant
                i <= groups.len(),
                groups == self.registry.groups@,
                self.attributes_resolve(registry_only),
                derefs(r@) == keyed_collect(selected_attributes(groups.take(i as int), self.catalog, registry_only)),
            decreases groups.len() - i,
        {
            let group = &self.registry.groups[i];
            let keep = if registry_only {
                group.is_registry_attribute_group()
            } else {
                group.group_type == GroupType::AttributeGroup
            };
            let ghost before = selected_attributes(groups.take(i as int), self.catalog, registry_only);
            assert(groups.take(i + 1).drop_last() =~= groups.take(i as int));
            assert(groups.take(i + 1).last() == *group);
            if keep {
                assert(refs_resolve(group.attributes@, self.catalog));
                let mut j: usize = 0;
                assert(before + resolved(group.attributes@.take(0), self.catalog) =~= before);
                while j < group.attributes.len()
                    invariant
                        j <= group.attributes@.len(),
                        refs_resolve(group.attributes@, self.catalog),
                        derefs(r@) == keyed_collect(before + resolved(group.attributes@.take(j as int), self.catalog)),
                    decreases group.attributes@.len() - j,
                {
                    let attr_ref = &group.attributes[j];
                    assert(self.catalog.resolves(group.attributes@[j as int]));
                    match self.catalog.attribute(attr_ref) {
                        Some(attr) => {
                            let ghost prefix = before + resolved(group.attributes@.take(j as int), self.catalog);
                            insert_by_key(&mut r, attr);
                            proof {
                                assert(before + resolved(group.attributes@.take(j + 1), self.catalog)
                                    =~= prefix.push(*attr));
                                lemma_keyed_collect_push(prefix, *attr);
                            }
                        },
                        None => {},
                    }
                    j = j + 1;
                }
                assert(group.attributes@.take(j as int) =~= group.attributes@);
            } else {
                assert(before + seq![] =~= before);
            }
            i = i + 1;
        }
        assert(groups.take(i as int) =~= groups);
        r
    }

    /// Get the attributes of the groups of attributes of the resolved
    /// telemetry schema, by name.
    #[must_use]
    pub fn attribute_map(&self) -> (r: Vec<&Attribute>)
        requires
            self.attributes_resolve(false),
        ensures
            derefs(r@) == self.attribute_model(false),
            forall|i: int| 0 <= i < r@.len() ==> self.from_attribute_groups(#[trigger] *r@[i], false),
            crate::keyed::distinct_keys(derefs(r@)),
            forall|gi: int, k: int|
                #![trigger self.registry.groups@[gi].attributes@[k]]
                0 <= gi < self.registry.groups@.len() && is_attribute_group_of(
                    self.registry.groups@[gi],
                    false,
                ) && 0 <= k < self.registry.groups@[gi].attributes@.len() ==> crate::keyed::has_key(
                    derefs(r@),
                    self.catalog.attributes@[self.registry.groups@[gi].attributes@[k].0 as int].name@,
                ),
    {
        proof {
            lemma_attribute_map_sources(*self, false);
            lemma_attribute_map_complete(*self, false);
        }
        let r = self.collect_attributes(false);
        assert forall|i: int| 0 <= i < r@.len() implies self.from_attribute_groups(#[trigger] *r@[i], false) by {
            assert(*r@[i] == derefs(r@)[i]);
            assert(*r@[i] == self.attribute_model(false)[i]);
        }
        r
    }

    /// Get the "registry" attributes of the resolved telemetry schema, by name:
    /// those of the groups of attributes whose ID starts with `registry.`.
    #[must_use]
    pub fn registry_attribute_map(&self) -> (r: Vec<&Attribute>)
        requires
            self.attributes_resolve(true),
        ensures
            derefs(r@) == self.attribute_model(true),
            forall|i: int| 0 <= i < r@.len() ==> self.from_attribute_groups(#[trigger] *r@[i], true),
            crate::keyed::distinct_keys(derefs(r@)),
            forall|gi: int, k: int|
                #![trigger self.registry.groups@[gi].attributes@[k]]
                0 <= gi < self.registry.groups@.len() && is_attribute_group_of(
                    self.registry.groups@[gi],
                    true,
                ) && 0 <= k < self.registry.groups@[gi].attributes@.len() ==> crate::keyed::has_key(
                    derefs(r@),
                    self.catalog.attributes@[self.registry.groups@[gi].attributes@[k].0 as int].name@,
                ),
    {
        proof {
            lemma_attribute_map_sources(*self, true);
            lemma_attribute_map_complete(*self, true);
        }
        let r = self.collect_attributes(true);
        assert forall|i: int| 0 <= i < r@.len() implies self.from_attribute_groups(#[trigger] *r@[i], true) by {
            assert(*r@[i] == derefs(r@)[i]);
            assert(*r@[i] == self.attribute_model(true)[i]);
        }
        r
    }

    /// Get the groups of a specific type from the resolved telemetry schema,
    /// by ID.
    #[must_use]
    pub fn groups(&self, group_type: GroupType) -> (r: Vec<&Group>)
        ensures
            derefs(r@) == self.group_model(group_type),
            forall|i: int| 0 <= i < r@.len() ==> (#[trigger] r@[i]).group_type == group_type,
            crate::keyed::distinct_keys(derefs(r@)),
            forall|j: int|
                0 <= j < self.registry.groups@.len() && (#[trigger] self.registry.groups@[j]).group_type
                    == group_type ==> crate::keyed::has_key(derefs(r@), self.registry.groups@[j].id@),
    {
        proof {
            lemma_group_map_sources(*self, group_type);
            lemma_group_map_complete(*self, group_type);
        }
        let ghost groups = self.registry.groups@;
        let mut r: Vec<&Group> = Vec::new();
        let mut i: usize = 0;
        assert(derefs(r@) =~= keyed_collect(groups_of_type(groups.take(0), group_type)));
        while i < self.registry.groups.len()
            invariant
                i <= groups.len(),
                groups == self.registry.groups@,
                derefs(r@) == keyed_collect(groups_of_type(groups.take(i as int), group_type)),
            decreases groups.len() - i,
        {
            let group = &self.registry.groups[i];
            assert(groups.take(i + 1).drop_last() =~= groups.take(i as int));
            if group.group_type == group_type {
                insert_by_key(&mut r, group);
                proof {
                    lemma_keyed_collect_push(groups_of_type(groups.take(i as int), group_type), *group);
                }
            }
            i = i + 1;
        }
        assert(groups.take(i as int) =~= groups);
        assert forall|i: int| 0 <= i < r@.len() implies (#[trigger] r@[i]).group_type == group_type by {
            assert(*r@[i] == derefs(r@)[i]);
        }
        r
    }
}

} // verus!
