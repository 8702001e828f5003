//! The differences between a schema and a baseline schema.
use vstd::prelude::*;
use vstd::string::StringExecFns;
use crate::attribute::{local_map_view, local_only_model, Attribute};
use crate::catalog::Catalog;
use crate::deprecated::{Deprecated, DeprecatedUpdated};
use crate::keyed::{
    derefs, distinct_keys, find_by_key, find_owned_by_key, has_key, index_of_key,
    insert_owned_by_key, keyed_insert, lemma_index_of_key, lemma_index_of_own_key,
    lemma_keyed_collect, lemma_keyed_insert_preserves, lemma_map_index_of_key,
    lemma_map_keyed_insert, KeyView,
};
use crate::registry::{refs_resolve, resolved, Group, GroupType, InstrumentSpec};
use crate::schema_changes::{
    fields_model, nested_changes_model, nested_entry, ChangeModel, NestedChangeModel,
    RenamedModel, SchemaChanges, SchemaItemChange, SchemaItemChangeRenamed,
    SchemaItemChangeUpdated, SchemaItemType, UpdatedModel,
};
use crate::text::{attribute_debug_text, copy_or_empty, debug_text, opt_text, same_opt_text, text_or_empty};
use crate::ResolvedTelemetrySchema;

verus! {

// ---------------------------------------------------------------------------
// What a diff records.

/// Why the replacement of a signal by an updated one could not be described.
pub ghost enum UpdateFailure {
    /// Describing updates requires the simple mode.
    NotSimpleMode,
    /// No signal of the same type has the identifier of the replacement.
    ReplacementNotFound { replaced_by_id: Seq<char>, note: Seq<char> },
    /// The instruments differ and the replacement has none.
    ReplacementWithoutInstrument { replaced_by_id: Seq<char>, note: Seq<char> },
    /// The instruments differ and the replaced signal has none.
    DeprecatedWithoutInstrument { note: Seq<char> },
    /// A local attribute that both signals define has no tag in one of them;
    /// `rendered` is the debug text of that attribute: the replaced signal's
    /// when it has no tag, else the replacement's.
    MissingTag { rendered: Seq<char>, note: Seq<char> },
}

/// One change that a diff records: a change known as text, or the failure to
/// describe an update, which is recorded as an uncategorized change.
pub ghost enum Expected {
    Exactly(ChangeModel),
    FailedUpdate { name: Seq<char>, failure: UpdateFailure },
}

pub open spec fn not_simple_text() -> Seq<char> {
    "generally, this feature implementation requires --simple mode as of now."@
}

/// The note that records a failure to describe an update.
pub open spec fn failure_note_matches(text: Seq<char>, f: UpdateFailure) -> bool {
    match f {
        UpdateFailure::NotSimpleMode => text == not_simple_text(),
        UpdateFailure::ReplacementNotFound { replaced_by_id, note } => text
            == "deprecated with the reason update have replaced_by_id "@ + replaced_by_id
            + " that can't be found. Can't compile this change; note "@ + note,
        UpdateFailure::ReplacementWithoutInstrument { replaced_by_id, note } => text
            == "deprecated with the reason update replaced_by_id "@ + replaced_by_id
            + " replacement does not have instrument specified; for metrics it's required. Can't compile this change; note "@
            + note,
        UpdateFailure::DeprecatedWithoutInstrument { note } => text
            == "deprecated with the reason update does not have instrument specified; for metrics it's required. Can't compile this change; note "@
            + note,
        UpdateFailure::MissingTag { rendered, note } => text == "tag must be specified "@ + rendered
            + " Can't compile this change; note "@ + note,
    }
}

/// Whether a recorded change is the expected one.
pub open spec fn change_matches(c: SchemaItemChange, e: Expected) -> bool {
    match e {
        Expected::Exactly(m) => c.model() == m,
        Expected::FailedUpdate { name, failure } => match c {
            SchemaItemChange::Uncategorized { name: n, note } => n@ == name
                && failure_note_matches(note@, failure),
            _ => false,
        },
    }
}

/// Whether recorded changes are the expected ones, one for one.
pub open spec fn changes_match(
    s: Seq<(SchemaItemType, SchemaItemChange)>,
    e: Seq<(SchemaItemType, Expected)>,
) -> bool {
    &&& s.len() == e.len()
    &&& forall|i: int|
        0 <= i < s.len() ==> #[trigger] s[i].0 == e[i].0 && change_matches(s[i].1, e[i].1)
}

/// Whether a change, or no change, is what `e` expects.
pub open spec fn step_matches(r: Option<SchemaItemChange>, e: Seq<Expected>) -> bool {
    match r {
        None => e.len() == 0,
        Some(c) => e.len() == 1 && change_matches(c, e[0]),
    }
}

/// Expected changes, each concerning items of type `t`.
pub open spec fn tagged(t: SchemaItemType, e: Seq<Expected>) -> Seq<(SchemaItemType, Expected)> {
    e.map_values(|x: Expected| (t, x))
}

/// Whether a deprecation differs from the one of the baseline.
pub open spec fn is_new_deprecation(d: Deprecated, baseline: Option<Deprecated>) -> bool {
    !(baseline matches Some(b) && d.same_as(b))
}

// ---------------------------------------------------------------------------
// Registry attributes.

/// What the diff records for one attribute of the most recent schema, given
/// the attributes of the baseline by name.
pub open spec fn attribute_step(a: Attribute, base: Seq<Attribute>) -> Seq<Expected> {
    let j = index_of_key(base, a.name@);
    if j < 0 {
        seq![Expected::Exactly(ChangeModel::Added { name: a.name@ })]
    } else {
        match a.deprecated {
            None => seq![],
            Some(d) => if !is_new_deprecation(d, base[j].deprecated) {
                seq![]
            } else {
                match d {
                    Deprecated::Renamed { renamed_to, note } => seq![
                        Expected::Exactly(
                            ChangeModel::Renamed(
                                RenamedModel {
                                    old_name: base[j].name@,
                                    new_name: renamed_to@,
                                    note: note@,
                                },
                            ),
                        ),
                    ],
                    Deprecated::Obsoleted { note } => seq![
                        Expected::Exactly(ChangeModel::Obsoleted { name: a.name@, note: note@ }),
                    ],
                    Deprecated::Uncategorized { note } => seq![
                        Expected::Exactly(
                            ChangeModel::Uncategorized { name: a.name@, note: note@ },
                        ),
                    ],
                    Deprecated::Updated(_) => seq![],
                }
            },
        }
    }
}

/// A registry attribute present in both schemas that became deprecated by an
/// update, which no change of registry attributes can describe.
pub open spec fn attribute_update_unsupported(a: Attribute, base: Seq<Attribute>) -> bool {
    let j = index_of_key(base, a.name@);
    &&& j >= 0
    &&& a.deprecated matches Some(d) && d is Updated && is_new_deprecation(d, base[j].deprecated)
}

/// Whether no attribute of `latest` became deprecated by an update.
pub open spec fn attribute_updates_supported(latest: Seq<Attribute>, base: Seq<Attribute>) -> bool {
    forall|i: int| 0 <= i < latest.len() ==> !attribute_update_unsupported(#[trigger] latest[i], base)
}

/// What the diff records for the attributes of `latest`, in order.
pub open spec fn attribute_changes_of(latest: Seq<Attribute>, base: Seq<Attribute>) -> Seq<Expected>
    decreases latest.len(),
{
    if latest.len() == 0 {
        seq![]
    } else {
        attribute_changes_of(latest.drop_last(), base) + attribute_step(latest.last(), base)
    }
}

/// The attributes of `base` whose name `latest` lacks, recorded as removed.
pub open spec fn removed_attributes(base: Seq<Attribute>, latest: Seq<Attribute>) -> Seq<Expected>
    decreases base.len(),
{
    if base.len() == 0 {
        seq![]
    } else {
        removed_attributes(base.drop_last(), latest) + if has_key(latest, base.last().name@) {
            seq![]
        } else {
            seq![Expected::Exactly(ChangeModel::Removed { name: base.last().name@ })]
        }
    }
}

/// What the diff records for the registry attributes.
pub open spec fn attribute_diff(latest: Seq<Attribute>, base: Seq<Attribute>) -> Seq<Expected> {
    attribute_changes_of(latest, base) + removed_attributes(base, latest)
}

// ---------------------------------------------------------------------------
// Updated signals.

/// A changed field, as text.
pub open spec fn field_change(name: Seq<char>, old: Seq<char>, new: Seq<char>) -> (
    Seq<char>,
    RenamedModel,
) {
    (name, RenamedModel { old_name: old, new_name: new, note: seq![] })
}

/// The changed text fields between the replaced signal `g` and its replacement `r`.
pub open spec fn text_fields(g: Group, r: Group) -> Seq<(Seq<char>, RenamedModel)> {
    (if opt_text(r.metric_name) != opt_text(g.metric_name) {
        seq![field_change("metric_name"@, text_or_empty(g.metric_name), text_or_empty(r.metric_name))]
    } else {
        seq![]
    }) + (if opt_text(r.unit) != opt_text(g.unit) {
        seq![field_change("unit"@, text_or_empty(g.unit), text_or_empty(r.unit))]
    } else {
        seq![]
    })
}

/// The changed fields between the replaced signal `g` and its replacement `r`.
/// For the instrument, the name before is the replacement's and the name after
/// is the replaced signal's.
pub open spec fn fields_result(up: DeprecatedUpdated, g: Group, r: Group) -> Result<
    Seq<(Seq<char>, RenamedModel)>,
    UpdateFailure,
> {
    let f = text_fields(g, r);
    if r.instrument != g.instrument {
        match (r.instrument, g.instrument) {
            (None, _) => Err(
                UpdateFailure::ReplacementWithoutInstrument {
                    replaced_by_id: up.replaced_by_id@,
                    note: up.note@,
                },
            ),
            (Some(_), None) => Err(UpdateFailure::DeprecatedWithoutInstrument { note: up.note@ }),
            (Some(ri), Some(gi)) => Ok(
                f.push(field_change("instrument"@, ri.text_view(), gi.text_view())),
            ),
        }
    } else {
        Ok(f)
    }
}

/// The attributes of a group, or none when the catalog lacks one of them.
pub open spec fn attrs_or_empty(g: Group, catalog: Catalog) -> Seq<Attribute> {
    if refs_resolve(g.attributes@, catalog) {
        resolved(g.attributes@, catalog)
    } else {
        seq![]
    }
}

/// What the update records for one local attribute `e` of the replacement,
/// given the local attributes of the replaced signal.
pub open spec fn local_attribute_step(
    acc: Seq<(Seq<char>, NestedChangeModel)>,
    e: (Seq<char>, Attribute),
    dep: Seq<(Seq<char>, Attribute)>,
    note: Seq<char>,
) -> Result<Seq<(Seq<char>, NestedChangeModel)>, UpdateFailure> {
    let k = e.0;
    let j = index_of_key(dep, k);
    if j < 0 {
        Ok(keyed_insert(acc, (k, NestedChangeModel::Added { name: k })))
    } else {
        match (dep[j].1.tag, e.1.tag) {
            (None, _) => Err(
                UpdateFailure::MissingTag { rendered: attribute_debug_text(dep[j].1@), note },
            ),
            (Some(_), None) => Err(
                UpdateFailure::MissingTag { rendered: attribute_debug_text(e.1@), note },
            ),
            (Some(dt), Some(rt)) => if dt@ != rt@ {
                Ok(
                    keyed_insert(
                        acc,
                        (
                            k,
                            NestedChangeModel::Renamed(
                                RenamedModel { old_name: dt@, new_name: rt@, note: seq![] },
                            ),
                        ),
                    ),
                )
            } else {
                Ok(acc)
            },
        }
    }
}

/// What the update records for the local attributes of the replacement, in order.
pub open spec fn replacement_attribute_changes(
    rep: Seq<(Seq<char>, Attribute)>,
    dep: Seq<(Seq<char>, Attribute)>,
    note: Seq<char>,
) -> Result<Seq<(Seq<char>, NestedChangeModel)>, UpdateFailure>
    decreases rep.len(),
{
    if rep.len() == 0 {
        Ok(seq![])
    } else {
        match replacement_attribute_changes(rep.drop_last(), dep, note) {
            Ok(acc) => local_attribute_step(acc, rep.last(), dep, note),
            Err(f) => Err(f),
        }
    }
}

/// Records as removed, under its name, each local attribute of the replaced
/// signal whose local identifier the replacement lacks.
pub open spec fn removed_local_attributes(
    dep: Seq<(Seq<char>, Attribute)>,
    rep: Seq<(Seq<char>, Attribute)>,
    acc: Seq<(Seq<char>, NestedChangeModel)>,
) -> Seq<(Seq<char>, NestedChangeModel)>
    decreases dep.len(),
{
    if dep.len() == 0 {
        acc
    } else {
        let prior = removed_local_attributes(dep.drop_last(), rep, acc);
        let a = dep.last().1;
        if has_key(rep, dep.last().0) {
            prior
        } else {
            keyed_insert(prior, (a.name@, NestedChangeModel::Removed { name: a.name@ }))
        }
    }
}

/// The changes of the local attributes between two signals.
pub open spec fn local_attribute_changes_model(
    rep: Seq<(Seq<char>, Attribute)>,
    dep: Seq<(Seq<char>, Attribute)>,
    note: Seq<char>,
) -> Result<Seq<(Seq<char>, NestedChangeModel)>, UpdateFailure> {
    match replacement_attribute_changes(rep, dep, note) {
        Ok(acc) => Ok(removed_local_attributes(dep, rep, acc)),
        Err(f) => Err(f),
    }
}

/// The description of the replacement of signal `g` by an updated one, among
/// the signals `latest` of its type by identifier.
pub open spec fn update_model(
    up: DeprecatedUpdated,
    g: Group,
    latest: Seq<Group>,
    catalog: Catalog,
    simple_mode: bool,
) -> Result<UpdatedModel, UpdateFailure> {
    if !simple_mode {
        Err(UpdateFailure::NotSimpleMode)
    } else {
        let ri = index_of_key(latest, up.replaced_by_id@);
        if ri < 0 {
            Err(
                UpdateFailure::ReplacementNotFound {
                    replaced_by_id: up.replaced_by_id@,
                    note: up.note@,
                },
            )
        } else {
            let r = latest[ri];
            match fields_result(up, g, r) {
                Err(f) => Err(f),
                Ok(fields) => match local_attribute_changes_model(
                    local_only_model(attrs_or_empty(r, catalog)),
                    local_only_model(attrs_or_empty(g, catalog)),
                    up.note@,
                ) {
                    Err(f) => Err(f),
                    Ok(attributes) => Ok(
                        UpdatedModel {
                            id: g.id@,
                            replaced_by_id: up.replaced_by_id@,
                            forward_promql: up.forward_promql@,
                            backward_promql: up.backward_promql@,
                            fields,
                            attributes,
                            note: up.note@,
                        },
                    ),
                },
            }
        }
    }
}

/// Whether an update result is the described one.
pub open spec fn update_matches(
    r: Result<SchemaItemChangeUpdated, String>,
    m: Result<UpdatedModel, UpdateFailure>,
) -> bool {
    match (r, m) {
        (Ok(u), Ok(um)) => u.model() == um,
        (Err(e), Err(f)) => failure_note_matches(e@, f),
        _ => false,
    }
}

// ---------------------------------------------------------------------------
// Signals.

/// What the diff records for one signal `g` of the most recent schema, given
/// the signals of its type in the baseline and in the most recent schema.
pub open spec fn signal_step(
    g: Group,
    base: Seq<Group>,
    latest: Seq<Group>,
    catalog: Catalog,
    simple_mode: bool,
) -> Seq<Expected> {
    let j = index_of_key(base, g.id@);
    if j < 0 {
        seq![Expected::Exactly(ChangeModel::Added { name: g.id@ })]
    } else {
        match g.deprecated {
            None => seq![],
            Some(d) => if !is_new_deprecation(d, base[j].deprecated) {
                seq![]
            } else {
                match d {
                    Deprecated::Updated(up) => match update_model(
                        up,
                        g,
                        latest,
                        catalog,
                        simple_mode,
                    ) {
                        Ok(u) => seq![Expected::Exactly(ChangeModel::Updated(u))],
                        Err(f) => seq![Expected::FailedUpdate { name: g.id@, failure: f }],
                    },
                    Deprecated::Renamed { renamed_to, note } => seq![
                        Expected::Exactly(
                            ChangeModel::Renamed(
                                RenamedModel { old_name: g.id@, new_name: renamed_to@, note: note@ },
                            ),
                        ),
                    ],
                    Deprecated::Obsoleted { note } => seq![
                        Expected::Exactly(ChangeModel::Obsoleted { name: g.id@, note: note@ }),
                    ],
                    Deprecated::Uncategorized { note } => seq![
                        Expected::Exactly(ChangeModel::Uncategorized { name: g.id@, note: note@ }),
                    ],
                }
            },
        }
    }
}

/// What the diff records for the signals of `prefix`, in order.
pub open spec fn signal_changes_of(
    prefix: Seq<Group>,
    base: Seq<Group>,
    latest: Seq<Group>,
    catalog: Catalog,
    simple_mode: bool,
) -> Seq<Expected>
    decreases prefix.len(),
{
    if prefix.len() == 0 {
        seq![]
    } else {
        signal_changes_of(prefix.drop_last(), base, latest, catalog, simple_mode) + signal_step(
            prefix.last(),
            base,
            latest,
            catalog,
            simple_mode,
        )
    }
}

/// The signals of `base` whose identifier `latest` lacks, recorded as removed.
pub open spec fn removed_signals(base: Seq<Group>, latest: Seq<Group>) -> Seq<Expected>
    decreases base.len(),
{
    if base.len() == 0 {
        seq![]
    } else {
        removed_signals(base.drop_last(), latest) + if has_key(latest, base.last().id@) {
            seq![]
        } else {
            seq![Expected::Exactly(ChangeModel::Removed { name: base.last().id@ })]
        }
    }
}

/// What the diff records for the signals of one type.
pub open spec fn signal_diff(
    latest: Seq<Group>,
    base: Seq<Group>,
    catalog: Catalog,
    simple_mode: bool,
) -> Seq<Expected> {
    signal_changes_of(latest, base, latest, catalog, simple_mode) + removed_signals(base, latest)
}

// ---------------------------------------------------------------------------
// Whole schemas.

/// The requirements of a diff: the catalog of each schema holds the attributes
/// of its registry groups, and no registry attribute became deprecated by an update.
pub open spec fn diff_supported(latest: ResolvedTelemetrySchema, base: ResolvedTelemetrySchema) -> bool {
    &&& latest.attributes_resolve(true)
    &&& base.attributes_resolve(true)
    &&& attribute_updates_supported(latest.attribute_model(true), base.attribute_model(true))
}

/// What the diff records for the signals of group type `g` as changes of item
/// type `t`.
pub open spec fn signal_part(
    latest: ResolvedTelemetrySchema,
    base: ResolvedTelemetrySchema,
    g: GroupType,
    t: SchemaItemType,
    simple_mode: bool,
) -> Seq<(SchemaItemType, Expected)> {
    tagged(t, signal_diff(latest.group_model(g), base.group_model(g), latest.catalog, simple_mode))
}

/// Everything that the diff records, in order: the registry attributes, then
/// metrics, events, spans and resources.
pub open spec fn diff_model(
    latest: ResolvedTelemetrySchema,
    base: ResolvedTelemetrySchema,
    simple_mode: bool,
) -> Seq<(SchemaItemType, Expected)> {
    tagged(
        SchemaItemType::RegistryAttributes,
        attribute_diff(latest.attribute_model(true), base.attribute_model(true)),
    ) + signal_part(latest, base, GroupType::Metric, SchemaItemType::Metrics, simple_mode)
        + signal_part(latest, base, GroupType::Event, SchemaItemType::Events, simple_mode)
        + signal_part(latest, base, GroupType::Span, SchemaItemType::Spans, simple_mode)
        + signal_part(latest, base, GroupType::Resource, SchemaItemType::Resources, simple_mode)
}

// ---------------------------------------------------------------------------
// Messages.

fn text_not_simple() -> (s: String)
    ensures
        failure_note_matches(s@, UpdateFailure::NotSimpleMode),
{
    "generally, this feature implementation requires --simple mode as of now.".to_owned()
}

fn text_not_found(up: &DeprecatedUpdated) -> (s: String)
    ensures
        failure_note_matches(
            s@,
            UpdateFailure::ReplacementNotFound { replaced_by_id: up.replaced_by_id@, note: up.note@ },
        ),
{
    "deprecated with the reason update have replaced_by_id ".to_owned().concat(
        up.replaced_by_id.as_str(),
    ).concat(" that can't be found. Can't compile this change; note ").concat(up.note.as_str())
}

fn text_replacement_without_instrument(up: &DeprecatedUpdated) -> (s: String)
    ensures
        failure_note_matches(
            s@,
            UpdateFailure::ReplacementWithoutInstrument {
                replaced_by_id: up.replaced_by_id@,
                note: up.note@,
            },
        ),
{
    "deprecated with the reason update replaced_by_id ".to_owned().concat(
        up.replaced_by_id.as_str(),
    ).concat(
        " replacement does not have instrument specified; for metrics it's required. Can't compile this change; note ",
    ).concat(up.note.as_str())
}

fn text_deprecated_without_instrument(up: &DeprecatedUpdated) -> (s: String)
    ensures
        failure_note_matches(s@, UpdateFailure::DeprecatedWithoutInstrument { note: up.note@ }),
{
    "deprecated with the reason update does not have instrument specified; for metrics it's required. Can't compile this change; note ".to_owned().concat(
    up.note.as_str())
}

fn text_missing_tag(a: &Attribute, up: &DeprecatedUpdated) -> (s: String)
    ensures
        failure_note_matches(
            s@,
            UpdateFailure::MissingTag { rendered: attribute_debug_text(a@), note: up.note@ },
        ),
{
    let rendered = debug_text(a);
    let s = "tag must be specified ".to_owned().concat(rendered.as_str()).concat(
        " Can't compile this change; note ",
    ).concat(up.note.as_str());
    assert(s@ == "tag must be specified "@ + rendered@ + " Can't compile this change; note "@
        + up.note@);
    s
}

// ---------------------------------------------------------------------------
// Describing an update.

fn same_instrument(a: &Option<InstrumentSpec>, b: &Option<InstrumentSpec>) -> (r: bool)
    ensures
        r == (*a == *b),
{
    match (a, b) {
        (Some(x), Some(y)) => *x == *y,
        (None, None) => true,
        _ => false,
    }
}

fn renamed_field(name: &str, old_name: String, new_name: String) -> (r: (String, SchemaItemChangeRenamed))
    ensures
        (r.0@, r.1.model()) == field_change(name@, old_name@, new_name@),
{
    (name.to_owned(), SchemaItemChangeRenamed { old_name, new_name, note: String::new() })
}

/// The changed fields between the replaced signal `g` and its replacement `r`.
fn field_changes(up: &DeprecatedUpdated, g: &Group, r: &Group) -> (res: Result<
    Vec<(String, SchemaItemChangeRenamed)>,
    String,
>)
    ensures
        match (res, fields_result(*up, *g, *r)) {
            (Ok(v), Ok(m)) => fields_model(v@) == m,
            (Err(e), Err(f)) => failure_note_matches(e@, f),
            _ => false,
        },
{
    let mut fields: Vec<(String, SchemaItemChangeRenamed)> = Vec::new();
    if !same_opt_text(&r.metric_name, &g.metric_name) {
        fields.push(
            renamed_field("metric_name", copy_or_empty(&g.metric_name), copy_or_empty(&r.metric_name)),
        );
    }
    let ghost after_metric = fields@;
    if !same_opt_text(&r.unit, &g.unit) {
        fields.push(renamed_field("unit", copy_or_empty(&g.unit), copy_or_empty(&r.unit)));
    }
    assert(fields_model(fields@) =~= text_fields(*g, *r)) by {
        assert(fields_model(after_metric) =~= (if opt_text(r.metric_name) != opt_text(g.metric_name) {
            seq![field_change("metric_name"@, text_or_empty(g.metric_name), text_or_empty(r.metric_name))]
        } else {
            seq![]
        }));
    }
    if !same_instrument(&r.instrument, &g.instrument) {
        let replacement_instr = match &r.instrument {
            Some(s) => s,
            None => {
                return Err(text_replacement_without_instrument(up));
            },
        };
        let deprecated_instr = match &g.instrument {
            Some(s) => s,
            None => {
                return Err(text_deprecated_without_instrument(up));
            },
        };
        let ghost before = fields@;
        fields.push(renamed_field("instrument", replacement_instr.text(), deprecated_instr.text()));
        assert(fields_model(fields@) =~= fields_model(before).push(
            field_change("instrument"@, replacement_instr.text_view(), deprecated_instr.text_view()),
        ));
    }
    Ok(fields)
}

/// The attributes of a group, or none when the catalog lacks one of them.
fn attributes_or_empty<'a>(g: &Group, catalog: &'a Catalog) -> (r: Vec<&'a Attribute>)
    ensures
        derefs(r@) == attrs_or_empty(*g, *catalog),
{
    match g.attributes(catalog) {
        Ok(v) => v,
        Err(_) => {
            let v: Vec<&'a Attribute> = Vec::new();
            assert(derefs(v@) =~= Seq::<Attribute>::empty());
            v
        },
    }
}

proof fn lemma_local_lookup(m: Seq<(String, &Attribute)>, k: Seq<char>)
    ensures
        index_of_key(m, k) == index_of_key(local_map_view(m), k),
{
    let f = |p: (String, &Attribute)| (p.0@, *p.1);
    assert(local_map_view(m) == m.map_values(f));
    lemma_map_index_of_key(m, f, k);
}

proof fn lemma_nested_insert(acc: Seq<(String, SchemaItemChange)>, x: (String, SchemaItemChange))
    ensures
        nested_changes_model(keyed_insert(acc, x)) == keyed_insert(nested_changes_model(acc), nested_entry(x)),
{
    let f = |p: (String, SchemaItemChange)| nested_entry(p);
    lemma_map_keyed_insert(acc, x, f);
    assert(nested_changes_model(keyed_insert(acc, x)) == keyed_insert(acc, x).map_values(f));
    assert(nested_changes_model(acc) == acc.map_values(f));
}

/// Once a prefix of the replacement's attributes fails, all of them fail alike.
proof fn lemma_failure_persists(
    rep: Seq<(Seq<char>, Attribute)>,
    dep: Seq<(Seq<char>, Attribute)>,
    note: Seq<char>,
    n: int,
)
    requires
        0 <= n <= rep.len(),
        replacement_attribute_changes(rep.take(n), dep, note) is Err,
    ensures
        replacement_attribute_changes(rep, dep, note) == replacement_attribute_changes(rep.take(n), dep, note),
    decreases rep.len() - n,
{
    if n < rep.len() {
        assert(rep.take(n + 1).drop_last() =~= rep.take(n));
        lemma_failure_persists(rep, dep, note, n + 1);
    } else {
        assert(rep.take(n) =~= rep);
    }
}

/// The changes of the local attributes between the replaced signal (`dep`) and
/// its replacement (`rep`).
fn local_attribute_changes(
    rep: &Vec<(String, &Attribute)>,
    dep: &Vec<(String, &Attribute)>,
    up: &DeprecatedUpdated,
) -> (res: Result<Vec<(String, SchemaItemChange)>, String>)
    ensures
        match (res, local_attribute_changes_model(local_map_view(rep@), local_map_view(dep@), up.note@)) {
            (Ok(v), Ok(m)) => nested_changes_model(v@) == m,
            (Err(e), Err(f)) => failure_note_matches(e@, f),
            _ => false,
        },
{
    let ghost rm = local_map_view(rep@);
    let ghost dm = local_map_view(dep@);
    let mut acc: Vec<(String, SchemaItemChange)> = Vec::new();
    let mut i: usize = 0;
    assert(nested_changes_model(acc@) =~= Seq::<(Seq<char>, NestedChangeModel)>::empty());
    while i < rep.len()
        invariant
            i <= rep@.len(),
            rm == local_map_view(rep@),
            dm == local_map_view(dep@),
            replacement_attribute_changes(rm.take(i as int), dm, up.note@) == Ok::<
                Seq<(Seq<char>, NestedChangeModel)>,
                UpdateFailure,
            >(nested_changes_model(acc@)),
        decreases rep@.len() - i,
    {
        let k = &rep[i].0;
        let ra: &Attribute = rep[i].1;
        assert(rm.take(i + 1).drop_last() =~= rm.take(i as int));
        assert(rm.take(i + 1).last() == (k@, *ra));
        proof {
            lemma_local_lookup(dep@, k@);
            lemma_index_of_key(dep@, k@);
        }
        match find_owned_by_key(dep, k) {
            None => {
                let entry = (k.clone(), SchemaItemChange::Added { name: k.clone() });
                let ghost before = acc@;
                insert_owned_by_key(&mut acc, entry);
                proof {
                    lemma_nested_insert(before, entry);
                }
            },
            Some(j) => {
                let da: &Attribute = dep[j].1;
                assert(dm[j as int].1 == *da);
                let d_tag = match &da.tag {
                    Some(s) => s,
                    None => {
                        proof {
                            lemma_failure_persists(rm, dm, up.note@, i + 1);
                        }
                        return Err(text_missing_tag(da, up));
                    },
                };
                let r_tag = match &ra.tag {
                    Some(s) => s,
                    None => {
                        proof {
                            lemma_failure_persists(rm, dm, up.note@, i + 1);
                        }
                        return Err(text_missing_tag(ra, up));
                    },
                };
                if *d_tag != *r_tag {
                    let entry = (
                        k.clone(),
                        SchemaItemChange::Renamed(
                            SchemaItemChangeRenamed {
                                old_name: d_tag.clone(),
                                new_name: r_tag.clone(),
                                note: String::new(),
                            },
                        ),
                    );
                    let ghost before = acc@;
                    insert_owned_by_key(&mut acc, entry);
                    proof {
                        lemma_nested_insert(before, entry);
                    }
                }
            },
        }
        i = i + 1;
    }
    assert(rm.take(i as int) =~= rm);
    let ghost acc0 = nested_changes_model(acc@);
    let mut i: usize = 0;
    while i < dep.len()
        invariant
            i <= dep@.len(),
            rm == local_map_view(rep@),
            dm == local_map_view(dep@),
            nested_changes_model(acc@) == removed_local_attributes(dm.take(i as int), rm, acc0),
        decreases dep@.len() - i,
    {
        let dk = &dep[i].0;
        let da: &Attribute = dep[i].1;
        assert(dm.take(i + 1).drop_last() =~= dm.take(i as int));
        assert(dm.take(i + 1).last() == (dk@, *da));
        proof {
            lemma_local_lookup(rep@, dk@);
        }
        if find_owned_by_key(rep, dk).is_none() {
            let entry = (da.name.clone(), SchemaItemChange::Removed { name: da.name.clone() });
            let ghost before = acc@;
            insert_owned_by_key(&mut acc, entry);
            proof {
                lemma_nested_insert(before, entry);
            }
        }
        i = i + 1;
    }
    assert(dm.take(i as int) =~= dm);
    Ok(acc)
}

impl ResolvedTelemetrySchema {
    /// Describes the replacement of the signal `deprecated_group` by an updated
    /// one, among the signals `latest_signals` of its type by identifier.
    /// Only the simple mode describes updates.
    fn detect_replace_updated_change(
        &self,
        deprecated_entry: &DeprecatedUpdated,
        deprecated_group: &Group,
        latest_signals: &Vec<&Group>,
        simple_mode: bool,
    ) -> (res: Result<SchemaItemChangeUpdated, String>)
        ensures
            update_matches(
                res,
                update_model(
                    *deprecated_entry,
                    *deprecated_group,
                    derefs(latest_signals@),
                    self.catalog,
                    simple_mode,
                ),
            ),
    {
        if !simple_mode {
            return Err(text_not_simple());
        }
        let replacement: &Group = match find_by_key(latest_signals, &deprecated_entry.replaced_by_id) {
            Some(i) => latest_signals[i],
            None => {
                return Err(text_not_found(deprecated_entry));
            },
        };
        let fields = match field_changes(deprecated_entry, deprecated_group, replacement) {
            Ok(f) => f,
            Err(e) => {
                return Err(e);
            },
        };
        let deprecated_attributes = Attribute::local_only_map(
            &attributes_or_empty(deprecated_group, &self.catalog),
        );
        let replacement_attributes = Attribute::local_only_map(
            &attributes_or_empty(replacement, &self.catalog),
        );
        let attributes = match local_attribute_changes(
            &replacement_attributes,
            &deprecated_attributes,
            deprecated_entry,
        ) {
            Ok(a) => a,
            Err(e) => {
                return Err(e);
            },
        };
        Ok(
            SchemaItemChangeUpdated {
                id: deprecated_group.id.clone(),
                replaced_by_id: deprecated_entry.replaced_by_id.clone(),
                forward_promql: deprecated_entry.forward_promql.clone(),
                backward_promql: deprecated_entry.backward_promql.clone(),
                fields,
                attributes,
                note: deprecated_entry.note.clone(),
            },
        )
    }
}

// ---------------------------------------------------------------------------
// Recording changes.

/// `new` is `old` followed by changes that are the expected ones `e`.
pub open spec fn appended(
    old: Seq<(SchemaItemType, SchemaItemChange)>,
    new: Seq<(SchemaItemType, SchemaItemChange)>,
    e: Seq<(SchemaItemType, Expected)>,
) -> bool {
    &&& old.len() <= new.len()
    &&& new.take(old.len() as int) == old
    &&& changes_match(new.skip(old.len() as int), e)
}

proof fn lemma_appended_nothing(s: Seq<(SchemaItemType, SchemaItemChange)>)
    ensures
        appended(s, s, seq![]),
{
    assert(s.take(s.len() as int) =~= s);
    assert(s.skip(s.len() as int) =~= seq![]);
}

proof fn lemma_appended_step(
    old: Seq<(SchemaItemType, SchemaItemChange)>,
    mid: Seq<(SchemaItemType, SchemaItemChange)>,
    e: Seq<(SchemaItemType, Expected)>,
    t: SchemaItemType,
    r: Option<SchemaItemChange>,
    step: Seq<Expected>,
    new: Seq<(SchemaItemType, SchemaItemChange)>,
)
    requires
        appended(old, mid, e),
        step_matches(r, step),
        match r {
            Some(c) => new == mid.push((t, c)),
            None => new == mid,
        },
    ensures
        appended(old, new, e + tagged(t, step)),
{
    let n = old.len() as int;
    match r {
        Some(c) => {
            assert(new.take(n) =~= old);
            assert(new.skip(n) =~= mid.skip(n).push((t, c)));
            assert(e + tagged(t, step) =~= e.push((t, step[0])));
        },
        None => {
            assert(e + tagged(t, step) =~= e);
        },
    }
}

proof fn lemma_appended_chain(
    a: Seq<(SchemaItemType, SchemaItemChange)>,
    b: Seq<(SchemaItemType, SchemaItemChange)>,
    c: Seq<(SchemaItemType, SchemaItemChange)>,
    e1: Seq<(SchemaItemType, Expected)>,
    e2: Seq<(SchemaItemType, Expected)>,
)
    requires
        appended(a, b, e1),
        appended(b, c, e2),
    ensures
        appended(a, c, e1 + e2),
{
    let na = a.len() as int;
    let nb = b.len() as int;
    assert(c.take(na) =~= b.take(na));
    let s = c.skip(na);
    let e = e1 + e2;
    assert forall|i: int| 0 <= i < s.len() implies #[trigger] s[i].0 == e[i].0 && change_matches(s[i].1, e[i].1) by {
        if i < nb - na {
            assert(s[i] == b.skip(na)[i]);
        } else {
            assert(s[i] == c.skip(nb)[i - (nb - na)]);
        }
    }
}

proof fn lemma_tagged_concat(t: SchemaItemType, a: Seq<Expected>, b: Seq<Expected>)
    ensures
        tagged(t, a + b) == tagged(t, a) + tagged(t, b),
{
    assert(tagged(t, a + b) =~= tagged(t, a) + tagged(t, b));
}

/// What the diff records for one registry attribute.
fn attribute_change(attr: &Attribute, baseline_attributes: &Vec<&Attribute>) -> (r: Option<SchemaItemChange>)
    requires
        !attribute_update_unsupported(*attr, derefs(baseline_attributes@)),
    ensures
        step_matches(r, attribute_step(*attr, derefs(baseline_attributes@))),
{
    proof {
        lemma_index_of_key(derefs(baseline_attributes@), attr.name@);
    }
    match find_by_key(baseline_attributes, &attr.name) {
        None => Some(SchemaItemChange::Added { name: attr.name.clone() }),
        Some(j) => {
            let baseline_attr: &Attribute = baseline_attributes[j];
            assert(derefs(baseline_attributes@)[j as int] == *baseline_attr);
            match &attr.deprecated {
                None => None,
                Some(deprecated) => {
                    if let Some(baseline_deprecated) = &baseline_attr.deprecated {
                        if deprecated == baseline_deprecated {
                            return None;
                        }
                    }
                    match deprecated {
                        Deprecated::Updated(_) => {
                            assert(false);
                            None
                        },
                        Deprecated::Renamed { renamed_to, note } => Some(
                            SchemaItemChange::Renamed(
                                SchemaItemChangeRenamed {
                                    old_name: baseline_attr.name.clone(),
                                    new_name: renamed_to.clone(),
                                    note: note.clone(),
                                },
                            ),
                        ),
                        Deprecated::Obsoleted { note } => Some(
                            SchemaItemChange::Obsoleted { name: attr.name.clone(), note: note.clone() },
                        ),
                        Deprecated::Uncategorized { note } => Some(
                            SchemaItemChange::Uncategorized {
                                name: attr.name.clone(),
                                note: note.clone(),
                            },
                        ),
                    }
                },
            }
        },
    }
}

impl ResolvedTelemetrySchema {
    /// Whether a diff of this schema against `baseline_schema` can be computed:
    /// the catalogs hold the attributes of the registry groups, and no registry
    /// attribute present in both became deprecated by an update.
    pub fn can_diff(&self, baseline_schema: &ResolvedTelemetrySchema) -> (r: bool)
        ensures
            r == diff_supported(*self, *baseline_schema),
    {
        if !self.attributes_are_resolved(true) || !baseline_schema.attributes_are_resolved(true) {
            return false;
        }
        let latest_attributes = self.registry_attribute_map();
        let baseline_attributes = baseline_schema.registry_attribute_map();
        let ghost l = derefs(latest_attributes@);
        let ghost b = derefs(baseline_attributes@);
        let mut i: usize = 0;
        while i < latest_attributes.len()
            invariant
                i <= latest_attributes@.len(),
                l == derefs(latest_attributes@),
                b == derefs(baseline_attributes@),
                l == self.attribute_model(true),
                b == baseline_schema.attribute_model(true),
                self.attributes_resolve(true),
                baseline_schema.attributes_resolve(true),
                forall|k: int| 0 <= k < i ==> !attribute_update_unsupported(#[trigger] l[k], b),
            decreases latest_attributes@.len() - i,
        {
            let attr: &Attribute = latest_attributes[i];
            assert(l[i as int] == *attr);
            proof {
                lemma_index_of_key(b, attr.name@);
            }
            if let Some(j) = find_by_key(&baseline_attributes, &attr.name) {
                let baseline_attr: &Attribute = baseline_attributes[j];
                assert(b[j as int] == *baseline_attr);
                if let Some(deprecated) = &attr.deprecated {
                    let unchanged = match &baseline_attr.deprecated {
                        Some(baseline_deprecated) => deprecated == baseline_deprecated,
                        None => false,
                    };
                    if !unchanged {
                        if let Deprecated::Updated(_) = deprecated {
                            assert(attribute_update_unsupported(l[i as int], b));
                            assert(!attribute_updates_supported(l, b));
                            return false;
                        }
                    }
                }
            }
            i = i + 1;
        }
        true
    }

    /// Records the changes of the registry attributes.
    fn diff_attributes(&self, baseline_schema: &ResolvedTelemetrySchema, changes: &mut SchemaChanges)
        requires
            diff_supported(*self, *baseline_schema),
        ensures
            appended(
                old(changes).entries(),
                final(changes).entries(),
                tagged(
                    SchemaItemType::RegistryAttributes,
                    attribute_diff(self.attribute_model(true), baseline_schema.attribute_model(true)),
                ),
            ),
            final(changes).head() == old(changes).head(),
            final(changes).baseline() == old(changes).baseline(),
    {
        let latest_attributes = self.registry_attribute_map();
        let baseline_attributes = baseline_schema.registry_attribute_map();
        let ghost l = derefs(latest_attributes@);
        let ghost b = derefs(baseline_attributes@);
        let ghost start = changes.entries();
        let t = SchemaItemType::RegistryAttributes;
        proof {
            lemma_appended_nothing(start);
            assert(tagged(t, seq![]) =~= Seq::<(SchemaItemType, Expected)>::empty());
        }
        let mut i: usize = 0;
        while i < latest_attributes.len()
            invariant
                i <= latest_attributes@.len(),
                l == derefs(latest_attributes@),
                b == derefs(baseline_attributes@),
                attribute_updates_supported(l, b),
                appended(start, changes.entries(), tagged(t, attribute_changes_of(l.take(i as int), b))),
                changes.head() == old(changes).head(),
                changes.baseline() == old(changes).baseline(),
            decreases latest_attributes@.len() - i,
        {
            let attr: &Attribute = latest_attributes[i];
            assert(l[i as int] == *attr);
            assert(l.take(i + 1).drop_last() =~= l.take(i as int));
            let ghost mid = changes.entries();
            let r = attribute_change(attr, &baseline_attributes);
            match r {
                Some(c) => {
                    changes.add_change(t, c);
                },
                None => {},
            }
            proof {
                lemma_appended_step(start, mid, tagged(t, attribute_changes_of(l.take(i as int), b)), t, r,
                    attribute_step(*attr, b), changes.entries());
                lemma_tagged_concat(t, attribute_changes_of(l.take(i as int), b), attribute_step(*attr, b));
            }
            i = i + 1;
        }
        assert(l.take(i as int) =~= l);
        let ghost added = attribute_changes_of(l, b);
        let mut i: usize = 0;
        assert(added + removed_attributes(b.take(0), l) =~= added);
        while i < baseline_attributes.len()
            invariant
                i <= baseline_attributes@.len(),
                l == derefs(latest_attributes@),
                b == derefs(baseline_attributes@),
                added == attribute_changes_of(l, b),
                appended(start, changes.entries(), tagged(t, added + removed_attributes(b.take(i as int), l))),
                changes.head() == old(changes).head(),
                changes.baseline() == old(changes).baseline(),
            decreases baseline_attributes@.len() - i,
        {
            let attr: &Attribute = baseline_attributes[i];
            assert(b[i as int] == *attr);
            assert(b.take(i + 1).drop_last() =~= b.take(i as int));
            let ghost mid = changes.entries();
            let ghost step = if has_key(l, attr.name@) {
                seq![]
            } else {
                seq![Expected::Exactly(ChangeModel::Removed { name: attr.name@ })]
            };
            let r = if find_by_key(&latest_attributes, &attr.name).is_none() {
                Some(SchemaItemChange::Removed { name: attr.name.clone() })
            } else {
                None
            };
            match r {
                Some(c) => {
                    changes.add_change(t, c);
                },
                None => {},
            }
            proof {
                let prior = added + removed_attributes(b.take(i as int), l);
                lemma_appended_step(start, mid, tagged(t, prior), t, r, step, changes.entries());
                lemma_tagged_concat(t, prior, step);
                assert(added + removed_attributes(b.take(i + 1), l) =~= prior + step);
            }
            i = i + 1;
        }
        assert(b.take(i as int) =~= b);
    }
}

impl ResolvedTelemetrySchema {
    /// What the diff records for one signal.
    fn signal_change(
        &self,
        id: &String,
        group: &Group,
        latest_signals: &Vec<&Group>,
        baseline_signals: &Vec<&Group>,
        simple_mode: bool,
    ) -> (r: Option<SchemaItemChange>)
        requires
            id@ == group.id@,
        ensures
            step_matches(
                r,
                signal_step(
                    *group,
                    derefs(baseline_signals@),
                    derefs(latest_signals@),
                    self.catalog,
                    simple_mode,
                ),
            ),
    {
        proof {
            lemma_index_of_key(derefs(baseline_signals@), group.id@);
        }
        match find_by_key(baseline_signals, id) {
            None => Some(SchemaItemChange::Added { name: id.clone() }),
            Some(j) => {
                let baseline_group: &Group = baseline_signals[j];
                assert(derefs(baseline_signals@)[j as int] == *baseline_group);
                match &group.deprecated {
                    None => None,
                    Some(deprecated) => {
                        if let Some(baseline_deprecated) = &baseline_group.deprecated {
                            if deprecated == baseline_deprecated {
                                return None;
                            }
                        }
                        match deprecated {
                            Deprecated::Updated(up) => {
                                match self.detect_replace_updated_change(
                                    up,
                                    group,
                                    latest_signals,
                                    simple_mode,
                                ) {
                                    Ok(up) => Some(SchemaItemChange::Updated(up)),
                                    Err(e) => Some(
                                        SchemaItemChange::Uncategorized { name: id.clone(), note: e },
                                    ),
                                }
                            },
                            Deprecated::Renamed { renamed_to, note } => Some(
                                SchemaItemChange::Renamed(
                                    SchemaItemChangeRenamed {
                                        old_name: id.clone(),
                                        new_name: renamed_to.clone(),
                                        note: note.clone(),
                                    },
                                ),
                            ),
                            Deprecated::Obsoleted { note } => Some(
                                SchemaItemChange::Obsoleted { name: id.clone(), note: note.clone() },
                            ),
                            Deprecated::Uncategorized { note } => Some(
                                SchemaItemChange::Uncategorized {
                                    name: id.clone(),
                                    note: note.clone(),
                                },
                            ),
                        }
                    },
                }
            },
        }
    }

    /// Records the changes of the signals of one type, given the signals of
    /// that type in this schema and in the baseline, by identifier.
    fn diff_signals(
        &self,
        schema_item_type: SchemaItemType,
        latest_signals: &Vec<&Group>,
        baseline_signals: &Vec<&Group>,
        changes: &mut SchemaChanges,
        simple_mode: bool,
    )
        ensures
            appended(
                old(changes).entries(),
                final(changes).entries(),
                tagged(
                    schema_item_type,
                    signal_diff(
                        derefs(latest_signals@),
                        derefs(baseline_signals@),
                        self.catalog,
                        simple_mode,
                    ),
                ),
            ),
            final(changes).head() == old(changes).head(),
            final(changes).baseline() == old(changes).baseline(),
    {
        let ghost l = derefs(latest_signals@);
        let ghost b = derefs(baseline_signals@);
        let ghost start = changes.entries();
        let t = schema_item_type;
        proof {
            lemma_appended_nothing(start);
            assert(tagged(t, seq![]) =~= Seq::<(SchemaItemType, Expected)>::empty());
        }
        let mut i: usize = 0;
        while i < latest_signals.len()
            invariant
                i <= latest_signals@.len(),
                l == derefs(latest_signals@),
                b == derefs(baseline_signals@),
                appended(
                    start,
                    changes.entries(),
                    tagged(t, signal_changes_of(l.take(i as int), b, l, self.catalog, simple_mode)),
                ),
                changes.head() == old(changes).head(),
                changes.baseline() == old(changes).baseline(),
            decreases latest_signals@.len() - i,
        {
            let group: &Group = latest_signals[i];
            assert(l[i as int] == *group);
            assert(l.take(i + 1).drop_last() =~= l.take(i as int));
            let ghost mid = changes.entries();
            let r = self.signal_change(&group.id, group, latest_signals, baseline_signals, simple_mode);
            match r {
                Some(c) => {
                    changes.add_change(t, c);
                },
                None => {},
            }
            proof {
                let prior = signal_changes_of(l.take(i as int), b, l, self.catalog, simple_mode);
                let step = signal_step(*group, b, l, self.catalog, simple_mode);
                lemma_appended_step(start, mid, tagged(t, prior), t, r, step, changes.entries());
                lemma_tagged_concat(t, prior, step);
            }
            i = i + 1;
        }
        assert(l.take(i as int) =~= l);
        let ghost added = signal_changes_of(l, b, l, self.catalog, simple_mode);
        let mut i: usize = 0;
        assert(added + removed_signals(b.take(0), l) =~= added);
        while i < baseline_signals.len()
            invariant
                i <= baseline_signals@.len(),
                l == derefs(latest_signals@),
                b == derefs(baseline_signals@),
                added == signal_changes_of(l, b, l, self.catalog, simple_mode),
                appended(start, changes.entries(), tagged(t, added + removed_signals(b.take(i as int), l))),
                changes.head() == old(changes).head(),
                changes.baseline() == old(changes).baseline(),
            decreases baseline_signals@.len() - i,
        {
            let group: &Group = baseline_signals[i];
            assert(b[i as int] == *group);
            assert(b.take(i + 1).drop_last() =~= b.take(i as int));
            let ghost mid = changes.entries();
            let ghost step = if has_key(l, group.id@) {
                seq![]
            } else {
                seq![Expected::Exactly(ChangeModel::Removed { name: group.id@ })]
            };
            let r = if find_by_key(latest_signals, &group.id).is_none() {
                Some(SchemaItemChange::Removed { name: group.id.clone() })
            } else {
                None
            };
            match r {
                Some(c) => {
                    changes.add_change(t, c);
                },
                None => {},
            }
            proof {
                let prior = added + removed_signals(b.take(i as int), l);
                lemma_appended_step(start, mid, tagged(t, prior), t, r, step, changes.entries());
                lemma_tagged_concat(t, prior, step);
                assert(added + removed_signals(b.take(i + 1), l) =~= prior + step);
            }
            i = i + 1;
        }
        assert(b.take(i as int) =~= b);
    }

    fn diff_signal_type(
        &self,
        baseline_schema: &ResolvedTelemetrySchema,
        group_type: GroupType,
        schema_item_type: SchemaItemType,
        changes: &mut SchemaChanges,
        simple_mode: bool,
    )
        ensures
            appended(
                old(changes).entries(),
                final(changes).entries(),
                signal_part(*self, *baseline_schema, group_type, schema_item_type, simple_mode),
            ),
            final(changes).head() == old(changes).head(),
            final(changes).baseline() == old(changes).baseline(),
    {
        let latest_signals = self.groups(group_type);
        let baseline_signals = baseline_schema.groups(group_type);
        self.diff_signals(schema_item_type, &latest_signals, &baseline_signals, changes, simple_mode);
    }

    /// Generate a diff between the current schema (must be the most recent one)
    /// and a baseline schema. `simple_mode` is whether the simple mode is
    /// enabled (the command line's `--simple`): only then is the replacement of
    /// a signal by an updated one described.
    #[must_use]
    pub fn diff(&self, baseline_schema: &ResolvedTelemetrySchema, simple_mode: bool) -> (changes: SchemaChanges)
        requires
            diff_supported(*self, *baseline_schema),
        ensures
            changes_match(changes.entries(), diff_model(*self, *baseline_schema, simple_mode)),
            match self.registry_manifest {
                Some(m) => changes.head() matches Some(h) && h.semconv_version == m.semconv_version,
                None => changes.head() is None,
            },
            match baseline_schema.registry_manifest {
                Some(m) => changes.baseline() matches Some(h) && h.semconv_version == m.semconv_version,
                None => changes.baseline() is None,
            },
    {
        let mut changes = SchemaChanges::new();

        if let Some(manifest) = &self.registry_manifest {
            changes.set_head_manifest(
                crate::schema_changes::RegistryManifest {
                    semconv_version: manifest.semconv_version.clone(),
                },
            );
        }
        if let Some(manifest) = &baseline_schema.registry_manifest {
            changes.set_baseline_manifest(
                crate::schema_changes::RegistryManifest {
                    semconv_version: manifest.semconv_version.clone(),
                },
            );
        }
        let ghost e0 = changes.entries();
        assert(e0.skip(0) =~= e0);

        // Attributes in the registry
        self.diff_attributes(baseline_schema, &mut changes);
        let ghost e1 = changes.entries();
        // Signals
        self.diff_signal_type(baseline_schema, GroupType::Metric, SchemaItemType::Metrics, &mut changes, simple_mode);
        let ghost e2 = changes.entries();
        self.diff_signal_type(baseline_schema, GroupType::Event, SchemaItemType::Events, &mut changes, simple_mode);
        let ghost e3 = changes.entries();
        self.diff_signal_type(baseline_schema, GroupType::Span, SchemaItemType::Spans, &mut changes, simple_mode);
        let ghost e4 = changes.entries();
        self.diff_signal_type(baseline_schema, GroupType::Resource, SchemaItemType::Resources, &mut changes, simple_mode);
        proof {
            let a = tagged(
                SchemaItemType::RegistryAttributes,
                attribute_diff(self.attribute_model(true), baseline_schema.attribute_model(true)),
            );
            let m = signal_part(*self, *baseline_schema, GroupType::Metric, SchemaItemType::Metrics, simple_mode);
            let ev = signal_part(*self, *baseline_schema, GroupType::Event, SchemaItemType::Events, simple_mode);
            let sp = signal_part(*self, *baseline_schema, GroupType::Span, SchemaItemType::Spans, simple_mode);
            let r = signal_part(*self, *baseline_schema, GroupType::Resource, SchemaItemType::Resources, simple_mode);
            lemma_appended_chain(e0, e1, e2, a, m);
            lemma_appended_chain(e0, e2, e3, a + m, ev);
            lemma_appended_chain(e0, e3, e4, a + m + ev, sp);
            lemma_appended_chain(e0, e4, changes.entries(), a + m + ev + sp, r);
            assert(changes.entries().skip(0) =~= changes.entries());
        }
        changes
    }
}


// ---------------------------------------------------------------------------
// Laws.

proof fn lemma_no_attribute_changes_against_itself(l: Seq<Attribute>, n: int)
    requires
        distinct_keys(l),
        0 <= n <= l.len(),
    ensures
        attribute_changes_of(l.take(n), l) == Seq::<Expected>::empty(),
        forall|i: int| 0 <= i < n ==> !attribute_update_unsupported(#[trigger] l[i], l),
    decreases n,
{
    if n > 0 {
        lemma_no_attribute_changes_against_itself(l, n - 1);
        assert(l.take(n).drop_last() =~= l.take(n - 1));
        lemma_index_of_own_key(l, n - 1);
        assert(attribute_step(l[n - 1], l) =~= Seq::<Expected>::empty());
        assert(attribute_changes_of(l.take(n), l) =~= Seq::<Expected>::empty());
    }
}

proof fn lemma_no_signal_changes_against_itself(
    l: Seq<Group>,
    n: int,
    catalog: Catalog,
    simple_mode: bool,
)
    requires
        distinct_keys(l),
        0 <= n <= l.len(),
    ensures
        signal_changes_of(l.take(n), l, l, catalog, simple_mode) == Seq::<Expected>::empty(),
    decreases n,
{
    if n > 0 {
        lemma_no_signal_changes_against_itself(l, n - 1, catalog, simple_mode);
        assert(l.take(n).drop_last() =~= l.take(n - 1));
        lemma_index_of_own_key(l, n - 1);
        assert(signal_step(l[n - 1], l, l, catalog, simple_mode) =~= Seq::<Expected>::empty());
        assert(signal_changes_of(l.take(n), l, l, catalog, simple_mode) =~= Seq::<Expected>::empty());
    }
}

proof fn lemma_nothing_removed_against_itself<T: KeyView>(l: Seq<T>, n: int)
    requires
        distinct_keys(l),
        0 <= n <= l.len(),
    ensures
        forall|i: int| 0 <= i < n ==> has_key(l, #[trigger] l[i].key_view()),
    decreases n,
{
    if n > 0 {
        lemma_nothing_removed_against_itself(l, n - 1);
        lemma_index_of_own_key(l, n - 1);
    }
}

proof fn lemma_no_removed_attributes(b: Seq<Attribute>, l: Seq<Attribute>)
    requires
        forall|i: int| 0 <= i < b.len() ==> has_key(l, #[trigger] b[i].name@),
    ensures
        removed_attributes(b, l) == Seq::<Expected>::empty(),
    decreases b.len(),
{
    if b.len() > 0 {
        assert(has_key(l, b[b.len() - 1].name@));
        lemma_no_removed_attributes(b.drop_last(), l);
        assert(removed_attributes(b, l) =~= Seq::<Expected>::empty());
    }
}

proof fn lemma_no_removed_signals(b: Seq<Group>, l: Seq<Group>)
    requires
        forall|i: int| 0 <= i < b.len() ==> has_key(l, #[trigger] b[i].id@),
    ensures
        removed_signals(b, l) == Seq::<Expected>::empty(),
    decreases b.len(),
{
    if b.len() > 0 {
        assert(has_key(l, b[b.len() - 1].id@));
        lemma_no_removed_signals(b.drop_last(), l);
        assert(removed_signals(b, l) =~= Seq::<Expected>::empty());
    }
}

proof fn lemma_no_signal_diff_against_itself(
    s: ResolvedTelemetrySchema,
    g: GroupType,
    t: SchemaItemType,
    simple_mode: bool,
)
    ensures
        signal_part(s, s, g, t, simple_mode) == Seq::<(SchemaItemType, Expected)>::empty(),
{
    let l = s.group_model(g);
    crate::keyed::lemma_keyed_collect(crate::groups_of_type(s.registry.groups@, g));
    lemma_no_signal_changes_against_itself(l, l.len() as int, s.catalog, simple_mode);
    assert(l.take(l.len() as int) =~= l);
    lemma_nothing_removed_against_itself(l, l.len() as int);
    assert forall|i: int| 0 <= i < l.len() implies has_key(l, #[trigger] l[i].id@) by {
        assert(has_key(l, l[i].key_view()));
    }
    lemma_no_removed_signals(l, l);
    assert(signal_diff(l, l, s.catalog, simple_mode) =~= Seq::<Expected>::empty());
    assert(signal_part(s, s, g, t, simple_mode) =~= Seq::<(SchemaItemType, Expected)>::empty());
}

/// A schema compared with itself: the diff can be computed whenever the catalog
/// holds the attributes of the registry groups, and it records no change, in
/// simple mode or not.
pub proof fn lemma_diff_with_itself_is_empty(s: ResolvedTelemetrySchema, simple_mode: bool)
    requires
        s.attributes_resolve(true),
    ensures
        diff_supported(s, s),
        diff_model(s, s, simple_mode) == Seq::<(SchemaItemType, Expected)>::empty(),
{
    let l = s.attribute_model(true);
    lemma_keyed_collect(crate::selected_attributes(s.registry.groups@, s.catalog, true));
    lemma_no_attribute_changes_against_itself(l, l.len() as int);
    assert(l.take(l.len() as int) =~= l);
    lemma_nothing_removed_against_itself(l, l.len() as int);
    assert forall|i: int| 0 <= i < l.len() implies has_key(l, #[trigger] l[i].name@) by {
        assert(has_key(l, l[i].key_view()));
    }
    lemma_no_removed_attributes(l, l);
    assert(attribute_diff(l, l) =~= Seq::<Expected>::empty());
    lemma_no_signal_diff_against_itself(s, GroupType::Metric, SchemaItemType::Metrics, simple_mode);
    lemma_no_signal_diff_against_itself(s, GroupType::Event, SchemaItemType::Events, simple_mode);
    lemma_no_signal_diff_against_itself(s, GroupType::Span, SchemaItemType::Spans, simple_mode);
    lemma_no_signal_diff_against_itself(s, GroupType::Resource, SchemaItemType::Resources, simple_mode);
    assert(diff_model(s, s, simple_mode) =~= Seq::<(SchemaItemType, Expected)>::empty());
}

/// The keys of the items of `l` that `b` lacks, in order.
pub open spec fn absent_keys<T: KeyView>(l: Seq<T>, b: Seq<T>) -> Seq<Seq<char>>
    decreases l.len(),
{
    if l.len() == 0 {
        seq![]
    } else {
        absent_keys(l.drop_last(), b) + if has_key(b, l.last().key_view()) {
            seq![]
        } else {
            seq![l.last().key_view()]
        }
    }
}

/// The name of an expected change that records an added item (`removed` false)
/// or a removed one (`removed` true).
pub open spec fn entry_name(x: Expected, removed: bool) -> Seq<Seq<char>> {
    match x {
        Expected::Exactly(ChangeModel::Added { name }) => if removed {
            seq![]
        } else {
            seq![name]
        },
        Expected::Exactly(ChangeModel::Removed { name }) => if removed {
            seq![name]
        } else {
            seq![]
        },
        _ => seq![],
    }
}

/// The names of the items recorded as added (`removed` false) or removed
/// (`removed` true), in order.
pub open spec fn names_in(e: Seq<Expected>, removed: bool) -> Seq<Seq<char>>
    decreases e.len(),
{
    if e.len() == 0 {
        seq![]
    } else {
        names_in(e.drop_last(), removed) + entry_name(e.last(), removed)
    }
}

/// The names of the items of type `t` recorded as added (`removed` false) or
/// removed (`removed` true), in order.
pub open spec fn recorded_names(e: Seq<(SchemaItemType, Expected)>, t: SchemaItemType, removed: bool) -> Seq<
    Seq<char>,
>
    decreases e.len(),
{
    if e.len() == 0 {
        seq![]
    } else {
        recorded_names(e.drop_last(), t, removed) + if e.last().0 == t {
            entry_name(e.last().1, removed)
        } else {
            seq![]
        }
    }
}

proof fn lemma_names_in_concat(a: Seq<Expected>, b: Seq<Expected>, removed: bool)
    ensures
        names_in(a + b, removed) == names_in(a, removed) + names_in(b, removed),
    decreases b.len(),
{
    if b.len() == 0 {
        assert(a + b =~= a);
        assert(names_in(a, removed) + names_in(b, removed) =~= names_in(a, removed));
    } else {
        lemma_names_in_concat(a, b.drop_last(), removed);
        assert((a + b).drop_last() =~= a + b.drop_last());
        assert((a + b).last() == b.last());
        assert(names_in(a + b, removed) =~= names_in(a, removed) + names_in(b, removed));
    }
}

proof fn lemma_names_in_small(e: Seq<Expected>, removed: bool)
    requires
        e.len() <= 1,
    ensures
        names_in(e, removed) == if e.len() == 0 {
            Seq::<Seq<char>>::empty()
        } else {
            entry_name(e[0], removed)
        },
{
    if e.len() == 1 {
        assert(e.drop_last() =~= Seq::<Expected>::empty());
        assert(names_in(e.drop_last(), removed) == Seq::<Seq<char>>::empty());
        assert(e.last() == e[0]);
        assert(Seq::<Seq<char>>::empty() + entry_name(e[0], removed) =~= entry_name(e[0], removed));
    }
}

proof fn lemma_recorded_names_concat(
    a: Seq<(SchemaItemType, Expected)>,
    b: Seq<(SchemaItemType, Expected)>,
    t: SchemaItemType,
    removed: bool,
)
    ensures
        recorded_names(a + b, t, removed) == recorded_names(a, t, removed) + recorded_names(b, t, removed),
    decreases b.len(),
{
    if b.len() == 0 {
        assert(a + b =~= a);
        assert(recorded_names(a, t, removed) + recorded_names(b, t, removed) =~= recorded_names(a, t, removed));
    } else {
        lemma_recorded_names_concat(a, b.drop_last(), t, removed);
        assert((a + b).drop_last() =~= a + b.drop_last());
        assert((a + b).last() == b.last());
        assert(recorded_names(a + b, t, removed) =~= recorded_names(a, t, removed) + recorded_names(b, t, removed));
    }
}

proof fn lemma_recorded_names_tagged(e: Seq<Expected>, u: SchemaItemType, t: SchemaItemType, removed: bool)
    ensures
        recorded_names(tagged(u, e), t, removed) == if u == t {
            names_in(e, removed)
        } else {
            Seq::<Seq<char>>::empty()
        },
    decreases e.len(),
{
    if e.len() > 0 {
        lemma_recorded_names_tagged(e.drop_last(), u, t, removed);
        assert(tagged(u, e).drop_last() =~= tagged(u, e.drop_last()));
        if u == t {
            assert(recorded_names(tagged(u, e), t, removed) =~= names_in(e, removed));
        } else {
            assert(recorded_names(tagged(u, e), t, removed) =~= Seq::<Seq<char>>::empty());
        }
    }
}

proof fn lemma_attribute_change_names(l: Seq<Attribute>, b: Seq<Attribute>)
    ensures
        names_in(attribute_changes_of(l, b), false) == absent_keys(l, b),
        names_in(attribute_changes_of(l, b), true) == Seq::<Seq<char>>::empty(),
    decreases l.len(),
{
    if l.len() > 0 {
        let p = l.drop_last();
        lemma_attribute_change_names(p, b);
        let step = attribute_step(l.last(), b);
        lemma_names_in_concat(attribute_changes_of(p, b), step, false);
        lemma_names_in_concat(attribute_changes_of(p, b), step, true);
        assert(names_in(step, false) =~= if has_key(b, l.last().key_view()) {
            Seq::<Seq<char>>::empty()
        } else {
            seq![l.last().key_view()]
        }) by {
            lemma_names_in_small(step, false);
        }
        assert(names_in(step, true) =~= Seq::<Seq<char>>::empty()) by {
            lemma_names_in_small(step, true);
        }
    }
}

proof fn lemma_removed_attribute_names(b: Seq<Attribute>, l: Seq<Attribute>)
    ensures
        names_in(removed_attributes(b, l), true) == absent_keys(b, l),
        names_in(removed_attributes(b, l), false) == Seq::<Seq<char>>::empty(),
    decreases b.len(),
{
    if b.len() > 0 {
        let p = b.drop_last();
        lemma_removed_attribute_names(p, l);
        let step = if has_key(l, b.last().name@) {
            Seq::<Expected>::empty()
        } else {
            seq![Expected::Exactly(ChangeModel::Removed { name: b.last().name@ })]
        };
        lemma_names_in_concat(removed_attributes(p, l), step, false);
        lemma_names_in_concat(removed_attributes(p, l), step, true);
        lemma_names_in_small(step, false);
        lemma_names_in_small(step, true);
        assert(names_in(step, true) =~= if has_key(l, b.last().key_view()) {
            Seq::<Seq<char>>::empty()
        } else {
            seq![b.last().key_view()]
        });
        assert(names_in(step, false) =~= Seq::<Seq<char>>::empty());
    }
}

proof fn lemma_signal_change_names(
    p: Seq<Group>,
    b: Seq<Group>,
    l: Seq<Group>,
    catalog: Catalog,
    simple_mode: bool,
)
    ensures
        names_in(signal_changes_of(p, b, l, catalog, simple_mode), false) == absent_keys(p, b),
        names_in(signal_changes_of(p, b, l, catalog, simple_mode), true) == Seq::<Seq<char>>::empty(),
    decreases p.len(),
{
    if p.len() > 0 {
        let q = p.drop_last();
        lemma_signal_change_names(q, b, l, catalog, simple_mode);
        let step = signal_step(p.last(), b, l, catalog, simple_mode);
        lemma_names_in_concat(signal_changes_of(q, b, l, catalog, simple_mode), step, false);
        lemma_names_in_concat(signal_changes_of(q, b, l, catalog, simple_mode), step, true);
        lemma_names_in_small(step, false);
        lemma_names_in_small(step, true);
        assert(names_in(step, false) =~= if has_key(b, p.last().key_view()) {
            Seq::<Seq<char>>::empty()
        } else {
            seq![p.last().key_view()]
        });
        assert(names_in(step, true) =~= Seq::<Seq<char>>::empty());
    }
}

proof fn lemma_removed_signal_names(b: Seq<Group>, l: Seq<Group>)
    ensures
        names_in(removed_signals(b, l), true) == absent_keys(b, l),
        names_in(removed_signals(b, l), false) == Seq::<Seq<char>>::empty(),
    decreases b.len(),
{
    if b.len() > 0 {
        let p = b.drop_last();
        lemma_removed_signal_names(p, l);
        let step = if has_key(l, b.last().id@) {
            Seq::<Expected>::empty()
        } else {
            seq![Expected::Exactly(ChangeModel::Removed { name: b.last().id@ })]
        };
        lemma_names_in_concat(removed_signals(p, l), step, false);
        lemma_names_in_concat(removed_signals(p, l), step, true);
        lemma_names_in_small(step, false);
        lemma_names_in_small(step, true);
        assert(names_in(step, true) =~= if has_key(l, b.last().key_view()) {
            Seq::<Seq<char>>::empty()
        } else {
            seq![b.last().key_view()]
        });
        assert(names_in(step, false) =~= Seq::<Seq<char>>::empty());
    }
}

/// The group type of the signals recorded under an item type, if any.
pub open spec fn signal_group_type(t: SchemaItemType) -> Option<GroupType> {
    match t {
        SchemaItemType::RegistryAttributes => None,
        SchemaItemType::Metrics => Some(GroupType::Metric),
        SchemaItemType::Events => Some(GroupType::Event),
        SchemaItemType::Spans => Some(GroupType::Span),
        SchemaItemType::Resources => Some(GroupType::Resource),
    }
}

/// The names of the items of type `t` that are in `latest` and not in `base`.
pub open spec fn new_names(latest: ResolvedTelemetrySchema, base: ResolvedTelemetrySchema, t: SchemaItemType) -> Seq<Seq<char>> {
    match signal_group_type(t) {
        None => absent_keys(latest.attribute_model(true), base.attribute_model(true)),
        Some(g) => absent_keys(latest.group_model(g), base.group_model(g)),
    }
}

proof fn lemma_signal_part_names(
    latest: ResolvedTelemetrySchema,
    base: ResolvedTelemetrySchema,
    g: GroupType,
    u: SchemaItemType,
    t: SchemaItemType,
    simple_mode: bool,
)
    ensures
        recorded_names(signal_part(latest, base, g, u, simple_mode), t, false) == if u == t {
            absent_keys(latest.group_model(g), base.group_model(g))
        } else {
            Seq::<Seq<char>>::empty()
        },
        recorded_names(signal_part(latest, base, g, u, simple_mode), t, true) == if u == t {
            absent_keys(base.group_model(g), latest.group_model(g))
        } else {
            Seq::<Seq<char>>::empty()
        },
{
    let l = latest.group_model(g);
    let b = base.group_model(g);
    let c = signal_changes_of(l, b, l, latest.catalog, simple_mode);
    let r = removed_signals(b, l);
    lemma_signal_change_names(l, b, l, latest.catalog, simple_mode);
    lemma_removed_signal_names(b, l);
    lemma_names_in_concat(c, r, false);
    lemma_names_in_concat(c, r, true);
    assert(absent_keys(l, b) + Seq::<Seq<char>>::empty() =~= absent_keys(l, b));
    assert(Seq::<Seq<char>>::empty() + absent_keys(b, l) =~= absent_keys(b, l));
    lemma_recorded_names_tagged(signal_diff(l, b, latest.catalog, simple_mode), u, t, false);
    lemma_recorded_names_tagged(signal_diff(l, b, latest.catalog, simple_mode), u, t, true);
}

/// What a diff records as added and as removed: for each type of item, the
/// items of the most recent schema whose name (or identifier) the baseline
/// lacks are recorded as added, and the items of the baseline whose name the
/// most recent schema lacks are recorded as removed, nothing else is.
pub proof fn lemma_added_and_removed(
    latest: ResolvedTelemetrySchema,
    base: ResolvedTelemetrySchema,
    t: SchemaItemType,
    simple_mode: bool,
)
    ensures
        recorded_names(diff_model(latest, base, simple_mode), t, false) == new_names(latest, base, t),
        recorded_names(diff_model(latest, base, simple_mode), t, true) == new_names(base, latest, t),
{
    let la = latest.attribute_model(true);
    let ba = base.attribute_model(true);
    let a = tagged(SchemaItemType::RegistryAttributes, attribute_diff(la, ba));
    let m = signal_part(latest, base, GroupType::Metric, SchemaItemType::Metrics, simple_mode);
    let ev = signal_part(latest, base, GroupType::Event, SchemaItemType::Events, simple_mode);
    let sp = signal_part(latest, base, GroupType::Span, SchemaItemType::Spans, simple_mode);
    let r = signal_part(latest, base, GroupType::Resource, SchemaItemType::Resources, simple_mode);
    lemma_attribute_change_names(la, ba);
    lemma_removed_attribute_names(ba, la);
    lemma_names_in_concat(attribute_changes_of(la, ba), removed_attributes(ba, la), false);
    lemma_names_in_concat(attribute_changes_of(la, ba), removed_attributes(ba, la), true);
    lemma_recorded_names_tagged(attribute_diff(la, ba), SchemaItemType::RegistryAttributes, t, false);
    lemma_recorded_names_tagged(attribute_diff(la, ba), SchemaItemType::RegistryAttributes, t, true);
    lemma_signal_part_names(latest, base, GroupType::Metric, SchemaItemType::Metrics, t, simple_mode);
    lemma_signal_part_names(latest, base, GroupType::Event, SchemaItemType::Events, t, simple_mode);
    lemma_signal_part_names(latest, base, GroupType::Span, SchemaItemType::Spans, t, simple_mode);
    lemma_signal_part_names(latest, base, GroupType::Resource, SchemaItemType::Resources, t, simple_mode);
    let removed_flags = seq![false, true];
    assert forall|k: int| 0 <= k < 2 implies {
        let f = #[trigger] removed_flags[k];
        recorded_names(diff_model(latest, base, simple_mode), t, f) == if f {
            new_names(base, latest, t)
        } else {
            new_names(latest, base, t)
        }
    } by {
        let f = removed_flags[k];
        lemma_recorded_names_concat(a, m, t, f);
        lemma_recorded_names_concat(a + m, ev, t, f);
        lemma_recorded_names_concat(a + m + ev, sp, t, f);
        lemma_recorded_names_concat(a + m + ev + sp, r, t, f);
        let e = Seq::<Seq<char>>::empty();
        assert(absent_keys(la, ba) + e =~= absent_keys(la, ba));
        assert(e + absent_keys(ba, la) =~= absent_keys(ba, la));
        match t {
            SchemaItemType::RegistryAttributes => {
                assert(recorded_names(diff_model(latest, base, simple_mode), t, f) =~= if f {
                    absent_keys(ba, la)
                } else {
                    absent_keys(la, ba)
                });
            },
            _ => {
                assert(recorded_names(diff_model(latest, base, simple_mode), t, f) =~= if f {
                    new_names(base, latest, t)
                } else {
                    new_names(latest, base, t)
                });
            },
        }
    }
    assert(removed_flags[0] == false);
    assert(removed_flags[1] == true);
}

/// What one diff records as added, the diff in the other direction records as
/// removed, in the same order.
pub proof fn lemma_added_mirrors_removed(
    a: ResolvedTelemetrySchema,
    b: ResolvedTelemetrySchema,
    t: SchemaItemType,
    simple_mode: bool,
    other_mode: bool,
)
    ensures
        recorded_names(diff_model(a, b, simple_mode), t, false) == recorded_names(
            diff_model(b, a, other_mode),
            t,
            true,
        ),
{
    lemma_added_and_removed(a, b, t, simple_mode);
    lemma_added_and_removed(b, a, t, other_mode);
}


/// Whether the diff of `latest` against `base` records `x` among its changes
/// of items of type `t`.
pub open spec fn diff_records(
    latest: ResolvedTelemetrySchema,
    base: ResolvedTelemetrySchema,
    simple_mode: bool,
    t: SchemaItemType,
    x: Expected,
) -> bool {
    exists|k: int|
        0 <= k < diff_model(latest, base, simple_mode).len() && #[trigger] diff_model(
            latest,
            base,
            simple_mode,
        )[k] == (t, x)
}

proof fn lemma_attribute_step_recorded(l: Seq<Attribute>, b: Seq<Attribute>, i: int, x: Expected)
    requires
        0 <= i < l.len(),
        attribute_step(l[i], b) == seq![x],
    ensures
        exists|k: int|
            0 <= k < attribute_changes_of(l, b).len() && #[trigger] attribute_changes_of(l, b)[k] == x,
    decreases l.len(),
{
    let q = l.drop_last();
    let c = attribute_changes_of(l, b);
    if i == l.len() - 1 {
        let k = attribute_changes_of(q, b).len() as int;
        assert(c[k] == x);
    } else {
        assert(q[i] == l[i]);
        lemma_attribute_step_recorded(q, b, i, x);
        let k = choose|k: int|
            0 <= k < attribute_changes_of(q, b).len() && #[trigger] attribute_changes_of(q, b)[k] == x;
        assert(c[k] == x);
    }
}

proof fn lemma_signal_step_recorded(
    l: Seq<Group>,
    b: Seq<Group>,
    full: Seq<Group>,
    catalog: Catalog,
    simple_mode: bool,
    i: int,
    x: Expected,
)
    requires
        0 <= i < l.len(),
        signal_step(l[i], b, full, catalog, simple_mode) == seq![x],
    ensures
        exists|k: int|
            0 <= k < signal_changes_of(l, b, full, catalog, simple_mode).len()
                && #[trigger] signal_changes_of(l, b, full, catalog, simple_mode)[k] == x,
    decreases l.len(),
{
    let q = l.drop_last();
    let c = signal_changes_of(l, b, full, catalog, simple_mode);
    if i == l.len() - 1 {
        let k = signal_changes_of(q, b, full, catalog, simple_mode).len() as int;
        assert(c[k] == x);
    } else {
        assert(q[i] == l[i]);
        lemma_signal_step_recorded(q, b, full, catalog, simple_mode, i, x);
        let k = choose|k: int|
            0 <= k < signal_changes_of(q, b, full, catalog, simple_mode).len()
                && #[trigger] signal_changes_of(q, b, full, catalog, simple_mode)[k] == x;
        assert(c[k] == x);
    }
}

proof fn lemma_signal_entry_in_diff(
    latest: ResolvedTelemetrySchema,
    base: ResolvedTelemetrySchema,
    simple_mode: bool,
    t: SchemaItemType,
    g: GroupType,
    k: int,
)
    requires
        signal_group_type(t) == Some(g),
        0 <= k < signal_diff(latest.group_model(g), base.group_model(g), latest.catalog, simple_mode).len(),
    ensures
        diff_records(
            latest,
            base,
            simple_mode,
            t,
            signal_diff(latest.group_model(g), base.group_model(g), latest.catalog, simple_mode)[k],
        ),
{
    let a = tagged(
        SchemaItemType::RegistryAttributes,
        attribute_diff(latest.attribute_model(true), base.attribute_model(true)),
    );
    let m = signal_part(latest, base, GroupType::Metric, SchemaItemType::Metrics, simple_mode);
    let ev = signal_part(latest, base, GroupType::Event, SchemaItemType::Events, simple_mode);
    let sp = signal_part(latest, base, GroupType::Span, SchemaItemType::Spans, simple_mode);
    let r = signal_part(latest, base, GroupType::Resource, SchemaItemType::Resources, simple_mode);
    let dm = diff_model(latest, base, simple_mode);
    assert(dm == a + m + ev + sp + r);
    let x = signal_diff(latest.group_model(g), base.group_model(g), latest.catalog, simple_mode)[k];
    match t {
        SchemaItemType::Metrics => {
            assert(m[k] == (t, x));
            assert(dm[a.len() + k] == (t, x));
        },
        SchemaItemType::Events => {
            assert(ev[k] == (t, x));
            assert(dm[a.len() + m.len() + k] == (t, x));
        },
        SchemaItemType::Spans => {
            assert(sp[k] == (t, x));
            assert(dm[a.len() + m.len() + ev.len() + k] == (t, x));
        },
        SchemaItemType::Resources => {
            assert(r[k] == (t, x));
            assert(dm[a.len() + m.len() + ev.len() + sp.len() + k] == (t, x));
        },
        SchemaItemType::RegistryAttributes => {},
    }
}

/// A signal of the most recent schema that the baseline also holds, and whose
/// deprecation differs field by field from the baseline's, is recorded with a
/// change of its deprecation's own kind: a rename as a rename from its id to the
/// new name, an obsolescence as an obsolescence, an uncategorized deprecation as
/// an uncategorized change, each with the deprecation's note; an update as an
/// update of that id, or as the failure to describe it under that id.
pub proof fn lemma_deprecated_signal_recorded(
    latest: ResolvedTelemetrySchema,
    base: ResolvedTelemetrySchema,
    simple_mode: bool,
    t: SchemaItemType,
    g: GroupType,
    i: int,
    j: int,
    d: Deprecated,
)
    requires
        signal_group_type(t) == Some(g),
        0 <= i < latest.group_model(g).len(),
        0 <= j < base.group_model(g).len(),
        base.group_model(g)[j].id@ == latest.group_model(g)[i].id@,
        latest.group_model(g)[i].deprecated == Some(d),
        !(base.group_model(g)[j].deprecated matches Some(bd) && d.same_as(bd)),
    ensures
        ({
            let id = latest.group_model(g)[i].id@;
            match d {
                Deprecated::Renamed { renamed_to, note } => diff_records(
                    latest,
                    base,
                    simple_mode,
                    t,
                    Expected::Exactly(
                        ChangeModel::Renamed(
                            RenamedModel { old_name: id, new_name: renamed_to@, note: note@ },
                        ),
                    ),
                ),
                Deprecated::Obsoleted { note } => diff_records(
                    latest,
                    base,
                    simple_mode,
                    t,
                    Expected::Exactly(ChangeModel::Obsoleted { name: id, note: note@ }),
                ),
                Deprecated::Uncategorized { note } => diff_records(
                    latest,
                    base,
                    simple_mode,
                    t,
                    Expected::Exactly(ChangeModel::Uncategorized { name: id, note: note@ }),
                ),
                Deprecated::Updated(_) => exists|k: int|
                    0 <= k < diff_model(latest, base, simple_mode).len() && (#[trigger] diff_model(
                        latest,
                        base,
                        simple_mode,
                    )[k]).0 == t && match diff_model(latest, base, simple_mode)[k].1 {
                        Expected::Exactly(ChangeModel::Updated(u)) => u.id == id,
                        Expected::FailedUpdate { name, .. } => name == id,
                        _ => false,
                    },
            }
        }),
{
    let l = latest.group_model(g);
    let b = base.group_model(g);
    let s = l[i];
    lemma_keyed_collect(crate::groups_of_type(base.registry.groups@, g));
    lemma_index_of_own_key(b, j);
    assert(index_of_key(b, s.id@) == j);
    let step = signal_step(s, b, l, latest.catalog, simple_mode);
    assert(step.len() == 1);
    let x = step[0];
    assert(step == seq![x]);
    lemma_signal_step_recorded(l, b, l, latest.catalog, simple_mode, i, x);
    let c = signal_changes_of(l, b, l, latest.catalog, simple_mode);
    let k = choose|k: int| 0 <= k < c.len() && #[trigger] c[k] == x;
    let sd = signal_diff(l, b, latest.catalog, simple_mode);
    assert(sd[k] == x);
    lemma_signal_entry_in_diff(latest, base, simple_mode, t, g, k);
    match d {
        Deprecated::Updated(_) => {
            let k2 = choose|k2: int|
                0 <= k2 < diff_model(latest, base, simple_mode).len() && #[trigger] diff_model(
                    latest,
                    base,
                    simple_mode,
                )[k2] == (t, x);
            assert(diff_model(latest, base, simple_mode)[k2].0 == t);
        },
        _ => {},
    }
}

/// A registry attribute of the most recent schema that the baseline also holds,
/// and whose deprecation differs field by field (rename target and note
/// included) from the baseline's, is recorded with a change of its
/// deprecation's own kind: a rename as a rename from its name to the new name,
/// an obsolescence as an obsolescence, an uncategorized deprecation as an
/// uncategorized change, each with the deprecation's note.
pub proof fn lemma_deprecated_attribute_recorded(
    latest: ResolvedTelemetrySchema,
    base: ResolvedTelemetrySchema,
    simple_mode: bool,
    i: int,
    j: int,
    d: Deprecated,
)
    requires
        0 <= i < latest.attribute_model(true).len(),
        0 <= j < base.attribute_model(true).len(),
        base.attribute_model(true)[j].name@ == latest.attribute_model(true)[i].name@,
        latest.attribute_model(true)[i].deprecated == Some(d),
        !(base.attribute_model(true)[j].deprecated matches Some(bd) && d.same_as(bd)),
    ensures
        ({
            let name = latest.attribute_model(true)[i].name@;
            let t = SchemaItemType::RegistryAttributes;
            match d {
                Deprecated::Renamed { renamed_to, note } => diff_records(
                    latest,
                    base,
                    simple_mode,
                    t,
                    Expected::Exactly(
                        ChangeModel::Renamed(
                            RenamedModel { old_name: name, new_name: renamed_to@, note: note@ },
                        ),
                    ),
                ),
                Deprecated::Obsoleted { note } => diff_records(
                    latest,
                    base,
                    simple_mode,
                    t,
                    Expected::Exactly(ChangeModel::Obsoleted { name, note: note@ }),
                ),
                Deprecated::Uncategorized { note } => diff_records(
                    latest,
                    base,
                    simple_mode,
                    t,
                    Expected::Exactly(ChangeModel::Uncategorized { name, note: note@ }),
                ),
                Deprecated::Updated(_) => true,
            }
        }),
{
    let l = latest.attribute_model(true);
    let b = base.attribute_model(true);
    let a = l[i];
    lemma_keyed_collect(crate::selected_attributes(base.registry.groups@, base.catalog, true));
    lemma_index_of_own_key(b, j);
    assert(index_of_key(b, a.name@) == j);
    if !(d is Updated) {
        let step = attribute_step(a, b);
        assert(step.len() == 1);
        let x = step[0];
        assert(step == seq![x]);
        lemma_attribute_step_recorded(l, b, i, x);
        let c = attribute_changes_of(l, b);
        let k = choose|k: int| 0 <= k < c.len() && #[trigger] c[k] == x;
        let ad = attribute_diff(l, b);
        assert(ad[k] == x);
        let part = tagged(SchemaItemType::RegistryAttributes, ad);
        assert(part[k] == (SchemaItemType::RegistryAttributes, x));
        let dm = diff_model(latest, base, simple_mode);
        assert(dm[k] == (SchemaItemType::RegistryAttributes, x));
    }
}


/// Every local attribute that an update records as renamed changed its tag:
/// the name before differs from the name after.
pub open spec fn nested_renames_differ(u: UpdatedModel) -> bool {
    forall|i: int|
        0 <= i < u.attributes.len() ==> ((#[trigger] u.attributes[i]).1 matches NestedChangeModel::Renamed(
            r,
        ) ==> r.old_name != r.new_name)
}

/// A nested change that is not a rename to the same name.
pub open spec fn real_rename(e: (Seq<char>, NestedChangeModel)) -> bool {
    e.1 matches NestedChangeModel::Renamed(r) ==> r.old_name != r.new_name
}

proof fn lemma_replacement_changes_real(
    rep: Seq<(Seq<char>, Attribute)>,
    dep: Seq<(Seq<char>, Attribute)>,
    note: Seq<char>,
)
    ensures
        replacement_attribute_changes(rep, dep, note) matches Ok(acc) ==> forall|i: int|
            0 <= i < acc.len() ==> #[trigger] real_rename(acc[i]),
    decreases rep.len(),
{
    if rep.len() > 0 {
        lemma_replacement_changes_real(rep.drop_last(), dep, note);
        match replacement_attribute_changes(rep.drop_last(), dep, note) {
            Ok(acc) => {
                let e = rep.last();
                let k = e.0;
                let j = index_of_key(dep, k);
                let p = |x: (Seq<char>, NestedChangeModel)| real_rename(x);
                assert forall|i: int| 0 <= i < acc.len() implies #[trigger] p(acc[i]) by {
                    assert(real_rename(acc[i]));
                }
                if j < 0 {
                    let x = (k, NestedChangeModel::Added { name: k });
                    lemma_keyed_insert_preserves(acc, x, p);
                    assert forall|i: int| 0 <= i < keyed_insert(acc, x).len() implies #[trigger] real_rename(
                        keyed_insert(acc, x)[i],
                    ) by {
                        assert(p(keyed_insert(acc, x)[i]));
                    }
                } else {
                    match (dep[j].1.tag, e.1.tag) {
                        (Some(dt), Some(rt)) => {
                            if dt@ != rt@ {
                                let x = (
                                    k,
                                    NestedChangeModel::Renamed(
                                        RenamedModel { old_name: dt@, new_name: rt@, note: seq![] },
                                    ),
                                );
                                lemma_keyed_insert_preserves(acc, x, p);
                                assert forall|i: int| 0 <= i < keyed_insert(acc, x).len() implies #[trigger] real_rename(
                                    keyed_insert(acc, x)[i],
                                ) by {
                                    assert(p(keyed_insert(acc, x)[i]));
                                }
                            }
                        },
                        _ => {},
                    }
                }
            },
            Err(_) => {},
        }
    }
}

proof fn lemma_removed_local_real(
    dep: Seq<(Seq<char>, Attribute)>,
    rep: Seq<(Seq<char>, Attribute)>,
    acc: Seq<(Seq<char>, NestedChangeModel)>,
)
    requires
        forall|i: int| 0 <= i < acc.len() ==> #[trigger] real_rename(acc[i]),
    ensures
        forall|i: int|
            0 <= i < removed_local_attributes(dep, rep, acc).len() ==> #[trigger] real_rename(
                removed_local_attributes(dep, rep, acc)[i],
            ),
    decreases dep.len(),
{
    if dep.len() > 0 {
        lemma_removed_local_real(dep.drop_last(), rep, acc);
        let prior = removed_local_attributes(dep.drop_last(), rep, acc);
        if !has_key(rep, dep.last().0) {
            let a = dep.last().1;
            let x = (a.name@, NestedChangeModel::Removed { name: a.name@ });
            let p = |y: (Seq<char>, NestedChangeModel)| real_rename(y);
            assert forall|i: int| 0 <= i < prior.len() implies #[trigger] p(prior[i]) by {
                assert(real_rename(prior[i]));
            }
            lemma_keyed_insert_preserves(prior, x, p);
            assert forall|i: int| 0 <= i < keyed_insert(prior, x).len() implies #[trigger] real_rename(
                keyed_insert(prior, x)[i],
            ) by {
                assert(p(keyed_insert(prior, x)[i]));
            }
        }
    }
}

/// In the description of an update, a local attribute is recorded as renamed
/// only when its tag changed: every nested rename has different names before
/// and after.
pub proof fn lemma_update_renames_differ(
    up: DeprecatedUpdated,
    g: Group,
    latest: Seq<Group>,
    catalog: Catalog,
    simple_mode: bool,
)
    ensures
        update_model(up, g, latest, catalog, simple_mode) matches Ok(u) ==> nested_renames_differ(u),
{
    if simple_mode {
        let ri = index_of_key(latest, up.replaced_by_id@);
        lemma_index_of_key(latest, up.replaced_by_id@);
        if ri >= 0 {
            let r = latest[ri];
            let rep = local_only_model(attrs_or_empty(r, catalog));
            let dep = local_only_model(attrs_or_empty(g, catalog));
            lemma_replacement_changes_real(rep, dep, up.note@);
            match replacement_attribute_changes(rep, dep, up.note@) {
                Ok(acc) => {
                    lemma_removed_local_real(dep, rep, acc);
                    let attrs = removed_local_attributes(dep, rep, acc);
                    match update_model(up, g, latest, catalog, simple_mode) {
                        Ok(u) => {
                            assert(u.attributes == attrs);
                            assert forall|i: int| 0 <= i < u.attributes.len() implies ((#[trigger] u.attributes[i]).1 matches NestedChangeModel::Renamed(
                                r,
                            ) ==> r.old_name != r.new_name) by {
                                assert(real_rename(attrs[i]));
                            }
                        },
                        Err(_) => {},
                    }
                },
                Err(_) => {},
            }
        }
    }
}

/// Whether an expected change, when it is an update, records only real renames.
pub open spec fn update_renames_differ(e: Expected) -> bool {
    e matches Expected::Exactly(ChangeModel::Updated(u)) ==> nested_renames_differ(u)
}

proof fn lemma_attribute_changes_hold_no_update(l: Seq<Attribute>, b: Seq<Attribute>)
    ensures
        forall|k: int|
            0 <= k < attribute_changes_of(l, b).len() ==> #[trigger] update_renames_differ(
                attribute_changes_of(l, b)[k],
            ),
    decreases l.len(),
{
    if l.len() > 0 {
        lemma_attribute_changes_hold_no_update(l.drop_last(), b);
        let p = attribute_changes_of(l.drop_last(), b);
        let st = attribute_step(l.last(), b);
        let c = attribute_changes_of(l, b);
        assert forall|k: int| 0 <= k < c.len() implies #[trigger] update_renames_differ(c[k]) by {
            if k < p.len() {
                assert(c[k] == p[k]);
            } else {
                assert(c[k] == st[k - p.len()]);
            }
        }
    }
}

proof fn lemma_removed_attributes_hold_no_update(b: Seq<Attribute>, l: Seq<Attribute>)
    ensures
        forall|k: int|
            0 <= k < removed_attributes(b, l).len() ==> #[trigger] update_renames_differ(
                removed_attributes(b, l)[k],
            ),
    decreases b.len(),
{
    if b.len() > 0 {
        lemma_removed_attributes_hold_no_update(b.drop_last(), l);
        let p = removed_attributes(b.drop_last(), l);
        let c = removed_attributes(b, l);
        assert forall|k: int| 0 <= k < c.len() implies #[trigger] update_renames_differ(c[k]) by {
            if k < p.len() {
                assert(c[k] == p[k]);
            }
        }
    }
}

proof fn lemma_signal_changes_real(
    q: Seq<Group>,
    b: Seq<Group>,
    l: Seq<Group>,
    catalog: Catalog,
    simple_mode: bool,
)
    ensures
        forall|k: int|
            0 <= k < signal_changes_of(q, b, l, catalog, simple_mode).len() ==> #[trigger] update_renames_differ(
                signal_changes_of(q, b, l, catalog, simple_mode)[k],
            ),
    decreases q.len(),
{
    if q.len() > 0 {
        lemma_signal_changes_real(q.drop_last(), b, l, catalog, simple_mode);
        let p = signal_changes_of(q.drop_last(), b, l, catalog, simple_mode);
        let g = q.last();
        let st = signal_step(g, b, l, catalog, simple_mode);
        if let Some(Deprecated::Updated(up)) = g.deprecated {
            lemma_update_renames_differ(up, g, l, catalog, simple_mode);
        }
        let c = signal_changes_of(q, b, l, catalog, simple_mode);
        assert forall|k: int| 0 <= k < c.len() implies #[trigger] update_renames_differ(c[k]) by {
            if k < p.len() {
                assert(c[k] == p[k]);
            } else {
                assert(c[k] == st[k - p.len()]);
            }
        }
    }
}

proof fn lemma_removed_signals_hold_no_update(b: Seq<Group>, l: Seq<Group>)
    ensures
        forall|k: int|
            0 <= k < removed_signals(b, l).len() ==> #[trigger] update_renames_differ(
                removed_signals(b, l)[k],
            ),
    decreases b.len(),
{
    if b.len() > 0 {
        lemma_removed_signals_hold_no_update(b.drop_last(), l);
        let p = removed_signals(b.drop_last(), l);
        let c = removed_signals(b, l);
        assert forall|k: int| 0 <= k < c.len() implies #[trigger] update_renames_differ(c[k]) by {
            if k < p.len() {
                assert(c[k] == p[k]);
            }
        }
    }
}

proof fn lemma_part_real(t: SchemaItemType, e: Seq<Expected>)
    requires
        forall|k: int| 0 <= k < e.len() ==> #[trigger] update_renames_differ(e[k]),
    ensures
        forall|k: int| 0 <= k < tagged(t, e).len() ==> #[trigger] update_renames_differ(tagged(t, e)[k].1),
{
    assert forall|k: int| 0 <= k < tagged(t, e).len() implies #[trigger] update_renames_differ(
        tagged(t, e)[k].1,
    ) by {
        assert(tagged(t, e)[k].1 == e[k]);
    }
}

proof fn lemma_signal_part_real(
    latest: ResolvedTelemetrySchema,
    base: ResolvedTelemetrySchema,
    g: GroupType,
    t: SchemaItemType,
    simple_mode: bool,
)
    ensures
        forall|k: int|
            0 <= k < signal_part(latest, base, g, t, simple_mode).len() ==> #[trigger] update_renames_differ(
                signal_part(latest, base, g, t, simple_mode)[k].1,
            ),
{
    let l = latest.group_model(g);
    let b = base.group_model(g);
    let c = signal_changes_of(l, b, l, latest.catalog, simple_mode);
    let r = removed_signals(b, l);
    lemma_signal_changes_real(l, b, l, latest.catalog, simple_mode);
    lemma_removed_signals_hold_no_update(b, l);
    let sd = signal_diff(l, b, latest.catalog, simple_mode);
    assert forall|k: int| 0 <= k < sd.len() implies #[trigger] update_renames_differ(sd[k]) by {
        if k < c.len() {
            assert(sd[k] == c[k]);
        } else {
            assert(sd[k] == r[k - c.len()]);
        }
    }
    lemma_part_real(t, sd);
}

/// Every update that a diff records records a local attribute as renamed only
/// when its tag changed: a local attribute present in both signals with the
/// same tag gives no rename.
pub proof fn lemma_diff_updates_rename_only_changed_tags(
    latest: ResolvedTelemetrySchema,
    base: ResolvedTelemetrySchema,
    simple_mode: bool,
)
    ensures
        forall|k: int|
            0 <= k < diff_model(latest, base, simple_mode).len() ==> ((#[trigger] diff_model(
                latest,
                base,
                simple_mode,
            )[k]).1 matches Expected::Exactly(ChangeModel::Updated(u)) ==> nested_renames_differ(u)),
{
    let la = latest.attribute_model(true);
    let ba = base.attribute_model(true);
    let ad = attribute_diff(la, ba);
    lemma_attribute_changes_hold_no_update(la, ba);
    lemma_removed_attributes_hold_no_update(ba, la);
    let c = attribute_changes_of(la, ba);
    let rm = removed_attributes(ba, la);
    assert forall|k: int| 0 <= k < ad.len() implies #[trigger] update_renames_differ(ad[k]) by {
        if k < c.len() {
            assert(ad[k] == c[k]);
        } else {
            assert(ad[k] == rm[k - c.len()]);
        }
    }
    let a = tagged(SchemaItemType::RegistryAttributes, ad);
    lemma_part_real(SchemaItemType::RegistryAttributes, ad);
    let m = signal_part(latest, base, GroupType::Metric, SchemaItemType::Metrics, simple_mode);
    let ev = signal_part(latest, base, GroupType::Event, SchemaItemType::Events, simple_mode);
    let sp = signal_part(latest, base, GroupType::Span, SchemaItemType::Spans, simple_mode);
    let r = signal_part(latest, base, GroupType::Resource, SchemaItemType::Resources, simple_mode);
    lemma_signal_part_real(latest, base, GroupType::Metric, SchemaItemType::Metrics, simple_mode);
    lemma_signal_part_real(latest, base, GroupType::Event, SchemaItemType::Events, simple_mode);
    lemma_signal_part_real(latest, base, GroupType::Span, SchemaItemType::Spans, simple_mode);
    lemma_signal_part_real(latest, base, GroupType::Resource, SchemaItemType::Resources, simple_mode);
    let dm = diff_model(latest, base, simple_mode);
    assert(dm == a + m + ev + sp + r);
    assert forall|k: int| 0 <= k < dm.len() implies #[trigger] update_renames_differ(dm[k].1) by {
        let n1 = a.len() as int;
        let n2 = n1 + m.len();
        let n3 = n2 + ev.len();
        let n4 = n3 + sp.len();
        if k < n1 {
            assert(dm[k] == a[k]);
        } else if k < n2 {
            assert(dm[k] == m[k - n1]);
        } else if k < n3 {
            assert(dm[k] == ev[k - n2]);
        } else if k < n4 {
            assert(dm[k] == sp[k - n3]);
        } else {
            assert(dm[k] == r[k - n4]);
        }
    }
    assert forall|k: int| 0 <= k < dm.len() implies ((#[trigger] dm[k]).1 matches Expected::Exactly(
        ChangeModel::Updated(u),
    ) ==> nested_renames_differ(u)) by {
        assert(update_renames_differ(dm[k].1));
    }
}


/// The name of the item that an expected change is about: the name before a
/// rename, the identifier of an updated signal.
pub open spec fn subject(e: Expected) -> Seq<char> {
    match e {
        Expected::Exactly(ChangeModel::Added { name }) => name,
        Expected::Exactly(ChangeModel::Renamed(r)) => r.old_name,
        Expected::Exactly(ChangeModel::Obsoleted { name, .. }) => name,
        Expected::Exactly(ChangeModel::Uncategorized { name, .. }) => name,
        Expected::Exactly(ChangeModel::Removed { name }) => name,
        Expected::Exactly(ChangeModel::Updated(u)) => u.id,
        Expected::FailedUpdate { name, .. } => name,
    }
}

proof fn lemma_attribute_step_subject(x: Attribute, b: Seq<Attribute>)
    ensures
        forall|k: int| 0 <= k < attribute_step(x, b).len() ==> subject(#[trigger] attribute_step(x, b)[k]) == x.name@,
{
    lemma_index_of_key(b, x.name@);
}

proof fn lemma_attribute_changes_subjects(l: Seq<Attribute>, b: Seq<Attribute>, name: Seq<char>)
    requires
        forall|i: int| 0 <= i < l.len() && (#[trigger] l[i]).name@ == name ==> attribute_step(l[i], b).len() == 0,
    ensures
        forall|k: int|
            0 <= k < attribute_changes_of(l, b).len() ==> subject(#[trigger] attribute_changes_of(l, b)[k]) != name,
    decreases l.len(),
{
    if l.len() > 0 {
        let q = l.drop_last();
        assert forall|i: int| 0 <= i < q.len() && (#[trigger] q[i]).name@ == name implies attribute_step(q[i], b).len() == 0 by {
            assert(q[i] == l[i]);
        }
        lemma_attribute_changes_subjects(q, b, name);
        let x = l.last();
        assert(l[l.len() - 1] == x);
        lemma_attribute_step_subject(x, b);
        let p = attribute_changes_of(q, b);
        let st = attribute_step(x, b);
        let c = attribute_changes_of(l, b);
        assert forall|k: int| 0 <= k < c.len() implies subject(#[trigger] c[k]) != name by {
            if k < p.len() {
                assert(c[k] == p[k]);
            } else {
                assert(c[k] == st[k - p.len()]);
            }
        }
    }
}

proof fn lemma_removed_attributes_subjects(b: Seq<Attribute>, l: Seq<Attribute>, name: Seq<char>)
    requires
        has_key(l, name),
    ensures
        forall|k: int|
            0 <= k < removed_attributes(b, l).len() ==> subject(#[trigger] removed_attributes(b, l)[k]) != name,
    decreases b.len(),
{
    if b.len() > 0 {
        lemma_removed_attributes_subjects(b.drop_last(), l, name);
        let p = removed_attributes(b.drop_last(), l);
        let c = removed_attributes(b, l);
        assert forall|k: int| 0 <= k < c.len() implies subject(#[trigger] c[k]) != name by {
            if k < p.len() {
                assert(c[k] == p[k]);
            }
        }
    }
}

/// The changes of registry attributes come first in a diff: every change at a
/// later place concerns signals.
proof fn lemma_attribute_part_first(
    latest: ResolvedTelemetrySchema,
    base: ResolvedTelemetrySchema,
    simple_mode: bool,
    k: int,
)
    requires
        0 <= k < diff_model(latest, base, simple_mode).len(),
        diff_model(latest, base, simple_mode)[k].0 == SchemaItemType::RegistryAttributes,
    ensures
        k < attribute_diff(latest.attribute_model(true), base.attribute_model(true)).len(),
        diff_model(latest, base, simple_mode)[k].1 == attribute_diff(
            latest.attribute_model(true),
            base.attribute_model(true),
        )[k],
{
    let ad = attribute_diff(latest.attribute_model(true), base.attribute_model(true));
    let a = tagged(SchemaItemType::RegistryAttributes, ad);
    let m = signal_part(latest, base, GroupType::Metric, SchemaItemType::Metrics, simple_mode);
    let ev = signal_part(latest, base, GroupType::Event, SchemaItemType::Events, simple_mode);
    let sp = signal_part(latest, base, GroupType::Span, SchemaItemType::Spans, simple_mode);
    let r = signal_part(latest, base, GroupType::Resource, SchemaItemType::Resources, simple_mode);
    let dm = diff_model(latest, base, simple_mode);
    assert(dm == a + m + ev + sp + r);
    let n1 = a.len() as int;
    let n2 = n1 + m.len();
    let n3 = n2 + ev.len();
    let n4 = n3 + sp.len();
    if k < n1 {
        assert(dm[k] == a[k]);
    } else if k < n2 {
        assert(dm[k] == m[k - n1]);
    } else if k < n3 {
        assert(dm[k] == ev[k - n2]);
    } else if k < n4 {
        assert(dm[k] == sp[k - n3]);
    } else {
        assert(dm[k] == r[k - n4]);
    }
}

/// A registry attribute that both schemas hold, and whose deprecation did not
/// change (none, or equal field by field to the baseline's), is the subject of
/// no recorded change of registry attributes.
pub proof fn lemma_unchanged_attribute_not_recorded(
    latest: ResolvedTelemetrySchema,
    base: ResolvedTelemetrySchema,
    simple_mode: bool,
    i: int,
    j: int,
)
    requires
        0 <= i < latest.attribute_model(true).len(),
        0 <= j < base.attribute_model(true).len(),
        base.attribute_model(true)[j].name@ == latest.attribute_model(true)[i].name@,
        latest.attribute_model(true)[i].deprecated is None || (latest.attribute_model(true)[i].deprecated matches Some(
            d,
        ) && base.attribute_model(true)[j].deprecated matches Some(bd) && d.same_as(bd)),
    ensures
        forall|k: int|
            0 <= k < diff_model(latest, base, simple_mode).len() && (#[trigger] diff_model(
                latest,
                base,
                simple_mode,
            )[k]).0 == SchemaItemType::RegistryAttributes ==> subject(
                diff_model(latest, base, simple_mode)[k].1,
            ) != latest.attribute_model(true)[i].name@,
{
    let l = latest.attribute_model(true);
    let b = base.attribute_model(true);
    let name = l[i].name@;
    lemma_keyed_collect(crate::selected_attributes(latest.registry.groups@, latest.catalog, true));
    lemma_keyed_collect(crate::selected_attributes(base.registry.groups@, base.catalog, true));
    lemma_index_of_own_key(b, j);
    lemma_index_of_own_key(l, i);
    assert(index_of_key(b, name) == j);
    assert(attribute_step(l[i], b).len() == 0);
    assert forall|i2: int| 0 <= i2 < l.len() && (#[trigger] l[i2]).name@ == name implies attribute_step(l[i2], b).len() == 0 by {
        if i2 != i {
            assert(l[i2].key_view() == l[i].key_view());
        }
    }
    lemma_attribute_changes_subjects(l, b, name);
    assert(has_key(l, l[i].key_view()));
    lemma_removed_attributes_subjects(b, l, name);
    let c = attribute_changes_of(l, b);
    let rm = removed_attributes(b, l);
    let ad = attribute_diff(l, b);
    let dm = diff_model(latest, base, simple_mode);
    assert forall|k: int| 0 <= k < dm.len() && (#[trigger] dm[k]).0 == SchemaItemType::RegistryAttributes implies subject(
        dm[k].1,
    ) != name by {
        lemma_attribute_part_first(latest, base, simple_mode, k);
        if k < c.len() {
            assert(ad[k] == c[k]);
        } else {
            assert(ad[k] == rm[k - c.len()]);
        }
    }
}


proof fn lemma_signal_step_subject(x: Group, b: Seq<Group>, l: Seq<Group>, catalog: Catalog, simple_mode: bool)
    ensures
        forall|k: int|
            0 <= k < signal_step(x, b, l, catalog, simple_mode).len() ==> subject(
                #[trigger] signal_step(x, b, l, catalog, simple_mode)[k],
            ) == x.id@,
{
}

proof fn lemma_signal_changes_subjects(
    p: Seq<Group>,
    b: Seq<Group>,
    l: Seq<Group>,
    catalog: Catalog,
    simple_mode: bool,
    name: Seq<char>,
)
    requires
        forall|i: int|
            0 <= i < p.len() && (#[trigger] p[i]).id@ == name ==> signal_step(p[i], b, l, catalog, simple_mode).len()
                == 0,
    ensures
        forall|k: int|
            0 <= k < signal_changes_of(p, b, l, catalog, simple_mode).len() ==> subject(
                #[trigger] signal_changes_of(p, b, l, catalog, simple_mode)[k],
            ) != name,
    decreases p.len(),
{
    if p.len() > 0 {
        let q = p.drop_last();
        assert forall|i: int| 0 <= i < q.len() && (#[trigger] q[i]).id@ == name implies signal_step(
            q[i],
            b,
            l,
            catalog,
            simple_mode,
        ).len() == 0 by {
            assert(q[i] == p[i]);
        }
        lemma_signal_changes_subjects(q, b, l, catalog, simple_mode, name);
        let x = p.last();
        assert(p[p.len() - 1] == x);
        lemma_signal_step_subject(x, b, l, catalog, simple_mode);
        let pc = signal_changes_of(q, b, l, catalog, simple_mode);
        let st = signal_step(x, b, l, catalog, simple_mode);
        let c = signal_changes_of(p, b, l, catalog, simple_mode);
        assert forall|k: int| 0 <= k < c.len() implies subject(#[trigger] c[k]) != name by {
            if k < pc.len() {
                assert(c[k] == pc[k]);
            } else {
                assert(c[k] == st[k - pc.len()]);
            }
        }
    }
}

proof fn lemma_removed_signals_subjects(b: Seq<Group>, l: Seq<Group>, name: Seq<char>)
    requires
        has_key(l, name),
    ensures
        forall|k: int| 0 <= k < removed_signals(b, l).len() ==> subject(#[trigger] removed_signals(b, l)[k]) != name,
    decreases b.len(),
{
    if b.len() > 0 {
        lemma_removed_signals_subjects(b.drop_last(), l, name);
        let p = removed_signals(b.drop_last(), l);
        let c = removed_signals(b, l);
        assert forall|k: int| 0 <= k < c.len() implies subject(#[trigger] c[k]) != name by {
            if k < p.len() {
                assert(c[k] == p[k]);
            }
        }
    }
}

proof fn lemma_signal_part_place(
    latest: ResolvedTelemetrySchema,
    base: ResolvedTelemetrySchema,
    simple_mode: bool,
    t: SchemaItemType,
    g: GroupType,
    k: int,
)
    requires
        signal_group_type(t) == Some(g),
        0 <= k < diff_model(latest, base, simple_mode).len(),
        diff_model(latest, base, simple_mode)[k].0 == t,
    ensures
        exists|k2: int|
            0 <= k2 < signal_diff(latest.group_model(g), base.group_model(g), latest.catalog, simple_mode).len()
                && diff_model(latest, base, simple_mode)[k].1 == #[trigger] signal_diff(
                latest.group_model(g),
                base.group_model(g),
                latest.catalog,
                simple_mode,
            )[k2],
{
    let a = tagged(
        SchemaItemType::RegistryAttributes,
        attribute_diff(latest.attribute_model(true), base.attribute_model(true)),
    );
    let m = signal_part(latest, base, GroupType::Metric, SchemaItemType::Metrics, simple_mode);
    let ev = signal_part(latest, base, GroupType::Event, SchemaItemType::Events, simple_mode);
    let sp = signal_part(latest, base, GroupType::Span, SchemaItemType::Spans, simple_mode);
    let r = signal_part(latest, base, GroupType::Resource, SchemaItemType::Resources, simple_mode);
    let dm = diff_model(latest, base, simple_mode);
    assert(dm == a + m + ev + sp + r);
    let n1 = a.len() as int;
    let n2 = n1 + m.len();
    let n3 = n2 + ev.len();
    let n4 = n3 + sp.len();
    if k < n1 {
        assert(dm[k] == a[k]);
    } else if k < n2 {
        assert(dm[k] == m[k - n1]);
    } else if k < n3 {
        assert(dm[k] == ev[k - n2]);
    } else if k < n4 {
        assert(dm[k] == sp[k - n3]);
    } else {
        assert(dm[k] == r[k - n4]);
    }
}

/// A signal that both schemas hold, and whose deprecation did not change (none,
/// or equal field by field to the baseline's), is the subject of no recorded
/// change of its item type.
pub proof fn lemma_unchanged_signal_not_recorded(
    latest: ResolvedTelemetrySchema,
    base: ResolvedTelemetrySchema,
    simple_mode: bool,
    t: SchemaItemType,
    g: GroupType,
    i: int,
    j: int,
)
    requires
        signal_group_type(t) == Some(g),
        0 <= i < latest.group_model(g).len(),
        0 <= j < base.group_model(g).len(),
        base.group_model(g)[j].id@ == latest.group_model(g)[i].id@,
        latest.group_model(g)[i].deprecated is None || (latest.group_model(g)[i].deprecated matches Some(d)
            && base.group_model(g)[j].deprecated matches Some(bd) && d.same_as(bd)),
    ensures
        forall|k: int|
            0 <= k < diff_model(latest, base, simple_mode).len() && (#[trigger] diff_model(
                latest,
                base,
                simple_mode,
            )[k]).0 == t ==> subject(diff_model(latest, base, simple_mode)[k].1)
                != latest.group_model(g)[i].id@,
{
    let l = latest.group_model(g);
    let b = base.group_model(g);
    let name = l[i].id@;
    lemma_keyed_collect(crate::groups_of_type(latest.registry.groups@, g));
    lemma_keyed_collect(crate::groups_of_type(base.registry.groups@, g));
    lemma_index_of_own_key(b, j);
    lemma_index_of_own_key(l, i);
    assert(index_of_key(b, name) == j);
    assert(signal_step(l[i], b, l, latest.catalog, simple_mode).len() == 0);
    assert forall|i2: int| 0 <= i2 < l.len() && (#[trigger] l[i2]).id@ == name implies signal_step(
        l[i2],
        b,
        l,
        latest.catalog,
        simple_mode,
    ).len() == 0 by {
        if i2 != i {
            assert(l[i2].key_view() == l[i].key_view());
        }
    }
    lemma_signal_changes_subjects(l, b, l, latest.catalog, simple_mode, name);
    assert(has_key(l, l[i].key_view()));
    lemma_removed_signals_subjects(b, l, name);
    let c = signal_changes_of(l, b, l, latest.catalog, simple_mode);
    let rm = removed_signals(b, l);
    let sd = signal_diff(l, b, latest.catalog, simple_mode);
    let dm = diff_model(latest, base, simple_mode);
    assert forall|k: int| 0 <= k < dm.len() && (#[trigger] dm[k]).0 == t implies subject(dm[k].1) != name by {
        lemma_signal_part_place(latest, base, simple_mode, t, g, k);
        let k2 = choose|k2: int| 0 <= k2 < sd.len() && dm[k].1 == #[trigger] sd[k2];
        if k2 < c.len() {
            assert(sd[k2] == c[k2]);
        } else {
            assert(sd[k2] == rm[k2 - c.len()]);
        }
    }
}

/// Only the simple mode describes updates: outside it, the replacement of a
/// signal is never described, and in it an update is described only when a
/// signal of the same type has the replacement's identifier; a described update
/// carries the identifiers, queries and note of the deprecation.
pub proof fn lemma_update_requires_simple_mode_and_replacement(
    up: DeprecatedUpdated,
    g: Group,
    latest: Seq<Group>,
    catalog: Catalog,
    simple_mode: bool,
)
    ensures
        !simple_mode ==> update_model(up, g, latest, catalog, simple_mode) == Err::<UpdatedModel, UpdateFailure>(
            UpdateFailure::NotSimpleMode,
        ),
        update_model(up, g, latest, catalog, simple_mode) matches Ok(u) ==> {
            &&& simple_mode
            &&& exists|ri: int| 0 <= ri < latest.len() && (#[trigger] latest[ri]).id@ == up.replaced_by_id@
            &&& u.id == g.id@
            &&& u.replaced_by_id == up.replaced_by_id@
            &&& u.forward_promql == up.forward_promql@
            &&& u.backward_promql == up.backward_promql@
            &&& u.note == up.note@
        },
        simple_mode && (forall|ri: int| 0 <= ri < latest.len() ==> (#[trigger] latest[ri]).id@ != up.replaced_by_id@)
            ==> update_model(up, g, latest, catalog, simple_mode) == Err::<UpdatedModel, UpdateFailure>(
            UpdateFailure::ReplacementNotFound { replaced_by_id: up.replaced_by_id@, note: up.note@ },
        ),
{
    lemma_index_of_key(latest, up.replaced_by_id@);
    let ri = index_of_key(latest, up.replaced_by_id@);
    if ri >= 0 {
        assert(latest[ri].key_view() == up.replaced_by_id@);
    }
}


/// Whether the changed fields of an update hold, under field name `key`,
/// exactly the renaming `change` when `changed`, and nothing otherwise.
pub open spec fn field_recorded_iff(
    fields: Seq<(Seq<char>, RenamedModel)>,
    key: Seq<char>,
    changed: bool,
    change: RenamedModel,
) -> bool {
    &&& changed <==> exists|i: int| 0 <= i < fields.len() && (#[trigger] fields[i]).0 == key
    &&& forall|i: int| 0 <= i < fields.len() && (#[trigger] fields[i]).0 == key ==> fields[i].1 == change
}

/// The changed fields of a described update: the metric name and the unit are
/// recorded exactly when their texts differ, from the replaced signal's text to
/// the replacement's (an absent one as empty text), and the instrument exactly
/// when the instruments differ, from the replacement's to the replaced signal's;
/// no other field is recorded.
pub proof fn lemma_update_fields(
    up: DeprecatedUpdated,
    g: Group,
    latest: Seq<Group>,
    catalog: Catalog,
    simple_mode: bool,
)
    ensures
        update_model(up, g, latest, catalog, simple_mode) matches Ok(u) ==> {
            let r = latest[index_of_key(latest, up.replaced_by_id@)];
            &&& field_recorded_iff(
                u.fields,
                "metric_name"@,
                opt_text(r.metric_name) != opt_text(g.metric_name),
                RenamedModel {
                    old_name: text_or_empty(g.metric_name),
                    new_name: text_or_empty(r.metric_name),
                    note: seq![],
                },
            )
            &&& field_recorded_iff(
                u.fields,
                "unit"@,
                opt_text(r.unit) != opt_text(g.unit),
                RenamedModel { old_name: text_or_empty(g.unit), new_name: text_or_empty(r.unit), note: seq![] },
            )
            &&& (r.instrument != g.instrument <==> exists|i: int|
                0 <= i < u.fields.len() && (#[trigger] u.fields[i]).0 == "instrument"@)
            &&& forall|i: int|
                0 <= i < u.fields.len() && (#[trigger] u.fields[i]).0 == "instrument"@ ==> (
                r.instrument matches Some(ri) && g.instrument matches Some(gi) && u.fields[i].1
                    == RenamedModel { old_name: ri.text_view(), new_name: gi.text_view(), note: seq![] })
            &&& forall|i: int|
                0 <= i < u.fields.len() ==> (#[trigger] u.fields[i]).0 == "metric_name"@ || u.fields[i].0
                    == "unit"@ || u.fields[i].0 == "instrument"@
        },
{
    reveal_strlit("metric_name");
    reveal_strlit("unit");
    reveal_strlit("instrument");
    match update_model(up, g, latest, catalog, simple_mode) {
        Ok(u) => {
            let r = latest[index_of_key(latest, up.replaced_by_id@)];
            let mc = opt_text(r.metric_name) != opt_text(g.metric_name);
            let uc = opt_text(r.unit) != opt_text(g.unit);
            let m = field_change("metric_name"@, text_or_empty(g.metric_name), text_or_empty(r.metric_name));
            let un = field_change("unit"@, text_or_empty(g.unit), text_or_empty(r.unit));
            let f1 = if mc { seq![m] } else { Seq::<(Seq<char>, RenamedModel)>::empty() };
            let f2 = if uc { seq![un] } else { Seq::<(Seq<char>, RenamedModel)>::empty() };
            let f = f1 + f2;
            assert(text_fields(g, r) == f);
            assert(fields_result(up, g, r) == Ok::<Seq<(Seq<char>, RenamedModel)>, UpdateFailure>(u.fields));
            assert("metric_name"@[0] == 'm');
            assert("unit"@[0] == 'u');
            assert("instrument"@[0] == 'i');
            assert("metric_name"@ != "unit"@);
            assert("metric_name"@ != "instrument"@);
            assert("unit"@ != "instrument"@);
            assert forall|i: int| 0 <= i < f.len() implies (#[trigger] f[i]) == m || f[i] == un by {
                if mc && i == 0 {
                    assert(f[i] == m);
                } else {
                    assert(f[i] == un);
                }
            }
            if mc {
                assert(f[0] == m);
            }
            if uc {
                assert(f[f1.len() as int] == un);
            }
            if r.instrument != g.instrument {
                let ri = r.instrument.unwrap();
                let gi = g.instrument.unwrap();
                let ins = field_change("instrument"@, ri.text_view(), gi.text_view());
                assert(u.fields == f.push(ins));
                assert(u.fields[f.len() as int] == ins);
                assert forall|i: int| 0 <= i < u.fields.len() implies (#[trigger] u.fields[i]) == m
                    || u.fields[i] == un || u.fields[i] == ins by {
                    if i < f.len() {
                        assert(u.fields[i] == f[i]);
                    }
                }
                if mc {
                    assert(u.fields[0] == m);
                }
                if uc {
                    assert(u.fields[f1.len() as int] == un);
                }
            } else {
                assert(u.fields == f);
            }
        },
        Err(_) => {},
    }
}


/// What an entry of the local attribute changes of an update may be, given the
/// local attributes (by local identifier) of the replacement `rep` and of the
/// replaced signal `dep`: an addition under a local identifier that only the
/// replacement has; a renaming, under a local identifier that both have, from
/// the replaced signal's tag to the replacement's, the two tags differing; or
/// a removal, under its name, of an attribute of the replaced signal whose
/// local identifier the replacement lacks.
pub open spec fn local_entry_ok(
    e: (Seq<char>, NestedChangeModel),
    rep: Seq<(Seq<char>, Attribute)>,
    dep: Seq<(Seq<char>, Attribute)>,
) -> bool {
    match e.1 {
        NestedChangeModel::Added { name } => {
            &&& name == e.0
            &&& exists|rj: int| 0 <= rj < rep.len() && (#[trigger] rep[rj]).0 == e.0
            &&& !has_key(dep, e.0)
        },
        NestedChangeModel::Renamed(rm) => {
            &&& rm.note.len() == 0
            &&& rm.old_name != rm.new_name
            &&& exists|dj: int, rj: int|
                #![trigger dep[dj], rep[rj]]
                0 <= dj < dep.len() && 0 <= rj < rep.len() && dep[dj].0 == e.0 && rep[rj].0 == e.0 && (
                dep[dj].1.tag matches Some(dt) && dt@ == rm.old_name) && (rep[rj].1.tag matches Some(rt)
                && rt@ == rm.new_name)
        },
        NestedChangeModel::Removed { name } => {
            &&& name == e.0
            &&& exists|dj: int|
                0 <= dj < dep.len() && (#[trigger] dep[dj]).1.name@ == name && !has_key(rep, dep[dj].0)
        },
        _ => false,
    }
}

proof fn lemma_replacement_entries_ok(
    rep: Seq<(Seq<char>, Attribute)>,
    dep: Seq<(Seq<char>, Attribute)>,
    note: Seq<char>,
    n: int,
)
    requires
        0 <= n <= rep.len(),
    ensures
        replacement_attribute_changes(rep.take(n), dep, note) matches Ok(acc) ==> forall|i: int|
            0 <= i < acc.len() ==> #[trigger] local_entry_ok(acc[i], rep, dep),
    decreases n,
{
    if n > 0 {
        lemma_replacement_entries_ok(rep, dep, note, n - 1);
        let p = rep.take(n);
        assert(p.drop_last() =~= rep.take(n - 1));
        match replacement_attribute_changes(rep.take(n - 1), dep, note) {
            Ok(acc) => {
                let e = p.last();
                assert(e == rep[n - 1]);
                let k = e.0;
                lemma_index_of_key(dep, k);
                let j = index_of_key(dep, k);
                let pr = |x: (Seq<char>, NestedChangeModel)| local_entry_ok(x, rep, dep);
                assert forall|i: int| 0 <= i < acc.len() implies #[trigger] pr(acc[i]) by {
                    assert(local_entry_ok(acc[i], rep, dep));
                }
                if j < 0 {
                    let x = (k, NestedChangeModel::Added { name: k });
                    assert(local_entry_ok(x, rep, dep));
                    lemma_keyed_insert_preserves(acc, x, pr);
                    assert forall|i: int| 0 <= i < keyed_insert(acc, x).len() implies #[trigger] local_entry_ok(
                        keyed_insert(acc, x)[i],
                        rep,
                        dep,
                    ) by {
                        assert(pr(keyed_insert(acc, x)[i]));
                    }
                } else {
                    match (dep[j].1.tag, e.1.tag) {
                        (Some(dt), Some(rt)) => {
                            if dt@ != rt@ {
                                let x = (
                                    k,
                                    NestedChangeModel::Renamed(
                                        RenamedModel { old_name: dt@, new_name: rt@, note: seq![] },
                                    ),
                                );
                                assert(dep[j].0 == k && rep[n - 1].0 == k);
                                assert(local_entry_ok(x, rep, dep));
                                lemma_keyed_insert_preserves(acc, x, pr);
                                assert forall|i: int| 0 <= i < keyed_insert(acc, x).len() implies #[trigger] local_entry_ok(
                                    keyed_insert(acc, x)[i],
                                    rep,
                                    dep,
                                ) by {
                                    assert(pr(keyed_insert(acc, x)[i]));
                                }
                            }
                        },
                        _ => {},
                    }
                }
            },
            Err(_) => {},
        }
    }
}

proof fn lemma_removed_entries_ok(
    dep: Seq<(Seq<char>, Attribute)>,
    rep: Seq<(Seq<char>, Attribute)>,
    acc: Seq<(Seq<char>, NestedChangeModel)>,
    n: int,
)
    requires
        0 <= n <= dep.len(),
        forall|i: int| 0 <= i < acc.len() ==> #[trigger] local_entry_ok(acc[i], rep, dep),
    ensures
        forall|i: int|
            0 <= i < removed_local_attributes(dep.take(n), rep, acc).len() ==> #[trigger] local_entry_ok(
                removed_local_attributes(dep.take(n), rep, acc)[i],
                rep,
                dep,
            ),
    decreases n,
{
    if n > 0 {
        lemma_removed_entries_ok(dep, rep, acc, n - 1);
        let p = dep.take(n);
        assert(p.drop_last() =~= dep.take(n - 1));
        let prior = removed_local_attributes(dep.take(n - 1), rep, acc);
        assert(p.last() == dep[n - 1]);
        if !has_key(rep, dep[n - 1].0) {
            let a = dep[n - 1].1;
            let x = (a.name@, NestedChangeModel::Removed { name: a.name@ });
            assert(local_entry_ok(x, rep, dep));
            let pr = |y: (Seq<char>, NestedChangeModel)| local_entry_ok(y, rep, dep);
            assert forall|i: int| 0 <= i < prior.len() implies #[trigger] pr(prior[i]) by {
                assert(local_entry_ok(prior[i], rep, dep));
            }
            lemma_keyed_insert_preserves(prior, x, pr);
            assert forall|i: int| 0 <= i < keyed_insert(prior, x).len() implies #[trigger] local_entry_ok(
                keyed_insert(prior, x)[i],
                rep,
                dep,
            ) by {
                assert(pr(keyed_insert(prior, x)[i]));
            }
        }
    }
}

/// The local attribute changes of a described update: every entry is an
/// addition of a local identifier that only the replacement has, a renaming of
/// the tag of a local identifier that both have (the tags differing), or a
/// removal of an attribute of the replaced signal whose local identifier the
/// replacement lacks.
pub proof fn lemma_update_local_attributes(
    up: DeprecatedUpdated,
    g: Group,
    latest: Seq<Group>,
    catalog: Catalog,
    simple_mode: bool,
)
    ensures
        update_model(up, g, latest, catalog, simple_mode) matches Ok(u) ==> {
            let r = latest[index_of_key(latest, up.replaced_by_id@)];
            let rep = local_only_model(attrs_or_empty(r, catalog));
            let dep = local_only_model(attrs_or_empty(g, catalog));
            forall|i: int| 0 <= i < u.attributes.len() ==> #[trigger] local_entry_ok(u.attributes[i], rep, dep)
        },
{
    match update_model(up, g, latest, catalog, simple_mode) {
        Ok(u) => {
            let r = latest[index_of_key(latest, up.replaced_by_id@)];
            let rep = local_only_model(attrs_or_empty(r, catalog));
            let dep = local_only_model(attrs_or_empty(g, catalog));
            lemma_replacement_entries_ok(rep, dep, up.note@, rep.len() as int);
            assert(rep.take(rep.len() as int) =~= rep);
            match replacement_attribute_changes(rep, dep, up.note@) {
                Ok(acc) => {
                    lemma_removed_entries_ok(dep, rep, acc, dep.len() as int);
                    assert(dep.take(dep.len() as int) =~= dep);
                },
                Err(_) => {},
            }
        },
        Err(_) => {},
    }
}

} // verus!
