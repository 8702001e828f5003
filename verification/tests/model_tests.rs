use weaver_resolved_schema::attribute::{Attribute, AttributeRef, AttributeType};
use weaver_resolved_schema::catalog::Catalog;
use weaver_resolved_schema::deprecated::{Deprecated, DeprecatedUpdated};
use weaver_resolved_schema::error::Error;
use weaver_resolved_schema::manifest::RegistryManifest;
use weaver_resolved_schema::registry::{Group, GroupType, InstrumentSpec, Registry};
use weaver_resolved_schema::schema_changes::{
    ChangeKind, SchemaChanges, SchemaItemChange, SchemaItemChangeRenamed, SchemaItemType,
};
use weaver_resolved_schema::ResolvedTelemetrySchema;

fn group(id: &str, group_type: GroupType, attributes: Vec<AttributeRef>) -> Group {
    Group {
        id: id.to_owned(),
        group_type,
        brief: String::new(),
        note: String::new(),
        prefix: String::new(),
        extends: None,
        stability: None,
        deprecated: None,
        name: None,
        lineage: None,
        display_name: None,
        attributes,
        span_kind: None,
        events: vec![],
        metric_name: None,
        instrument: None,
        constraints: vec![],
        unit: None,
        body: None,
    }
}

fn metric(
    id: &str,
    metric_name: &str,
    instrument: Option<InstrumentSpec>,
    unit: Option<&str>,
    attributes: Vec<AttributeRef>,
) -> Group {
    Group {
        metric_name: Some(metric_name.to_owned()),
        instrument,
        unit: unit.map(|u| u.to_owned()),
        ..group(id, GroupType::Metric, attributes)
    }
}

fn local(name: &str, local_id: &str, tag: Option<&str>) -> Attribute {
    Attribute {
        local_id: Some(local_id.to_owned()),
        tag: tag.map(|t| t.to_owned()),
        ..Attribute::string(name, "", "")
    }
}

fn updated(replaced_by_id: &str, note: &str) -> Deprecated {
    Deprecated::Updated(DeprecatedUpdated {
        replaced_by_id: replaced_by_id.to_owned(),
        note: note.to_owned(),
        forward_promql: "fwd".to_owned(),
        backward_promql: "bwd".to_owned(),
    })
}

fn all_changes(changes: &SchemaChanges, t: SchemaItemType) -> Vec<&SchemaItemChange> {
    changes.changes_by_type(t).unwrap()
}

#[test]
fn constructors_set_type_and_texts() {
    let a = Attribute::integer("n", "b", "t");
    assert_eq!(a.name, "n");
    assert_eq!(a.attr_type, AttributeType::Int);
    assert_eq!(a.brief, "b");
    assert_eq!(a.note, "t");
    assert!(a.tag.is_none() && a.deprecated.is_none() && a.local_id.is_none());
    assert_eq!(Attribute::boolean("x", "", "").attr_type, AttributeType::Boolean);
    assert_eq!(Attribute::string("x", "", "").attr_type, AttributeType::String);
    assert_eq!(Attribute::double("x", "", "").attr_type, AttributeType::Double);
    let b = a.brief("other").deprecated(Deprecated::Obsoleted { note: "gone".to_owned() });
    assert_eq!(b.brief, "other");
    assert_eq!(b.name, "n");
    assert!(b.deprecated == Some(Deprecated::Obsoleted { note: "gone".to_owned() }));
}

#[test]
fn deprecations_compare_field_by_field() {
    let r1 = Deprecated::Renamed { renamed_to: "a".to_owned(), note: "n".to_owned() };
    let r2 = Deprecated::Renamed { renamed_to: "a".to_owned(), note: "n".to_owned() };
    let r3 = Deprecated::Renamed { renamed_to: "b".to_owned(), note: "n".to_owned() };
    assert!(r1 == r2);
    assert!(r1 != r3);
    assert!(Deprecated::Obsoleted { note: "n".to_owned() } != Deprecated::Uncategorized { note: "n".to_owned() });
    assert!(updated("x", "n") == updated("x", "n"));
    assert!(updated("x", "n") != updated("y", "n"));
}

#[test]
fn new_schema_is_empty() {
    let s = ResolvedTelemetrySchema::new("1.0", "url", "id", "registry-url");
    assert_eq!(s.file_format, "1.0");
    assert_eq!(s.schema_url, "url");
    assert_eq!(s.registry_id, "id");
    assert_eq!(s.registry.registry_url, "registry-url");
    assert!(s.registry.groups.is_empty());
    assert!(s.catalog.attributes.is_empty());
    assert!(s.resource.is_none() && s.instrumentation_library.is_none());
    assert!(s.dependencies.is_empty() && s.registry_manifest.is_none() && s.versions.is_none());
    assert!(s.catalog().attributes.is_empty());
}

#[test]
fn add_attribute_group_refers_to_catalog() {
    let mut s = ResolvedTelemetrySchema::new("1.0", "", "", "");
    s.add_attribute_group("g1", [Attribute::boolean("a", "", ""), Attribute::boolean("b", "", "")]);
    s.add_attribute_group("g2", [Attribute::boolean("c", "", "")]);
    assert_eq!(s.catalog.attributes.len(), 3);
    let g2 = &s.registry.groups[1];
    assert_eq!(g2.id, "g2");
    assert_eq!(g2.name.as_deref(), Some("g2"));
    assert_eq!(g2.group_type, GroupType::AttributeGroup);
    assert_eq!(g2.attributes, vec![AttributeRef(2)]);
    assert!(g2.stability.is_none() && g2.lineage.is_none() && g2.span_kind.is_none());
    assert!(g2.constraints.is_empty() && g2.body.is_none());
    assert_eq!(s.catalog.attribute(&AttributeRef(2)).unwrap().name, "c");
    assert!(s.catalog.attribute(&AttributeRef(3)).is_none());
}

#[test]
fn attribute_maps_keep_last_attribute_per_name() {
    let mut s = ResolvedTelemetrySchema::new("1.0", "", "", "");
    s.add_attribute_group("registry.a", [Attribute::boolean("x", "first", ""), Attribute::boolean("y", "", "")]);
    s.add_attribute_group("other", [Attribute::boolean("x", "second", ""), Attribute::boolean("z", "", "")]);
    s.registry.groups.push(group("registry.metric", GroupType::Metric, vec![AttributeRef(3)]));

    let all: Vec<(&str, &str)> = s.attribute_map().iter().map(|a| (a.name.as_str(), a.brief.as_str())).collect();
    assert_eq!(all, vec![("x", "second"), ("y", ""), ("z", "")]);

    let registry: Vec<(&str, &str)> =
        s.registry_attribute_map().iter().map(|a| (a.name.as_str(), a.brief.as_str())).collect();
    assert_eq!(registry, vec![("x", "first"), ("y", "")]);
}

#[test]
fn groups_by_type_keep_last_group_per_id() {
    let mut s = ResolvedTelemetrySchema::new("1.0", "", "", "");
    s.registry.groups.push(metric("m1", "first", None, None, vec![]));
    s.registry.groups.push(group("s1", GroupType::Span, vec![]));
    s.registry.groups.push(metric("m2", "x", None, None, vec![]));
    s.registry.groups.push(metric("m1", "second", None, None, vec![]));
    let metrics: Vec<(&str, Option<&str>)> = s
        .groups(GroupType::Metric)
        .iter()
        .map(|g| (g.id.as_str(), g.metric_name.as_deref()))
        .collect();
    assert_eq!(metrics, vec![("m1", Some("second")), ("m2", Some("x"))]);
    assert_eq!(s.groups(GroupType::Span).len(), 1);
    assert!(s.groups(GroupType::Event).is_empty());
}

#[test]
fn registry_group_is_attribute_group_with_prefix() {
    assert!(group("registry.http", GroupType::AttributeGroup, vec![]).is_registry_attribute_group());
    assert!(!group("registry.http", GroupType::Span, vec![]).is_registry_attribute_group());
    assert!(!group("http", GroupType::AttributeGroup, vec![]).is_registry_attribute_group());
    assert!(!group("registry", GroupType::AttributeGroup, vec![]).is_registry_attribute_group());
}

#[test]
fn group_attributes_fail_on_first_missing_reference() {
    let catalog = Catalog { attributes: vec![Attribute::boolean("a", "", ""), Attribute::boolean("b", "", "")] };
    let ok = group("g", GroupType::AttributeGroup, vec![AttributeRef(1), AttributeRef(0)]);
    let names: Vec<&str> = ok.attributes(&catalog).unwrap().iter().map(|a| a.name.as_str()).collect();
    assert_eq!(names, vec!["b", "a"]);
    let bad = group("g", GroupType::AttributeGroup, vec![AttributeRef(0), AttributeRef(5), AttributeRef(7)]);
    match bad.attributes(&catalog) {
        Err(Error::AttributeNotFound { attr_ref }) => assert_eq!(attr_ref, AttributeRef(5)),
        Ok(_) => panic!("expected an error"),
    }
}

#[test]
fn local_only_map_keeps_local_attributes_by_local_id() {
    let a = local("full.a", "a", None);
    let b = Attribute::boolean("registry.b", "", "");
    let c = local("full.c", "a", Some("t"));
    let d = local("full.d", "d", None);
    let m = Attribute::local_only_map(&vec![&a, &b, &c, &d]);
    let got: Vec<(&str, &str)> = m.iter().map(|(k, v)| (k.as_str(), v.name.as_str())).collect();
    assert_eq!(got, vec![("a", "full.c"), ("d", "full.d")]);
}

#[test]
fn instrument_names() {
    assert_eq!(InstrumentSpec::UpDownCounter.text(), "updowncounter");
    assert_eq!(InstrumentSpec::Counter.text(), "counter");
    assert_eq!(InstrumentSpec::Gauge.text(), "gauge");
    assert_eq!(InstrumentSpec::Histogram.text(), "histogram");
}

#[test]
fn stats_count_groups_and_attributes() {
    let mut s = ResolvedTelemetrySchema::new("1.0", "", "", "");
    s.add_attribute_group(
        "registry.a",
        [Attribute::boolean("x", "", ""), Attribute::boolean("y", "", "").deprecated(Deprecated::Obsoleted { note: String::new() })],
    );
    s.registry.groups.push(metric("m1", "m", None, None, vec![]));
    s.add_attribute_group("b", [Attribute::boolean("z", "", "")]);
    let stats = s.stats();
    assert_eq!(stats.registry_stats.len(), 1);
    assert_eq!(stats.registry_stats[0].group_count, 3);
    assert_eq!(
        stats.registry_stats[0].group_breakdown,
        vec![(GroupType::AttributeGroup, 2), (GroupType::Metric, 1)]
    );
    assert_eq!(stats.catalog_stats.attribute_count, 3);
    assert_eq!(stats.catalog_stats.deprecated_count, 1);
    let r = Registry::new("u");
    assert_eq!(r.stats().group_count, 0);
}

#[test]
fn schema_changes_record_in_order() {
    let mut c = SchemaChanges::new();
    assert!(c.is_empty());
    c.add_change(SchemaItemType::Metrics, SchemaItemChange::Added { name: "m".to_owned() });
    c.add_change(SchemaItemType::RegistryAttributes, SchemaItemChange::Removed { name: "a".to_owned() });
    c.add_change(
        SchemaItemType::RegistryAttributes,
        SchemaItemChange::Uncategorized { name: "b".to_owned(), note: "n".to_owned() },
    );
    assert!(!c.is_empty());
    assert_eq!(c.count_changes(), 3);
    assert_eq!(c.count_registry_attribute_changes(), 2);
    assert_eq!(c.count_removed_registry_attributes(), 1);
    assert_eq!(c.count_uncategorized_registry_attributes(), 1);
    assert_eq!(c.count_added_registry_attributes(), 0);
    let attrs = all_changes(&c, SchemaItemType::RegistryAttributes);
    assert_eq!(attrs.len(), 2);
    assert_eq!(attrs[0].change_kind(), ChangeKind::Removed);
    assert_eq!(attrs[1].change_kind(), ChangeKind::Uncategorized);
    assert!(all_changes(&c, SchemaItemType::Spans).is_empty());
    assert!(c.head_manifest().is_none());
    c.set_head_manifest(weaver_resolved_schema::schema_changes::RegistryManifest { semconv_version: "1.2".to_owned() });
    assert_eq!(c.head_manifest().unwrap().semconv_version, "1.2");
    assert!(c.baseline_manifest().is_none());
}

fn manifest(version: &str) -> RegistryManifest {
    RegistryManifest {
        name: "r".to_owned(),
        description: None,
        semconv_version: version.to_owned(),
        schema_base_url: String::new(),
    }
}

#[test]
fn diff_records_manifest_versions() {
    let mut latest = ResolvedTelemetrySchema::new("1.0", "", "", "");
    latest.registry_manifest = Some(manifest("1.30.0"));
    let baseline = ResolvedTelemetrySchema::new("1.0", "", "", "");
    let changes = latest.diff(&baseline, false);
    assert_eq!(changes.head_manifest().unwrap().semconv_version, "1.30.0");
    assert!(changes.baseline_manifest().is_none());
    let back = baseline.diff(&latest, false);
    assert!(back.head_manifest().is_none());
    assert_eq!(back.baseline_manifest().unwrap().semconv_version, "1.30.0");
}

#[test]
fn diff_of_uncategorized_and_renamed_registry_attribute_texts() {
    let mut prior = ResolvedTelemetrySchema::new("1.0", "", "", "");
    prior.add_attribute_group("registry.g", [Attribute::boolean("a", "", ""), Attribute::boolean("b", "", "")]);
    let mut latest = ResolvedTelemetrySchema::new("1.0", "", "", "");
    latest.add_attribute_group(
        "registry.g",
        [
            Attribute::boolean("a", "", "").deprecated(Deprecated::Uncategorized { note: "why".to_owned() }),
            Attribute::boolean("b", "", "").deprecated(Deprecated::Renamed { renamed_to: "c".to_owned(), note: "n".to_owned() }),
        ],
    );
    let changes = latest.diff(&prior, false);
    let attrs = all_changes(&changes, SchemaItemType::RegistryAttributes);
    assert_eq!(attrs.len(), 2);
    match attrs[0] {
        SchemaItemChange::Uncategorized { name, note } => {
            assert_eq!(name, "a");
            assert_eq!(note, "why");
        }
        _ => panic!("unexpected change"),
    }
    match attrs[1] {
        SchemaItemChange::Renamed(SchemaItemChangeRenamed { old_name, new_name, note }) => {
            assert_eq!(old_name, "b");
            assert_eq!(new_name, "c");
            assert_eq!(note, "n");
        }
        _ => panic!("unexpected change"),
    }
}

#[test]
fn changed_deprecation_is_recorded_again() {
    let mut prior = ResolvedTelemetrySchema::new("1.0", "", "", "");
    prior.add_attribute_group(
        "registry.g",
        [Attribute::boolean("a", "", "").deprecated(Deprecated::Obsoleted { note: "old".to_owned() })],
    );
    let mut latest = ResolvedTelemetrySchema::new("1.0", "", "", "");
    latest.add_attribute_group(
        "registry.g",
        [Attribute::boolean("a", "", "").deprecated(Deprecated::Obsoleted { note: "new".to_owned() })],
    );
    let changes = latest.diff(&prior, false);
    assert_eq!(changes.count_obsoleted_registry_attributes(), 1);
}

#[test]
fn signals_added_removed_and_deprecated() {
    let mut prior = ResolvedTelemetrySchema::new("1.0", "", "", "");
    prior.registry.groups.push(metric("m.kept", "k", None, None, vec![]));
    prior.registry.groups.push(metric("m.gone", "g", None, None, vec![]));
    prior.registry.groups.push(group("span.old", GroupType::Span, vec![]));
    let mut latest = ResolvedTelemetrySchema::new("1.0", "", "", "");
    latest.registry.groups.push(Group {
        deprecated: Some(Deprecated::Obsoleted { note: "bye".to_owned() }),
        ..metric("m.kept", "k", None, None, vec![])
    });
    latest.registry.groups.push(metric("m.new", "n", None, None, vec![]));
    latest.registry.groups.push(Group {
        deprecated: Some(Deprecated::Renamed { renamed_to: "span.new".to_owned(), note: String::new() }),
        ..group("span.old", GroupType::Span, vec![])
    });
    latest.registry.groups.push(group("event.e", GroupType::Event, vec![]));
    latest.registry.groups.push(group("resource.r", GroupType::Resource, vec![]));

    let changes = latest.diff(&prior, false);
    assert_eq!(changes.count_changes(), 6);
    let metrics = all_changes(&changes, SchemaItemType::Metrics);
    assert_eq!(metrics.len(), 3);
    assert!(matches!(metrics[0], SchemaItemChange::Obsoleted { name, note } if name == "m.kept" && note == "bye"));
    assert!(matches!(metrics[1], SchemaItemChange::Added { name } if name == "m.new"));
    assert!(matches!(metrics[2], SchemaItemChange::Removed { name } if name == "m.gone"));
    let spans = all_changes(&changes, SchemaItemType::Spans);
    assert!(matches!(spans[0], SchemaItemChange::Renamed(r) if r.old_name == "span.old" && r.new_name == "span.new"));
    assert_eq!(all_changes(&changes, SchemaItemType::Events).len(), 1);
    assert_eq!(all_changes(&changes, SchemaItemType::Resources).len(), 1);
}

fn update_schemas(replacement: Group, deprecated_extra: Vec<Attribute>, replacement_extra: Vec<Attribute>)
    -> (ResolvedTelemetrySchema, ResolvedTelemetrySchema)
{
    let mut prior = ResolvedTelemetrySchema::new("1.0", "", "", "");
    prior.registry.groups.push(metric("m.old", "old_name", Some(InstrumentSpec::Counter), Some("s"), vec![]));
    let mut latest = ResolvedTelemetrySchema::new("1.0", "", "", "");
    let n = deprecated_extra.len() as u32;
    latest.catalog.attributes.extend(deprecated_extra);
    latest.catalog.attributes.extend(replacement_extra);
    let total = latest.catalog.attributes.len() as u32;
    latest.registry.groups.push(Group {
        deprecated: Some(updated(&replacement.id, "see new")),
        ..metric("m.old", "old_name", Some(InstrumentSpec::Counter), Some("s"), (0..n).map(AttributeRef).collect())
    });
    latest.registry.groups.push(Group { attributes: (n..total).map(AttributeRef).collect(), ..replacement });
    (prior, latest)
}

#[test]
fn update_outside_simple_mode_is_uncategorized() {
    let (prior, latest) = update_schemas(metric("m.new", "new_name", Some(InstrumentSpec::Counter), Some("s"), vec![]), vec![], vec![]);
    let changes = latest.diff(&prior, false);
    let metrics = all_changes(&changes, SchemaItemType::Metrics);
    assert_eq!(metrics.len(), 2);
    match metrics[0] {
        SchemaItemChange::Uncategorized { name, note } => {
            assert_eq!(name, "m.old");
            assert_eq!(note, "generally, this feature implementation requires --simple mode as of now.");
        }
        _ => panic!("unexpected change"),
    }
    assert!(matches!(metrics[1], SchemaItemChange::Added { name } if name == "m.new"));
}

#[test]
fn update_in_simple_mode_lists_field_and_attribute_changes() {
    let (prior, latest) = update_schemas(
        metric("m.new", "new_name", Some(InstrumentSpec::Histogram), Some("s"), vec![]),
        vec![local("old.kept", "kept", Some("t1")), local("old.dropped", "dropped", Some("t")), Attribute::boolean("registry.x", "", "")],
        vec![local("new.kept", "kept", Some("t2")), local("new.fresh", "fresh", None)],
    );
    let changes = latest.diff(&prior, true);
    let metrics = all_changes(&changes, SchemaItemType::Metrics);
    assert_eq!(metrics.len(), 2);
    match metrics[0] {
        SchemaItemChange::Updated(u) => {
            assert_eq!(u.id, "m.old");
            assert_eq!(u.replaced_by_id, "m.new");
            assert_eq!(u.forward_promql, "fwd");
            assert_eq!(u.backward_promql, "bwd");
            assert_eq!(u.note, "see new");
            let fields: Vec<(&str, &str, &str)> = u
                .fields
                .iter()
                .map(|(k, r)| (k.as_str(), r.old_name.as_str(), r.new_name.as_str()))
                .collect();
            assert_eq!(fields, vec![("metric_name", "old_name", "new_name"), ("instrument", "histogram", "counter")]);
            assert_eq!(u.attributes.len(), 3);
            assert_eq!(u.attributes[0].0, "kept");
            assert!(matches!(&u.attributes[0].1, SchemaItemChange::Renamed(r) if r.old_name == "t1" && r.new_name == "t2"));
            assert_eq!(u.attributes[1].0, "fresh");
            assert!(matches!(&u.attributes[1].1, SchemaItemChange::Added { name } if name == "fresh"));
            assert_eq!(u.attributes[2].0, "old.dropped");
            assert!(matches!(&u.attributes[2].1, SchemaItemChange::Removed { name } if name == "old.dropped"));
        }
        _ => panic!("unexpected change"),
    }
}

fn failure_note(changes: &SchemaChanges) -> String {
    match all_changes(changes, SchemaItemType::Metrics)[0] {
        SchemaItemChange::Uncategorized { name, note } => {
            assert_eq!(name, "m.old");
            note.clone()
        }
        _ => panic!("unexpected change"),
    }
}

#[test]
fn update_with_unknown_replacement_fails() {
    let (prior, mut latest) = update_schemas(metric("m.new", "n", None, None, vec![]), vec![], vec![]);
    latest.registry.groups.pop();
    let changes = latest.diff(&prior, true);
    assert_eq!(
        failure_note(&changes),
        "deprecated with the reason update have replaced_by_id m.new that can't be found. Can't compile this change; note see new"
    );
}

#[test]
fn update_without_instruments_fails() {
    let (prior, latest) = update_schemas(metric("m.new", "old_name", None, Some("s"), vec![]), vec![], vec![]);
    assert_eq!(
        failure_note(&latest.diff(&prior, true)),
        "deprecated with the reason update replaced_by_id m.new replacement does not have instrument specified; for metrics it's required. Can't compile this change; note see new"
    );
    let (mut prior, mut latest) = update_schemas(metric("m.new", "old_name", Some(InstrumentSpec::Gauge), Some("s"), vec![]), vec![], vec![]);
    latest.registry.groups[0].instrument = None;
    prior.registry.groups[0].instrument = None;
    assert_eq!(
        failure_note(&latest.diff(&prior, true)),
        "deprecated with the reason update does not have instrument specified; for metrics it's required. Can't compile this change; note see new"
    );
}

#[test]
fn update_with_untagged_shared_attribute_fails() {
    let (prior, latest) = update_schemas(
        metric("m.new", "old_name", Some(InstrumentSpec::Counter), Some("s"), vec![]),
        vec![local("old.a", "a", None)],
        vec![local("new.a", "a", Some("t"))],
    );
    let note = failure_note(&latest.diff(&prior, true));
    assert_eq!(
        note,
        format!("tag must be specified {:?} Can't compile this change; note see new", local("old.a", "a", None))
    );
    let (prior, latest) = update_schemas(
        metric("m.new", "old_name", Some(InstrumentSpec::Counter), Some("s"), vec![]),
        vec![local("old.a", "a", Some("t"))],
        vec![local("new.a", "a", None)],
    );
    assert_eq!(
        failure_note(&latest.diff(&prior, true)),
        format!("tag must be specified {:?} Can't compile this change; note see new", local("new.a", "a", None))
    );
}

#[test]
fn unit_change_is_a_field_change() {
    let (prior, latest) = update_schemas(metric("m.new", "old_name", Some(InstrumentSpec::Counter), None, vec![]), vec![], vec![]);
    let changes = latest.diff(&prior, true);
    match all_changes(&changes, SchemaItemType::Metrics)[0] {
        SchemaItemChange::Updated(u) => {
            assert_eq!(u.fields.len(), 1);
            assert_eq!(u.fields[0].0, "unit");
            assert_eq!(u.fields[0].1.old_name, "s");
            assert_eq!(u.fields[0].1.new_name, "");
            assert!(u.attributes.is_empty());
        }
        _ => panic!("unexpected change"),
    }
}

#[test]
fn added_in_one_direction_is_removed_in_the_other() {
    let mut a = ResolvedTelemetrySchema::new("1.0", "", "", "");
    a.add_attribute_group("registry.g", [Attribute::boolean("x", "", ""), Attribute::boolean("y", "", "")]);
    a.registry.groups.push(metric("m1", "m1", None, None, vec![]));
    let mut b = ResolvedTelemetrySchema::new("1.0", "", "", "");
    b.add_attribute_group("registry.g", [Attribute::boolean("y", "", ""), Attribute::boolean("z", "", "")]);
    b.registry.groups.push(metric("m2", "m2", None, None, vec![]));
    let ab = a.diff(&b, false);
    let ba = b.diff(&a, false);
    for t in [SchemaItemType::RegistryAttributes, SchemaItemType::Metrics] {
        let added: Vec<String> = all_changes(&ab, t)
            .iter()
            .filter_map(|c| match c { SchemaItemChange::Added { name } => Some(name.clone()), _ => None })
            .collect();
        let removed: Vec<String> = all_changes(&ba, t)
            .iter()
            .filter_map(|c| match c { SchemaItemChange::Removed { name } => Some(name.clone()), _ => None })
            .collect();
        assert_eq!(added, removed);
        assert_eq!(added.len(), 1);
    }
}

#[test]
fn diff_with_itself_is_empty_in_both_modes() {
    let (_, latest) = update_schemas(
        metric("m.new", "new_name", Some(InstrumentSpec::Histogram), Some("s"), vec![]),
        vec![local("old.kept", "kept", Some("t1"))],
        vec![local("new.kept", "kept", Some("t2"))],
    );
    assert!(latest.can_diff(&latest));
    assert!(latest.diff(&latest, false).is_empty());
    assert!(latest.diff(&latest, true).is_empty());
}

#[test]
fn can_diff_rejects_unresolved_and_updated_registry_attributes() {
    let mut broken = ResolvedTelemetrySchema::new("1.0", "", "", "");
    broken.registry.groups.push(group("registry.g", GroupType::AttributeGroup, vec![AttributeRef(9)]));
    assert!(!broken.attributes_are_resolved(true));
    assert!(!broken.can_diff(&broken));
    let mut plain = ResolvedTelemetrySchema::new("1.0", "", "", "");
    plain.registry.groups.push(group("g", GroupType::AttributeGroup, vec![AttributeRef(9)]));
    assert!(plain.attributes_are_resolved(true));
    assert!(!plain.attributes_are_resolved(false));

    let mut prior = ResolvedTelemetrySchema::new("1.0", "", "", "");
    prior.add_attribute_group("registry.g", [Attribute::boolean("a", "", "")]);
    let mut latest = ResolvedTelemetrySchema::new("1.0", "", "", "");
    latest.add_attribute_group("registry.g", [Attribute::boolean("a", "", "").deprecated(updated("b", ""))]);
    assert!(!latest.can_diff(&prior));
    assert!(prior.can_diff(&latest));
}
