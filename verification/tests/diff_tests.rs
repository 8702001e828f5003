use weaver_resolved_schema::attribute::Attribute;
use weaver_resolved_schema::deprecated::Deprecated;
use weaver_resolved_schema::schema_changes::{SchemaItemChange, SchemaItemType};
use weaver_resolved_schema::ResolvedTelemetrySchema;

#[test]
fn no_diff() {
    let mut prior_schema = ResolvedTelemetrySchema::new("1.0", "", "", "");
    prior_schema.add_attribute_group(
        "group1",
        [
            Attribute::boolean("attr1", "brief1", "note1"),
            Attribute::string("attr2", "brief2", "note2"),
            Attribute::integer("attr3", "brief3", "note3"),
            Attribute::double("attr4", "brief4", "note4"),
        ],
    );

    let changes = prior_schema.diff(&prior_schema, false);
    assert!(changes.is_empty());
}

#[test]
fn detect_2_added_registry_attributes() {
    let mut prior_schema = ResolvedTelemetrySchema::new("1.0", "", "", "");
    prior_schema.add_attribute_group(
        "registry.group1",
        [
            Attribute::boolean("attr1", "brief1", "note1"),
            Attribute::string("attr2", "brief2", "note2"),
        ],
    );

    let mut latest_schema = ResolvedTelemetrySchema::new("1.0", "", "", "");
    latest_schema.add_attribute_group(
        "registry.group1",
        [
            Attribute::boolean("attr1", "brief1", "note1"),
            Attribute::string("attr2", "brief2", "note2"),
            Attribute::integer("attr3", "brief3", "note3"),
            Attribute::double("attr4", "brief4", "note4"),
        ],
    );

    let changes = latest_schema.diff(&prior_schema, false);
    assert_eq!(changes.count_changes(), 2);
    assert_eq!(changes.count_registry_attribute_changes(), 2);
    assert_eq!(changes.count_added_registry_attributes(), 2);
}

#[test]
fn detect_2_deprecated_registry_attributes() {
    let mut prior_schema = ResolvedTelemetrySchema::new("1.0", "", "", "");
    prior_schema.add_attribute_group(
        "registry.group1",
        [
            Attribute::boolean("attr1", "brief1", "note1"),
            Attribute::string("attr2", "brief2", "note2"),
            Attribute::integer("attr3", "brief3", "note3"),
            Attribute::double("attr4", "brief4", "note4"),
            Attribute::double("attr5", "brief5", "note5").deprecated(Deprecated::Obsoleted {
                note: "".to_owned(),
            }),
        ],
    );

    let mut latest_schema = ResolvedTelemetrySchema::new("1.0", "", "", "");
    latest_schema.add_attribute_group(
        "registry.group1",
        [
            Attribute::boolean("attr1", "brief1", "note1"),
            Attribute::string("attr2", "brief2", "note2")
                .deprecated(Deprecated::Obsoleted {
                    note: "This attribute is deprecated (deprecated).".to_owned(),
                })
                .brief("This attribute is deprecated (brief)."),
            Attribute::integer("attr3", "brief3", "note3")
                .deprecated(Deprecated::Obsoleted {
                    note: "".to_owned(),
                })
                .brief("This attribute is deprecated."),
            Attribute::double("attr4", "brief4", "note4"),
            Attribute::double("attr5", "brief5", "note5").deprecated(Deprecated::Obsoleted {
                note: "".to_owned(),
            }),
        ],
    );

    let changes = latest_schema.diff(&prior_schema, false);
    assert_eq!(changes.count_changes(), 2);
    assert_eq!(changes.count_registry_attribute_changes(), 2);
    assert_eq!(changes.count_obsoleted_registry_attributes(), 2);
    for attr_change in changes
        .changes_by_type(SchemaItemType::RegistryAttributes)
        .unwrap()
    {
        match attr_change {
            SchemaItemChange::Obsoleted { name, note } => {
                if name == "attr2" {
                    assert_eq!(note, "This attribute is deprecated (deprecated).");
                } else if name == "attr3" {
                    assert_eq!(note, "");
                } else {
                    panic!("Unexpected attribute name.");
                }
            }
            _ => panic!("Unexpected change type."),
        }
    }
}

#[test]
fn detect_2_renamed_registry_attributes() {
    let mut prior_schema = ResolvedTelemetrySchema::new("1.0", "", "", "");
    prior_schema.add_attribute_group(
        "registry.group1",
        [
            Attribute::boolean("attr1", "brief1", "note1"),
            Attribute::string("attr2", "brief2", "note2"),
            Attribute::integer("attr3", "brief3", "note3"),
            Attribute::double("attr4", "brief4", "note4"),
        ],
    );

    // 2 new attributes are added: attr2_bis and attr3_bis
    // attr2 is renamed attr2_bis
    // attr3 is renamed attr3_bis
    let mut latest_schema = ResolvedTelemetrySchema::new("1.0", "", "", "");
    latest_schema.add_attribute_group(
        "registry.group1",
        [
            Attribute::boolean("attr1", "brief1", "note1"),
            Attribute::string("attr2", "brief2", "note2").deprecated(Deprecated::Renamed {
                renamed_to: "attr2_bis".to_owned(),
                note: "".to_owned(),
            }),
            Attribute::integer("attr3", "brief3", "note3").deprecated(Deprecated::Renamed {
                renamed_to: "attr3_bis".to_owned(),
                note: "".to_owned(),
            }),
            Attribute::double("attr4", "brief4", "note4"),
        ],
    );
    latest_schema.add_attribute_group(
        "registry.group2",
        [
            Attribute::boolean("attr2_bis", "brief1", "note1"),
            Attribute::boolean("attr3_bis", "brief1", "note1"),
        ],
    );

    let changes = latest_schema.diff(&prior_schema, false);
    println!("{:?}", changes);
    assert_eq!(changes.count_changes(), 4);
    assert_eq!(changes.count_registry_attribute_changes(), 4);
    assert_eq!(changes.count_renamed_registry_attributes(), 2);
    assert_eq!(changes.count_added_registry_attributes(), 2);
}

#[test]
fn detect_2_attributes_renamed_to_the_same_existing_attribute() {
    let mut prior_schema = ResolvedTelemetrySchema::new("1.0", "", "", "");
    prior_schema.add_attribute_group(
        "registry.group1",
        [
            Attribute::boolean("attr1", "brief1", "note1"),
            Attribute::string("attr2", "brief2", "note2"),
            Attribute::string("attr3", "brief3", "note3"),
            Attribute::double("attr4", "brief4", "note4"),
        ],
    );
    prior_schema.add_attribute_group("group2", [Attribute::string("attr5", "brief", "note")]);

    let mut latest_schema = ResolvedTelemetrySchema::new("1.0", "", "", "");
    latest_schema.add_attribute_group(
        "registry.group1",
        [
            Attribute::boolean("attr1", "brief1", "note1"),
            Attribute::string("attr2", "brief2", "note2").deprecated(Deprecated::Renamed {
                renamed_to: "attr5".to_owned(),
                note: "".to_owned(),
            }),
            Attribute::integer("attr3", "brief3", "note3").deprecated(Deprecated::Renamed {
                renamed_to: "attr5".to_owned(),
                note: "".to_owned(),
            }),
            Attribute::double("attr4", "brief4", "note4"),
        ],
    );
    latest_schema.add_attribute_group("group2", [Attribute::string("attr5", "brief", "note")]);

    let changes = latest_schema.diff(&prior_schema, false);
    assert_eq!(changes.count_changes(), 2);
    assert_eq!(changes.count_registry_attribute_changes(), 2);
    assert_eq!(changes.count_renamed_registry_attributes(), 2);
    println!("{:?}", changes);
}

#[test]
fn detect_2_attributes_renamed_to_the_same_new_attribute() {
    let mut prior_schema = ResolvedTelemetrySchema::new("1.0", "", "", "");
    prior_schema.add_attribute_group(
        "registry.group1",
        [
            Attribute::boolean("attr1", "brief1", "note1"),
            Attribute::string("attr2", "brief2", "note2"),
            Attribute::string("attr3", "brief3", "note3"),
            Attribute::double("attr4", "brief4", "note4"),
        ],
    );

    let mut latest_schema = ResolvedTelemetrySchema::new("1.0", "", "", "");
    latest_schema.add_attribute_group(
        "registry.group1",
        [
            Attribute::boolean("attr1", "brief1", "note1"),
            Attribute::string("attr2", "brief2", "note2").deprecated(Deprecated::Renamed {
                renamed_to: "attr5".to_owned(),
                note: "".to_owned(),
            }),
            Attribute::integer("attr3", "brief3", "note3").deprecated(Deprecated::Renamed {
                renamed_to: "attr5".to_owned(),
                note: "".to_owned(),
            }),
            Attribute::double("attr4", "brief4", "note4"),
        ],
    );
    latest_schema.add_attribute_group(
        "registry.group2",
        [Attribute::string("attr5", "brief", "note")],
    );

    let changes = latest_schema.diff(&prior_schema, false);
    assert_eq!(changes.count_changes(), 3);
    assert_eq!(changes.count_registry_attribute_changes(), 3);
    assert_eq!(changes.count_renamed_registry_attributes(), 2);
    assert_eq!(changes.count_added_registry_attributes(), 1);
    println!("{:?}", changes);
}

/// In normal situation this should never happen based on the registry evolution process.
/// However, detecting this case is useful for identifying a violation of the process.
#[test]
fn detect_2_removed_attributes() {
    let mut prior_schema = ResolvedTelemetrySchema::new("1.0", "", "", "");
    prior_schema.add_attribute_group(
        "registry.group1",
        [
            Attribute::boolean("attr1", "brief1", "note1"),
            Attribute::string("attr2", "brief2", "note2"),
            Attribute::integer("attr3", "brief3", "note3"),
            Attribute::double("attr4", "brief4", "note4"),
        ],
    );

    let mut latest_schema = ResolvedTelemetrySchema::new("1.0", "", "", "");
    latest_schema.add_attribute_group(
        "registry.group1",
        [
            Attribute::boolean("attr1", "brief1", "note1"),
            Attribute::string("attr2", "brief2", "note2"),
        ],
    );

    let changes = latest_schema.diff(&prior_schema, false);
    assert_eq!(changes.count_changes(), 2);
    assert_eq!(changes.count_registry_attribute_changes(), 2);
    assert_eq!(changes.count_removed_registry_attributes(), 2);
}
