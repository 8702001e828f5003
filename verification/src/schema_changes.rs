//! The changes between two versions of a schema.
use vstd::prelude::*;
use crate::keyed::derefs;

verus! {

/// The kind of schema item that a change concerns.
#[derive(Debug, Clone, Copy, PartialEq, Eq, Hash, Structural)]
pub enum SchemaItemType {
    /// Attributes of the registry.
    RegistryAttributes,
    /// Events.
    Events,
    /// Metrics.
    Metrics,
    /// Spans.
    Spans,
    /// Resources.
    Resources,
}

/// A renaming.
#[derive(Debug, Clone)]
pub struct SchemaItemChangeRenamed {
    /// The name before.
    pub old_name: String,
    /// The name after.
    pub new_name: String,
    /// Free text about the change.
    pub note: String,
}

/// The replacement of a signal by an updated one.
#[derive(Debug)]
pub struct SchemaItemChangeUpdated {
    /// The identifier of the replaced signal.
    pub id: String,
    /// The identifier of the replacement.
    pub replaced_by_id: String,
    /// Query translating the replaced signal into the replacement.
    pub forward_promql: String,
    /// Query translating the replacement back into the replaced signal.
    pub backward_promql: String,
    /// The fields that differ, by field name.
    pub fields: Vec<(String, SchemaItemChangeRenamed)>,
    /// The changes of the attributes, by attribute.
    pub attributes: Vec<(String, SchemaItemChange)>,
    /// Free text about the change.
    pub note: String,
}

/// A change of a schema item.
#[derive(Debug)]
pub enum SchemaItemChange {
    /// The item is new.
    Added {
        /// Its name.
        name: String,
    },
    /// The item was renamed.
    Renamed(SchemaItemChangeRenamed),
    /// The item became obsolete.
    Obsoleted {
        /// Its name.
        name: String,
        /// Free text about the change.
        note: String,
    },
    /// The item was deprecated in some other way.
    Uncategorized {
        /// Its name.
        name: String,
        /// Free text about the change.
        note: String,
    },
    /// The item no longer exists.
    Removed {
        /// Its name.
        name: String,
    },
    /// The item was replaced by an updated one.
    Updated(SchemaItemChangeUpdated),
}

/// The manifest of a registry version, as far as changes record it.
#[derive(Debug, Clone)]
pub struct RegistryManifest {
    /// The version of the semantic conventions.
    pub semconv_version: String,
}

/// The kind of a change, without its contents.
#[derive(Debug, Clone, Copy, PartialEq, Eq, Structural)]
pub enum ChangeKind {
    /// See `SchemaItemChange::Added`.
    Added,
    /// See `SchemaItemChange::Renamed`.
    Renamed,
    /// See `SchemaItemChange::Obsoleted`.
    Obsoleted,
    /// See `SchemaItemChange::Uncategorized`.
    Uncategorized,
    /// See `SchemaItemChange::Removed`.
    Removed,
    /// See `SchemaItemChange::Updated`.
    Updated,
}

/// A renaming, as text.
pub ghost struct RenamedModel {
    pub old_name: Seq<char>,
    pub new_name: Seq<char>,
    pub note: Seq<char>,
}

/// A change nested in an update, as text. The contents of an update nested in
/// an update are not kept.
pub ghost enum NestedChangeModel {
    Added { name: Seq<char> },
    Renamed(RenamedModel),
    Obsoleted { name: Seq<char>, note: Seq<char> },
    Uncategorized { name: Seq<char>, note: Seq<char> },
    Removed { name: Seq<char> },
    Updated,
}

/// An update, as text.
pub ghost struct UpdatedModel {
    pub id: Seq<char>,
    pub replaced_by_id: Seq<char>,
    pub forward_promql: Seq<char>,
    pub backward_promql: Seq<char>,
    pub fields: Seq<(Seq<char>, RenamedModel)>,
    pub attributes: Seq<(Seq<char>, NestedChangeModel)>,
    pub note: Seq<char>,
}

/// A change, as text.
pub ghost enum ChangeModel {
    Added { name: Seq<char> },
    Renamed(RenamedModel),
    Obsoleted { name: Seq<char>, note: Seq<char> },
    Uncategorized { name: Seq<char>, note: Seq<char> },
    Removed { name: Seq<char> },
    Updated(UpdatedModel),
}

impl SchemaItemChangeRenamed {
    /// The renaming as text.
    pub open spec fn model(self) -> RenamedModel {
        RenamedModel { old_name: self.old_name@, new_name: self.new_name@, note: self.note@ }
    }
}

impl SchemaItemChange {
    /// The change as text, when it stands inside an update.
    pub open spec fn nested_model(self) -> NestedChangeModel {
        match self {
            SchemaItemChange::Added { name } => NestedChangeModel::Added { name: name@ },
            SchemaItemChange::Renamed(r) => NestedChangeModel::Renamed(r.model()),
            SchemaItemChange::Obsoleted { name, note } => NestedChangeModel::Obsoleted {
                name: name@,
                note: note@,
            },
            SchemaItemChange::Uncategorized { name, note } => NestedChangeModel::Uncategorized {
                name: name@,
                note: note@,
            },
            SchemaItemChange::Removed { name } => NestedChangeModel::Removed { name: name@ },
            SchemaItemChange::Updated(_) => NestedChangeModel::Updated,
        }
    }

    /// The change as text.
    pub open spec fn model(self) -> ChangeModel {
        match self {
            SchemaItemChange::Added { name } => ChangeModel::Added { name: name@ },
            SchemaItemChange::Renamed(r) => ChangeModel::Renamed(r.model()),
            SchemaItemChange::Obsoleted { name, note } => ChangeModel::Obsoleted {
                name: name@,
                note: note@,
            },
            SchemaItemChange::Uncategorized { name, note } => ChangeModel::Uncategorized {
                name: name@,
                note: note@,
            },
            SchemaItemChange::Removed { name } => ChangeModel::Removed { name: name@ },
            SchemaItemChange::Updated(u) => ChangeModel::Updated(u.model()),
        }
    }

    /// The kind of the change.
    pub open spec fn kind(self) -> ChangeKind {
        match self {
            SchemaItemChange::Added { .. } => ChangeKind::Added,
            SchemaItemChange::Renamed(_) => ChangeKind::Renamed,
            SchemaItemChange::Obsoleted { .. } => ChangeKind::Obsoleted,
            SchemaItemChange::Uncategorized { .. } => ChangeKind::Uncategorized,
            SchemaItemChange::Removed { .. } => ChangeKind::Removed,
            SchemaItemChange::Updated(_) => ChangeKind::Updated,
        }
    }

    /// The kind of the change.
    pub fn change_kind(&self) -> (k: ChangeKind)
        ensures
            k == self.kind(),
    {
        match self {
            SchemaItemChange::Added { .. } => ChangeKind::Added,
            SchemaItemChange::Renamed(_) => ChangeKind::Renamed,
            SchemaItemChange::Obsoleted { .. } => ChangeKind::Obsoleted,
            SchemaItemChange::Uncategorized { .. } => ChangeKind::Uncategorized,
            SchemaItemChange::Removed { .. } => ChangeKind::Removed,
            SchemaItemChange::Updated(_) => ChangeKind::Updated,
        }
    }
}

impl SchemaItemChangeUpdated {
    /// The update as text.
    pub open spec fn model(self) -> UpdatedModel {
        UpdatedModel {
            id: self.id@,
            replaced_by_id: self.replaced_by_id@,
            forward_promql: self.forward_promql@,
            backward_promql: self.backward_promql@,
            fields: fields_model(self.fields@),
            attributes: nested_changes_model(self.attributes@),
            note: self.note@,
        }
    }
}

/// Changed fields as text.
pub open spec fn fields_model(v: Seq<(String, SchemaItemChangeRenamed)>) -> Seq<(Seq<char>, RenamedModel)> {
    v.map_values(|p: (String, SchemaItemChangeRenamed)| (p.0@, p.1.model()))
}

/// A change nested in an update, with its key, as text.
pub open spec fn nested_entry(p: (String, SchemaItemChange)) -> (Seq<char>, NestedChangeModel) {
    (p.0@, p.1.nested_model())
}

/// Changes nested in an update, with their keys, as text.
pub open spec fn nested_changes_model(v: Seq<(String, SchemaItemChange)>) -> Seq<(Seq<char>, NestedChangeModel)> {
    v.map_values(|p: (String, SchemaItemChange)| nested_entry(p))
}

/// Whether a change is of item type `t`, and of kind `k` when one is given.
pub open spec fn selects(
    e: (SchemaItemType, SchemaItemChange),
    t: SchemaItemType,
    k: Option<ChangeKind>,
) -> bool {
    e.0 == t && match k {
        Some(k) => e.1.kind() == k,
        None => true,
    }
}

/// The number of changes of item type `t`, and of kind `k` when one is given.
pub open spec fn count_selected(
    s: Seq<(SchemaItemType, SchemaItemChange)>,
    t: SchemaItemType,
    k: Option<ChangeKind>,
) -> nat
    decreases s.len(),
{
    if s.len() == 0 {
        0
    } else {
        count_selected(s.drop_last(), t, k) + if selects(s.last(), t, k) {
            1nat
        } else {
            0nat
        }
    }
}

/// The changes of item type `t`, in order.
pub open spec fn changes_of_type(s: Seq<(SchemaItemType, SchemaItemChange)>, t: SchemaItemType) -> Seq<
    SchemaItemChange,
>
    decreases s.len(),
{
    if s.len() == 0 {
        seq![]
    } else if s.last().0 == t {
        changes_of_type(s.drop_last(), t).push(s.last().1)
    } else {
        changes_of_type(s.drop_last(), t)
    }
}

proof fn lemma_count_selected_bound(
    s: Seq<(SchemaItemType, SchemaItemChange)>,
    t: SchemaItemType,
    k: Option<ChangeKind>,
)
    ensures
        count_selected(s, t, k) <= s.len(),
    decreases s.len(),
{
    if s.len() > 0 {
        lemma_count_selected_bound(s.drop_last(), t, k);
    }
}

/// The changes of a schema, each with the type of item that it concerns, in
/// the order in which they were found; and the manifests of the two versions.
#[derive(Debug)]
pub struct SchemaChanges {
    changes: Vec<(SchemaItemType, SchemaItemChange)>,
    head_manifest: Option<RegistryManifest>,
    baseline_manifest: Option<RegistryManifest>,
}

impl SchemaChanges {
    /// The changes, in order.
    pub closed spec fn entries(self) -> Seq<(SchemaItemType, SchemaItemChange)> {
        self.changes@
    }

    /// The manifest of the most recent version.
    pub closed spec fn head(self) -> Option<RegistryManifest> {
        self.head_manifest
    }

    /// The manifest of the baseline version.
    pub closed spec fn baseline(self) -> Option<RegistryManifest> {
        self.baseline_manifest
    }

    /// No changes and no manifests.
    pub fn new() -> (c: SchemaChanges)
        ensures
            c.entries() == Seq::<(SchemaItemType, SchemaItemChange)>::empty(),
            c.head() is None,
            c.baseline() is None,
    {
        SchemaChanges { changes: Vec::new(), head_manifest: None, baseline_manifest: None }
    }

    /// Whether there are no changes.
    pub fn is_empty(&self) -> (r: bool)
        ensures
            r == (self.entries().len() == 0),
    {
        self.changes.len() == 0
    }

    /// The number of changes.
    pub fn count_changes(&self) -> (n: usize)
        ensures
            n == self.entries().len(),
    {
        self.changes.len()
    }

    fn count(&self, t: SchemaItemType, k: Option<ChangeKind>) -> (n: usize)
        ensures
            n == count_selected(self.entries(), t, k),
    {
        let mut n: usize = 0;
        let mut i: usize = 0;
        while i < self.changes.len()
            invariant
                i <= self.changes@.len(),
                n == count_selected(self.changes@.take(i as int), t, k),
            decreases self.changes@.len() - i,
        {
            proof {
                assert(self.changes@.take(i + 1).drop_last() =~= self.changes@.take(i as int));
                lemma_count_selected_bound(self.changes@.take(i as int), t, k);
            }
            let e = &self.changes[i];
            let hit = e.0 == t && match k {
                Some(k) => e.1.change_kind() == k,
                None => true,
            };
            if hit {
                n = n + 1;
            }
            i = i + 1;
        }
        assert(self.changes@.take(i as int) =~= self.changes@);
        n
    }

    /// The number of changes of registry attributes.
    pub fn count_registry_attribute_changes(&self) -> (n: usize)
        ensures
            n == count_selected(self.entries(), SchemaItemType::RegistryAttributes, None),
    {
        self.count(SchemaItemType::RegistryAttributes, None)
    }

    /// The number of registry attributes that were added.
    pub fn count_added_registry_attributes(&self) -> (n: usize)
        ensures
            n == count_selected(
                self.entries(),
                SchemaItemType::RegistryAttributes,
                Some(ChangeKind::Added),
            ),
    {
        self.count(SchemaItemType::RegistryAttributes, Some(ChangeKind::Added))
    }

    /// The number of registry attributes that were renamed.
    pub fn count_renamed_registry_attributes(&self) -> (n: usize)
        ensures
            n == count_selected(
                self.entries(),
                SchemaItemType::RegistryAttributes,
                Some(ChangeKind::Renamed),
            ),
    {
        self.count(SchemaItemType::RegistryAttributes, Some(ChangeKind::Renamed))
    }

    /// The number of registry attributes that became obsolete.
    pub fn count_obsoleted_registry_attributes(&self) -> (n: usize)
        ensures
            n == count_selected(
                self.entries(),
                SchemaItemType::RegistryAttributes,
                Some(ChangeKind::Obsoleted),
            ),
    {
        self.count(SchemaItemType::RegistryAttributes, Some(ChangeKind::Obsoleted))
    }

    /// The number of registry attributes that were deprecated in another way.
    pub fn count_uncategorized_registry_attributes(&self) -> (n: usize)
        ensures
            n == count_selected(
                self.entries(),
                SchemaItemType::RegistryAttributes,
                Some(ChangeKind::Uncategorized),
            ),
    {
        self.count(SchemaItemType::RegistryAttributes, Some(ChangeKind::Uncategorized))
    }

    /// The number of registry attributes that were removed.
    pub fn count_removed_registry_attributes(&self) -> (n: usize)
        ensures
            n == count_selected(
                self.entries(),
                SchemaItemType::RegistryAttributes,
                Some(ChangeKind::Removed),
            ),
    {
        self.count(SchemaItemType::RegistryAttributes, Some(ChangeKind::Removed))
    }

    /// Records a change of an item of type `item_type`.
    pub fn add_change(&mut self, item_type: SchemaItemType, change: SchemaItemChange)
        ensures
            final(self).entries() == old(self).entries().push((item_type, change)),
            final(self).head() == old(self).head(),
            final(self).baseline() == old(self).baseline(),
    {
        self.changes.push((item_type, change));
    }

    /// The changes of items of type `item_type`, in order.
    pub fn changes_by_type(&self, item_type: SchemaItemType) -> (r: Option<Vec<&SchemaItemChange>>)
        ensures
            r matches Some(v) && derefs(v@) == changes_of_type(self.entries(), item_type),
    {
        let mut v: Vec<&SchemaItemChange> = Vec::new();
        let mut i: usize = 0;
        while i < self.changes.len()
            invariant
                i <= self.changes@.len(),
                derefs(v@) == changes_of_type(self.changes@.take(i as int), item_type),
            decreases self.changes@.len() - i,
        {
            assert(self.changes@.take(i + 1).drop_last() =~= self.changes@.take(i as int));
            let e = &self.changes[i];
            if e.0 == item_type {
                let ghost before = v@;
                v.push(&e.1);
                assert(derefs(v@) =~= derefs(before).push(e.1));
            }
            i = i + 1;
        }
        assert(self.changes@.take(i as int) =~= self.changes@);
        Some(v)
    }

    /// Records the manifest of the most recent version.
    pub fn set_head_manifest(&mut self, manifest: RegistryManifest)
        ensures
            final(self).entries() == old(self).entries(),
            final(self).head() == Some(manifest),
            final(self).baseline() == old(self).baseline(),
    {
        self.head_manifest = Some(manifest);
    }

    /// Records the manifest of the baseline version.
    pub fn set_baseline_manifest(&mut self, manifest: RegistryManifest)
        ensures
            final(self).entries() == old(self).entries(),
            final(self).head() == old(self).head(),
            final(self).baseline() == Some(manifest),
    {
        self.baseline_manifest = Some(manifest);
    }

    /// The manifest of the most recent version.
    pub fn head_manifest(&self) -> (m: Option<&RegistryManifest>)
        ensures
            match m {
                Some(x) => self.head() == Some(*x),
                None => self.head() is None,
            },
    {
        self.head_manifest.as_ref()
    }

    /// The manifest of the baseline version.
    pub fn baseline_manifest(&self) -> (m: Option<&RegistryManifest>)
        ensures
            match m {
                Some(x) => self.baseline() == Some(*x),
                None => self.baseline() is None,
            },
    {
        self.baseline_manifest.as_ref()
    }
}

} // verus!
