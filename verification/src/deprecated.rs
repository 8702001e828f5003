//! How an item of a semantic convention registry is deprecated.
use vstd::prelude::*;
use vstd::std_specs::cmp::PartialEqSpecImpl;

verus! {

/// The replacement of a signal by an updated one.
#[derive(Debug, Clone)]
pub struct DeprecatedUpdated {
    /// Identifier of the signal that replaces the deprecated one.
    pub replaced_by_id: String,
    /// Free text about the deprecation.
    pub note: String,
    /// Query translating the deprecated signal into the replacement.
    pub forward_promql: String,
    /// Query translating the replacement back into the deprecated signal.
    pub backward_promql: String,
}

/// The deprecation status of an attribute or a signal.
#[derive(Debug, Clone)]
pub enum Deprecated {
    /// The item was renamed.
    Renamed {
        /// The new name of the item.
        renamed_to: String,
        /// Free text about the deprecation.
        note: String,
    },
    /// The item is obsolete and has no replacement.
    Obsoleted {
        /// Free text about the deprecation.
        note: String,
    },
    /// Any other deprecation.
    Uncategorized {
        /// Free text about the deprecation.
        note: String,
    },
    /// The item was replaced by an updated one.
    Updated(DeprecatedUpdated),
}

/// A replacement by an updated signal, as text.
pub ghost struct DeprecatedUpdatedView {
    pub replaced_by_id: Seq<char>,
    pub note: Seq<char>,
    pub forward_promql: Seq<char>,
    pub backward_promql: Seq<char>,
}

/// A deprecation, as text.
pub ghost enum DeprecatedView {
    Renamed { renamed_to: Seq<char>, note: Seq<char> },
    Obsoleted { note: Seq<char> },
    Uncategorized { note: Seq<char> },
    Updated(DeprecatedUpdatedView),
}

impl View for DeprecatedUpdated {
    type V = DeprecatedUpdatedView;

    open spec fn view(&self) -> DeprecatedUpdatedView {
        DeprecatedUpdatedView {
            replaced_by_id: self.replaced_by_id@,
            note: self.note@,
            forward_promql: self.forward_promql@,
            backward_promql: self.backward_promql@,
        }
    }
}

impl View for Deprecated {
    type V = DeprecatedView;

    open spec fn view(&self) -> DeprecatedView {
        match self {
            Deprecated::Renamed { renamed_to, note } => DeprecatedView::Renamed {
                renamed_to: renamed_to@,
                note: note@,
            },
            Deprecated::Obsoleted { note } => DeprecatedView::Obsoleted { note: note@ },
            Deprecated::Uncategorized { note } => DeprecatedView::Uncategorized { note: note@ },
            Deprecated::Updated(u) => DeprecatedView::Updated(u@),
        }
    }
}

impl DeprecatedUpdated {
    /// Field by field equality of the texts.
    pub open spec fn same_as(self, other: DeprecatedUpdated) -> bool {
        &&& self.replaced_by_id@ == other.replaced_by_id@
        &&& self.note@ == other.note@
        &&& self.forward_promql@ == other.forward_promql@
        &&& self.backward_promql@ == other.backward_promql@
    }
}

impl Deprecated {
    /// Same variant, with the same texts in each field.
    pub open spec fn same_as(self, other: Deprecated) -> bool {
        match (self, other) {
            (
                Deprecated::Renamed { renamed_to: r1, note: n1 },
                Deprecated::Renamed { renamed_to: r2, note: n2 },
            ) => r1@ == r2@ && n1@ == n2@,
            (Deprecated::Obsoleted { note: n1 }, Deprecated::Obsoleted { note: n2 }) => n1@ == n2@,
            (Deprecated::Uncategorized { note: n1 }, Deprecated::Uncategorized { note: n2 }) => n1@
                == n2@,
            (Deprecated::Updated(u1), Deprecated::Updated(u2)) => u1.same_as(u2),
            _ => false,
        }
    }
}

impl PartialEq for DeprecatedUpdated {
    fn eq(&self, other: &DeprecatedUpdated) -> (r: bool) {
        self.replaced_by_id == other.replaced_by_id && self.note == other.note
            && self.forward_promql == other.forward_promql && self.backward_promql
            == other.backward_promql
    }
}

impl PartialEqSpecImpl for DeprecatedUpdated {
    open spec fn obeys_eq_spec() -> bool {
        true
    }

    open spec fn eq_spec(&self, other: &DeprecatedUpdated) -> bool {
        self.same_as(*other)
    }
}

impl PartialEq for Deprecated {
    fn eq(&self, other: &Deprecated) -> (r: bool) {
        match (self, other) {
            (
                Deprecated::Renamed { renamed_to: r1, note: n1 },
                Deprecated::Renamed { renamed_to: r2, note: n2 },
            ) => *r1 == *r2 && *n1 == *n2,
            (Deprecated::Obsoleted { note: n1 }, Deprecated::Obsoleted { note: n2 }) => *n1 == *n2,
            (Deprecated::Uncategorized { note: n1 }, Deprecated::Uncategorized { note: n2 }) => *n1
                == *n2,
            (Deprecated::Updated(u1), Deprecated::Updated(u2)) => u1.eq(u2),
            _ => false,
        }
    }
}

impl PartialEqSpecImpl for Deprecated {
    open spec fn obeys_eq_spec() -> bool {
        true
    }

    open spec fn eq_spec(&self, other: &Deprecated) -> bool {
        self.same_as(*other)
    }
}

} // verus!
