//! Attributes of a resolved telemetry schema.
use vstd::prelude::*;
use crate::deprecated::{Deprecated, DeprecatedView};
use crate::keyed::{derefs, insert_owned_by_key, keyed_collect, keyed_insert, lemma_map_keyed_insert, KeyView, Keyed};

verus! {

/// A reference to an attribute in the catalog: its index there.
#[derive(Debug, Clone, Copy, PartialEq, Eq, Hash, Structural)]
pub struct AttributeRef(pub u32);

/// The type of the values of an attribute.
#[derive(Debug, Clone, Copy, PartialEq, Eq, Hash, Structural)]
pub enum AttributeType {
    /// A boolean.
    Boolean,
    /// A signed integer.
    Int,
    /// A floating point number.
    Double,
    /// A string.
    String,
    /// Any primitive value.
    Any,
    /// An array of booleans.
    Booleans,
    /// An array of integers.
    Ints,
    /// An array of floating point numbers.
    Doubles,
    /// An array of strings.
    Strings,
}

/// A resolved attribute.
#[derive(Debug, Clone)]
pub struct Attribute {
    /// The fully qualified name of the attribute.
    pub name: String,
    /// The type of the values of the attribute.
    pub attr_type: AttributeType,
    /// A short description.
    pub brief: String,
    /// A longer description.
    pub note: String,
    /// A tag grouping related attributes.
    pub tag: Option<String>,
    /// The deprecation status, if the attribute is deprecated.
    pub deprecated: Option<Deprecated>,
    /// The identifier under which a group defines the attribute itself, for an
    /// attribute that is not taken from the registry.
    pub local_id: Option<String>,
}

/// An attribute, as text.
pub ghost struct AttributeView {
    pub name: Seq<char>,
    pub attr_type: AttributeType,
    pub brief: Seq<char>,
    pub note: Seq<char>,
    pub tag: Option<Seq<char>>,
    pub deprecated: Option<DeprecatedView>,
    pub local_id: Option<Seq<char>>,
}

impl View for Attribute {
    type V = AttributeView;

    open spec fn view(&self) -> AttributeView {
        AttributeView {
            name: self.name@,
            attr_type: self.attr_type,
            brief: self.brief@,
            note: self.note@,
            tag: match self.tag {
                Some(t) => Some(t@),
                None => None,
            },
            deprecated: match self.deprecated {
                Some(d) => Some(d@),
                None => None,
            },
            local_id: match self.local_id {
                Some(l) => Some(l@),
                None => None,
            },
        }
    }
}

impl KeyView for Attribute {
    open spec fn key_view(&self) -> Seq<char> {
        self.name@
    }
}

impl Keyed for Attribute {
    fn key(&self) -> (k: &String) {
        &self.name
    }
}

impl Attribute {
    /// An attribute of the given type, with no tag, not deprecated, and taken
    /// from the registry.
    pub open spec fn is_plain(self, name: Seq<char>, attr_type: AttributeType, brief: Seq<char>, note: Seq<char>) -> bool {
        &&& self.name@ == name
        &&& self.attr_type == attr_type
        &&& self.brief@ == brief
        &&& self.note@ == note
        &&& self.tag is None
        &&& self.deprecated is None
        &&& self.local_id is None
    }

    fn primitive(name: &str, attr_type: AttributeType, brief: &str, note: &str) -> (a: Attribute)
        ensures
            a.is_plain(name@, attr_type, brief@, note@),
    {
        Attribute {
            name: name.to_owned(),
            attr_type,
            brief: brief.to_owned(),
            note: note.to_owned(),
            tag: None,
            deprecated: None,
            local_id: None,
        }
    }

    /// A boolean attribute.
    pub fn boolean(name: &str, brief: &str, note: &str) -> (a: Attribute)
        ensures
            a.is_plain(name@, AttributeType::Boolean, brief@, note@),
    {
        Self::primitive(name, AttributeType::Boolean, brief, note)
    }

    /// A string attribute.
    pub fn string(name: &str, brief: &str, note: &str) -> (a: Attribute)
        ensures
            a.is_plain(name@, AttributeType::String, brief@, note@),
    {
        Self::primitive(name, AttributeType::String, brief, note)
    }

    /// An integer attribute.
    pub fn integer(name: &str, brief: &str, note: &str) -> (a: Attribute)
        ensures
            a.is_plain(name@, AttributeType::Int, brief@, note@),
    {
        Self::primitive(name, AttributeType::Int, brief, note)
    }

    /// A floating point attribute.
    pub fn double(name: &str, brief: &str, note: &str) -> (a: Attribute)
        ensures
            a.is_plain(name@, AttributeType::Double, brief@, note@),
    {
        Self::primitive(name, AttributeType::Double, brief, note)
    }

    /// The same attribute, deprecated as given.
    pub fn deprecated(self, deprecated: Deprecated) -> (a: Attribute)
        ensures
            a == (Attribute { deprecated: Some(deprecated), ..self }),
    {
        Attribute { deprecated: Some(deprecated), ..self }
    }

    /// The same attribute, with another brief.
    pub fn brief(self, brief: &str) -> (a: Attribute)
        ensures
            a.brief@ == brief@,
            a == (Attribute { brief: a.brief, ..self }),
    {
        Attribute { brief: brief.to_owned(), ..self }
    }
}

/// The attributes of `s` that carry a local identifier, each paired with it.
pub open spec fn local_entries(s: Seq<Attribute>) -> Seq<(Seq<char>, Attribute)>
    decreases s.len(),
{
    if s.len() == 0 {
        seq![]
    } else {
        let p = local_entries(s.drop_last());
        match s.last().local_id {
            Some(id) => p.push((id@, s.last())),
            None => p,
        }
    }
}

/// The locally defined attributes of `s` by local identifier; for an identifier
/// that occurs more than once, the last attribute is kept.
pub open spec fn local_only_model(s: Seq<Attribute>) -> Seq<(Seq<char>, Attribute)> {
    keyed_collect(local_entries(s))
}

/// The text of the keys of a local attribute map, with the attributes.
pub open spec fn local_map_view(m: Seq<(String, &Attribute)>) -> Seq<(Seq<char>, Attribute)> {
    m.map_values(|p: (String, &Attribute)| (p.0@, *p.1))
}

impl Attribute {
    /// The locally defined attributes among `attributes`, keyed by their local
    /// identifier.
    pub fn local_only_map<'a>(attributes: &Vec<&'a Attribute>) -> (r: Vec<(String, &'a Attribute)>)
        ensures
            local_map_view(r@) == local_only_model(derefs(attributes@)),
    {
        let ghost s = derefs(attributes@);
        let ghost f = |p: (String, &Attribute)| (p.0@, *p.1);
        let mut r: Vec<(String, &'a Attribute)> = Vec::new();
        let mut i: usize = 0;
        assert(local_map_view(r@) =~= local_only_model(s.take(0)));
        while i < attributes.len()
            invariant
                i <= attributes@.len(),
                s == derefs(attributes@),
                f == (|p: (String, &Attribute)| (p.0@, *p.1)),
                local_map_view(r@) == local_only_model(s.take(i as int)),
            decreases attributes@.len() - i,
        {
            let a: &'a Attribute = attributes[i];
            let ghost prev = r@;
            assert(s.take(i + 1).drop_last() =~= s.take(i as int));
            assert(s.take(i + 1).last() == *a);
            match &a.local_id {
                Some(id) => {
                    let entry = (id.clone(), a);
                    insert_owned_by_key(&mut r, entry);
                    proof {
                        let e = local_entries(s.take(i as int));
                        assert(local_entries(s.take(i + 1)) == e.push((id@, *a)));
                        assert(e.push((id@, *a)).drop_last() =~= e);
                        lemma_map_keyed_insert(prev, entry, f);
                        assert(local_map_view(prev) == prev.map_values(f));
                        assert(local_map_view(r@) == r@.map_values(f));
                    }
                },
                None => {
                    assert(local_entries(s.take(i + 1)) == local_entries(s.take(i as int)));
                },
            }
            i = i + 1;
        }
        assert(s.take(i as int) =~= s);
        r
    }
}

} // verus!
