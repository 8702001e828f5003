//! The catalog of the attributes that the groups of a schema refer to.
use vstd::prelude::*;
use crate::attribute::{Attribute, AttributeRef};

verus! {

/// The attributes shared by the groups of a schema; a group refers to them by
/// their index.
#[derive(Debug)]
pub struct Catalog {
    /// The attributes, in the order of their references.
    pub attributes: Vec<Attribute>,
}

/// Statistics on a catalog.
#[derive(Debug)]
pub struct Stats {
    /// The number of attributes in the catalog.
    pub attribute_count: usize,
    /// The number of deprecated attributes in the catalog.
    pub deprecated_count: usize,
}

/// The number of deprecated attributes in `s`.
pub open spec fn deprecated_count(s: Seq<Attribute>) -> nat
    decreases s.len(),
{
    if s.len() == 0 {
        0
    } else {
        deprecated_count(s.drop_last()) + if s.last().deprecated is Some {
            1nat
        } else {
            0nat
        }
    }
}

proof fn lemma_deprecated_count_bound(s: Seq<Attribute>)
    ensures
        deprecated_count(s) <= s.len(),
    decreases s.len(),
{
    if s.len() > 0 {
        lemma_deprecated_count_bound(s.drop_last());
    }
}

/// Calls `Vec::from` on an array: the vector holds the array's items in order.
#[verifier::external_body]
fn array_into_vec<T, const N: usize>(a: [T; N]) -> (v: Vec<T>)
    ensures
        v@ == a@,
{
    Vec::from(a)
}

impl Default for Catalog {
    fn default() -> (c: Catalog)
        ensures
            c.attributes@ == Seq::<Attribute>::empty(),
    {
        Catalog { attributes: Vec::new() }
    }
}

impl Catalog {
    /// The attribute that `r` refers to, if the catalog holds it.
    pub open spec fn lookup(self, r: AttributeRef) -> Option<Attribute> {
        if (r.0 as int) < self.attributes@.len() {
            Some(self.attributes@[r.0 as int])
        } else {
            None
        }
    }

    /// Whether the catalog holds the attribute that `r` refers to.
    pub open spec fn resolves(self, r: AttributeRef) -> bool {
        (r.0 as int) < self.attributes@.len()
    }

    /// The attribute that `attribute_ref` refers to.
    pub fn attribute(&self, attribute_ref: &AttributeRef) -> (a: Option<&Attribute>)
        ensures
            match a {
                Some(x) => self.lookup(*attribute_ref) == Some(*x),
                None => self.lookup(*attribute_ref) is None,
            },
    {
        let i = attribute_ref.0 as usize;
        if i < self.attributes.len() {
            Some(&self.attributes[i])
        } else {
            None
        }
    }

    /// Appends the attributes to the catalog, and returns their references.
    pub fn add_attributes<const N: usize>(&mut self, attributes: [Attribute; N]) -> (refs: Vec<AttributeRef>)
        requires
            old(self).attributes@.len() + N <= u32::MAX + 1,
        ensures
            final(self).attributes@ == old(self).attributes@ + attributes@,
            refs@.len() == N,
            forall|i: int| 0 <= i < N ==> #[trigger] refs@[i].0 == old(self).attributes@.len() + i,
    {
        let start = self.attributes.len();
        let mut added = array_into_vec(attributes);
        self.attributes.append(&mut added);
        let end = self.attributes.len();
        let mut refs: Vec<AttributeRef> = Vec::new();
        let mut i: usize = start;
        while i < end
            invariant
                start <= i <= end,
                end == start + N,
                end <= u32::MAX + 1,
                refs@.len() == i - start,
                forall|j: int| 0 <= j < refs@.len() ==> #[trigger] refs@[j].0 == start + j,
            decreases end - i,
        {
            refs.push(AttributeRef(i as u32));
            i = i + 1;
        }
        refs
    }

    /// Statistics on the catalog.
    pub fn stats(&self) -> (s: Stats)
        ensures
            s.attribute_count == self.attributes@.len(),
            s.deprecated_count == deprecated_count(self.attributes@),
    {
        let mut deprecated: usize = 0;
        let mut i: usize = 0;
        while i < self.attributes.len()
            invariant
                i <= self.attributes@.len(),
                deprecated == deprecated_count(self.attributes@.take(i as int)),
            decreases self.attributes@.len() - i,
        {
            proof {
                assert(self.attributes@.take(i + 1).drop_last() =~= self.attributes@.take(i as int));
                lemma_deprecated_count_bound(self.attributes@.take(i as int));
            }
            if self.attributes[i].deprecated.is_some() {
                deprecated = deprecated + 1;
            }
            i = i + 1;
        }
        assert(self.attributes@.take(i as int) =~= self.attributes@);
        Stats { attribute_count: self.attributes.len(), deprecated_count: deprecated }
    }
}

} // verus!
