//! Indexable fields of a document: the integer-valued point field, with
//! optional indexing properties.

use vstd::prelude::*;
use vstd::std_specs::cmp::PartialEqSpec;

verus! {

/// Extra indexing behaviour a field may carry.
#[derive(Debug, Clone, Copy, PartialEq, Eq, Structural)]
pub enum FieldProperties {
    Tokenized,
}

/// A uniquely-shaped field of a document. Fields are compared by full
/// structural equality: name, value and properties all have to agree.
#[derive(Debug)]
pub enum IndexableField {
    IntPoint { name: String, value: i32, props: Vec<FieldProperties> },
}

impl IndexableField {
    /// The field's name.
    pub open spec fn spec_name(self) -> Seq<char> {
        match self {
            IndexableField::IntPoint { name, .. } => name@,
        }
    }

    /// The field's integer value.
    pub open spec fn spec_value(self) -> i32 {
        match self {
            IndexableField::IntPoint { value, .. } => value,
        }
    }

    /// The field's indexing properties, in the order they were given.
    pub open spec fn spec_props(self) -> Seq<FieldProperties> {
        match self {
            IndexableField::IntPoint { props, .. } => props@,
        }
    }

    /// An integer point field with no extra properties.
    pub fn new_int(name: &str, value: i32) -> (r: Self)
        ensures
            r.spec_name() == name@,
            r.spec_value() == value,
            r.spec_props() == Seq::<FieldProperties>::empty(),
    {
        let props: Vec<FieldProperties> = Vec::new();
        proof {
            assert(props@ =~= Seq::<FieldProperties>::empty());
        }
        IndexableField::IntPoint { name: name.to_owned(), value, props }
    }

    /// An integer point field with the given properties.
    pub fn new_int_with_props(name: &str, value: i32, props: Vec<FieldProperties>) -> (r: Self)
        ensures
            r.spec_name() == name@,
            r.spec_value() == value,
            r.spec_props() == props@,
    {
        IndexableField::IntPoint { name: name.to_owned(), value, props }
    }

    /// The field's name.
    pub fn name(&self) -> (r: &str)
        ensures
            r@ == self.spec_name(),
    {
        match self {
            IndexableField::IntPoint { name, .. } => name.as_str(),
        }
    }
}

impl PartialEq for IndexableField {
    fn eq(&self, other: &Self) -> bool {
        match (self, other) {
            (
                IndexableField::IntPoint { name: n1, value: v1, props: p1 },
                IndexableField::IntPoint { name: n2, value: v2, props: p2 },
            ) => {
                if *v1 != *v2 {
                    return false;
                }
                if !(*n1 == *n2) {
                    return false;
                }
                if p1.len() != p2.len() {
                    return false;
                }
                let n: usize = p1.len();
                let mut i: usize = 0;
                while i < n
                    invariant
                        i <= n,
                        n == p1@.len(),
                        p1@.len() == p2@.len(),
                        self.spec_props() == p1@,
                        other.spec_props() == p2@,
                        self.spec_name() == n1@,
                        other.spec_name() == n2@,
                        forall|j: int| 0 <= j < i ==> p1@[j] == p2@[j],
                    decreases n - i,
                {
                    let a = p1[i];
                    let b = p2[i];
                    if !(a == b) {
                        return false;
                    }
                    i += 1;
                }
                proof {
                    assert(p1@ =~= p2@);
                }
                true
            },
        }
    }
}

/// Full structural equality of two fields: name, value and properties.
pub open spec fn field_eq(a: IndexableField, b: IndexableField) -> bool {
    &&& a.spec_name() == b.spec_name()
    &&& a.spec_value() == b.spec_value()
    &&& a.spec_props() == b.spec_props()
}

impl vstd::std_specs::cmp::PartialEqSpecImpl for IndexableField {
    open spec fn obeys_eq_spec() -> bool {
        true
    }

    open spec fn eq_spec(&self, other: &IndexableField) -> bool {
        field_eq(*self, *other)
    }
}

} // verus!
