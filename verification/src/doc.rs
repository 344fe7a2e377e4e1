//! A document: a set of uniquely-shaped indexable fields.
//!
//! Fields are deduplicated by full structural equality, not by name alone;
//! removal, conversely, is by name.

use crate::indexable_field::IndexableField;
use vstd::prelude::*;
use crate::indexable_field::field_eq;

verus! {

/// No two fields of the sequence are structurally equal.
pub open spec fn fields_distinct(s: Seq<IndexableField>) -> bool {
    forall|i: int, j: int| #![trigger s[i], s[j]]
        0 <= i < j < s.len() ==> !field_eq(s[i], s[j])
}

/// The fields that survive removing every field named `name`.
pub open spec fn remove_named(s: Seq<IndexableField>, name: Seq<char>) -> Seq<IndexableField> {
    s.filter(|f: IndexableField| f.spec_name() != name)
}

/// A document under construction: the fields it will index, in insertion
/// order, no two of them structurally equal.
#[derive(Debug)]
pub struct Doc {
    pub fields: Vec<IndexableField>,
}

impl View for Doc {
    type V = Seq<IndexableField>;

    open spec fn view(&self) -> Seq<IndexableField> {
        self.fields@
    }
}

impl Doc {
    /// The document's invariant: its fields are pairwise distinct.
    pub open spec fn wf(self) -> bool {
        fields_distinct(self@)
    }

    /// A document with no fields.
    pub fn new() -> (r: Self)
        ensures
            r@ == Seq::<IndexableField>::empty(),
            r.wf(),
    {
        let r = Doc { fields: Vec::new() };
        proof {
            assert(r@ =~= Seq::<IndexableField>::empty());
        }
        r
    }

    /// The fields of the document, in insertion order.
    pub fn iter(&self) -> (r: &Vec<IndexableField>)
        ensures
            r@ == self@,
    {
        &self.fields
    }

    /// Adds `field` unless a structurally equal field is already present;
    /// names alone do not deduplicate.
    pub fn add(&mut self, field: IndexableField)
        requires
            old(self).wf(),
        ensures
            final(self).wf(),
            ({
                let present = exists|i: int|
                    0 <= i < old(self)@.len() && field_eq(#[trigger] old(self)@[i], field);
                if present {
                    final(self)@ == old(self)@
                } else {
                    final(self)@ == old(self)@.push(field)
                }
            }),
    {
        let n: usize = self.fields.len();
        let mut i: usize = 0;
        while i < n
            invariant
                old(self).wf(),
                *self == *old(self),
                n == self.fields@.len(),
                i <= n,
                forall|j: int| 0 <= j < i ==> !field_eq(#[trigger] self.fields@[j], field),
            decreases n - i,
        {
            let fi = &self.fields[i];
            if fi == &field {
                return ;
            }
            i += 1;
        }
        self.fields.push(field);
    }

    /// Removes every field whose name is `name`, keeping the others in
    /// order.
    pub fn remove(&mut self, name: &str)
        requires
            old(self).wf(),
        ensures
            final(self).wf(),
            final(self)@ == remove_named(old(self)@, name@),
    {
        let owned: String = name.to_owned();
        let ghost orig = self.fields@;
        let ghost mut g: int = 0;
        let mut i: usize = 0;
        proof {
            reveal(Seq::filter);
            assert(orig.take(0) =~= Seq::<IndexableField>::empty());
            assert(remove_named(orig.take(0), name@) =~= Seq::<IndexableField>::empty());
            assert(self.fields@ =~= remove_named(orig.take(0), name@) + orig.skip(0));
        }
        while i < self.fields.len()
            invariant
                fields_distinct(orig),
                0 <= g <= orig.len(),
                owned@ == name@,
                self.fields@ == remove_named(orig.take(g), name@) + orig.skip(g),
                i == remove_named(orig.take(g), name@).len(),
                fields_distinct(self.fields@),
            decreases orig.len() - g,
        {
            let ghost before = self.fields@;
            let matched = match &self.fields[i] {
                IndexableField::IntPoint { name: n, .. } => *n == owned,
            };
            proof {
                assert(self.fields@[i as int] == orig[g]);
                assert(orig.take(g + 1).drop_last() =~= orig.take(g));
                assert(orig.take(g + 1).last() == orig[g]);
                lemma_remove_named_step(orig, name@, g);
            }
            if matched {
                let _removed = self.fields.remove(i);
                proof {
                    g = g + 1;
                    assert(self.fields@ =~= remove_named(orig.take(g), name@) + orig.skip(g));
                    lemma_distinct_after_remove(before, self.fields@, i as int);
                }
            } else {
                i += 1;
                proof {
                    g = g + 1;
                    assert(self.fields@ =~= remove_named(orig.take(g), name@) + orig.skip(g));
                }
            }
        }
        proof {
            assert(orig.skip(g).len() == 0);
            assert(g == orig.len());
            assert(orig.take(g) =~= orig);
            assert(self.fields@ =~= remove_named(orig, name@));
        }
    }
}

/// One step of the removal scan: extending the processed prefix by one
/// keeps or drops exactly its last field, by name.
proof fn lemma_remove_named_step(orig: Seq<IndexableField>, name: Seq<char>, g: int)
    requires
        0 <= g < orig.len(),
    ensures
        orig[g].spec_name() != name ==> remove_named(orig.take(g + 1), name) == remove_named(
            orig.take(g),
            name,
        ).push(orig[g]),
        orig[g].spec_name() == name ==> remove_named(orig.take(g + 1), name) == remove_named(
            orig.take(g),
            name,
        ),
{
    reveal(Seq::filter);
    assert(orig.take(g + 1).drop_last() =~= orig.take(g));
    assert(orig.take(g + 1).last() == orig[g]);
    assert(orig.take(g + 1).len() == g + 1);
}

/// Removing one element of a pairwise-distinct sequence leaves it pairwise
/// distinct.
proof fn lemma_distinct_after_remove(
    pre: Seq<IndexableField>,
    post: Seq<IndexableField>,
    i: int,
)
    requires
        fields_distinct(pre),
        0 <= i < pre.len(),
        post == pre.remove(i),
    ensures
        fields_distinct(post),
{
    assert forall|a: int, b: int| #![trigger post[a], post[b]]
        0 <= a < b < post.len() implies !field_eq(post[a], post[b]) by {
        let pa = if a < i {
            a
        } else {
            a + 1
        };
        let pb = if b < i {
            b
        } else {
            b + 1
        };
        assert(post[a] == pre[pa]);
        assert(post[b] == pre[pb]);
        assert(!field_eq(pre[pa], pre[pb]));
    }
}

} // verus!
