use index_core::doc::Doc;
use index_core::indexable_field::{FieldProperties, IndexableField};
use std::collections::HashSet;

#[test]
fn add_and_remove() {
    let mut d = Doc::new();
    d.add(IndexableField::new_int("price", 23));
    d.add(IndexableField::new_int("units", 21));

    let fields = d.iter();
    let mut it = fields.iter();

    assert!(HashSet::from(["price", "units"]).contains(it.next().unwrap().name()));
    assert!(HashSet::from(["price", "units"]).contains(it.next().unwrap().name()));

    d.remove("price");

    let fields = d.iter();
    let mut it = fields.iter();
    assert_eq!(it.next().unwrap().name(), "units");
    assert_eq!(it.next(), None);
}

#[test]
fn doc_deduplicates_by_structural_equality() {
    let mut d = Doc::new();
    d.add(IndexableField::new_int("price", 23));
    d.add(IndexableField::new_int("price", 23));
    assert_eq!(d.iter().len(), 1);

    // Same name, different value: not a duplicate.
    d.add(IndexableField::new_int("price", 24));
    assert_eq!(d.iter().len(), 2);

    // Same name and value, different properties: not a duplicate either.
    d.add(IndexableField::new_int_with_props("price", 23, vec![FieldProperties::Tokenized]));
    assert_eq!(d.iter().len(), 3);

    // Removal is by name and takes every like-named field with it.
    d.remove("price");
    assert_eq!(d.iter().len(), 0);
}

#[test]
fn field_accessors() {
    let f = IndexableField::new_int_with_props("count", -5, vec![FieldProperties::Tokenized]);
    assert_eq!(f.name(), "count");
    let g = IndexableField::new_int("count", -5);
    assert_eq!(g.name(), "count");
    assert!(f != g);
    assert!(g == IndexableField::new_int("count", -5));
}
