use svd2rust::model::{EnumeratedValue, EnumeratedValues};
use svd2rust::variants::{Decoded, Variant, VariantType};

fn value(name: &str, value: Option<u64>, is_default: Option<bool>) -> EnumeratedValue {
    EnumeratedValue { name: name.to_string(), description: None, value, is_default }
}

fn set(values: Vec<EnumeratedValue>) -> EnumeratedValues {
    EnumeratedValues { name: None, usage: None, values }
}

fn variant(name: &str, value: u64, is_default: bool) -> Variant {
    Variant { name: name.to_string(), value, is_default }
}

#[test]
fn variant_type_of_two_values_with_a_default() {
    let ty = VariantType::new(&set(vec![
        value("A", Some(0), Some(true)),
        value("B", Some(1), None),
    ]));
    assert_eq!(ty.variants, vec![variant("A", 0, true), variant("B", 1, false)]);
    assert!(ty.renamed.is_empty());
}

#[test]
fn a_value_without_number_stands_for_its_position() {
    let ty = VariantType::new(&set(vec![
        value("off", Some(7), None),
        value("slow", None, None),
        value("fast", None, Some(false)),
    ]));
    assert_eq!(
        ty.variants,
        vec![variant("Off", 7, false), variant("Slow", 1, false), variant("Fast", 2, false)]
    );
}

#[test]
fn colliding_variant_names_are_told_apart() {
    let ty = VariantType::new(&set(vec![value("on", Some(1), None), value("ON", Some(2), None)]));
    assert_eq!(ty.variants, vec![variant("On", 1, false), variant("On_1", 2, false)]);
    assert_eq!(ty.renamed, vec![1]);
}

#[test]
fn every_variant_is_decoded_from_its_own_number() {
    let ty = VariantType::new(&set(vec![
        value("A", Some(5), None),
        value("B", None, Some(true)),
        value("C", Some(0), None),
        value("D", None, None),
    ]));
    for position in 0..ty.variants.len() {
        let number = ty.encode(position).unwrap();
        assert_eq!(ty.decode(number), Decoded::Named(position));
        match ty.decode(number) {
            Decoded::Named(p) => assert_eq!(ty.variants[p].name, ty.variants[position].name),
            other => panic!("{:?}", other),
        }
    }
    assert_eq!(ty.encode(4), None);
}

#[test]
fn an_unlisted_number_goes_to_the_default() {
    let ty = VariantType::new(&set(vec![
        value("A", Some(0), None),
        value("Other", None, Some(true)),
    ]));
    assert_eq!(ty.decode(0), Decoded::Named(0));
    assert_eq!(ty.decode(9), Decoded::Default { variant: 1, raw: 9 });
}

#[test]
fn an_unlisted_number_without_default_stays_raw() {
    let ty = VariantType::new(&set(vec![value("A", Some(0), None), value("B", Some(1), None)]));
    assert_eq!(ty.decode(3), Decoded::Raw(3));
    assert_eq!(VariantType::new(&set(vec![])).decode(0), Decoded::Raw(0));
}

#[test]
fn of_two_variants_with_one_number_the_first_is_decoded() {
    let ty = VariantType::new(&set(vec![value("A", Some(1), None), value("B", Some(1), None)]));
    assert_eq!(ty.decode(1), Decoded::Named(0));
}

#[test]
fn every_name_comes_back_from_its_number() {
    let ty = VariantType::new(&set(vec![
        value("idle", Some(3), None),
        value("busy", None, Some(true)),
        value("IDLE", Some(9), None),
    ]));
    for v in &ty.variants {
        let number = ty.encode_named(&v.name).unwrap();
        assert_eq!(number, v.value);
        assert_eq!(ty.name_of(number), Some(v.name.clone()));
    }
    assert_eq!(ty.encode_named(&"Idle".to_string()), Some(3));
    assert_eq!(ty.encode_named(&"Idle_1".to_string()), Some(9));
    assert_eq!(ty.encode_named(&"idle".to_string()), None);
}

#[test]
fn the_name_of_an_unlisted_number_is_that_of_the_default() {
    let with_default =
        VariantType::new(&set(vec![value("a", Some(0), None), value("rest", None, Some(true))]));
    assert_eq!(with_default.name_of(7), Some("Rest".to_string()));
    let without = VariantType::new(&set(vec![value("a", Some(0), None)]));
    assert_eq!(without.name_of(7), None);
    assert_eq!(without.name_of(0), Some("A".to_string()));
}
