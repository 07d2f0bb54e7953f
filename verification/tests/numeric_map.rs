use redbear::{ConstructionError, NumericMap, Operation};

fn entries(pairs: &[(&str, f64)]) -> Vec<(String, f64)> {
    pairs.iter().map(|(key, value)| (key.to_string(), *value)).collect()
}

fn map_of(pairs: &[(&str, f64)]) -> NumericMap<f64> {
    NumericMap::construct(entries(pairs)).unwrap()
}

fn addition() -> Operation<f64, fn(f64, f64) -> f64> {
    Operation { identity: 0.0, apply: |a, b| a + b }
}

fn subtraction() -> Operation<f64, fn(f64, f64) -> f64> {
    Operation { identity: 0.0, apply: |a, b| a - b }
}

fn multiplication() -> Operation<f64, fn(f64, f64) -> f64> {
    Operation { identity: 1.0, apply: |a, b| a * b }
}

fn division() -> Operation<f64, fn(f64, f64) -> f64> {
    Operation { identity: 1.0, apply: |a, b| a / b }
}

#[test]
fn add_with_fill_uses_fill_for_missing_key() {
    let d1 = map_of(&[("a", 1.0), ("b", 2.0)]);
    let d2 = map_of(&[("b", 10.0)]);
    let r = d1.merge(&d2, Some(5.0), &addition());
    assert_eq!(r.export(), entries(&[("a", 6.0), ("b", 12.0)]));
}

#[test]
fn divide_with_fill_uses_fill_for_missing_key() {
    let d1 = map_of(&[("a", 10.0), ("b", 6.0)]);
    let d2 = map_of(&[("b", 2.0)]);
    let r = d1.merge(&d2, Some(1.0), &division());
    assert_eq!(r.export(), entries(&[("a", 10.0), ("b", 3.0)]));
}

#[test]
fn sum_and_product_of_three_values() {
    let d = map_of(&[("a", 1.0), ("b", 2.0), ("c", 3.0)]);
    assert_eq!(d.reduce(&addition()), 6.0);
    assert_eq!(d.reduce(&multiplication()), 6.0);
}

#[test]
fn reset_gives_new_map_and_keeps_original() {
    let d = map_of(&[("a", 1.0), ("b", 2.0)]);
    let r = d.reset(99.0);
    assert_eq!(r.export(), entries(&[("a", 99.0), ("b", 99.0)]));
    assert_eq!(d.export(), entries(&[("a", 1.0), ("b", 2.0)]));
}

#[test]
fn export_returns_constructed_entries() {
    let given = entries(&[("x", 1.5), ("y", -2.0), ("z", 0.0), ("", 7.25)]);
    let d = NumericMap::construct(given.clone()).unwrap();
    assert_eq!(d.export(), given);
}

#[test]
fn construct_of_nothing_is_empty() {
    let d: NumericMap<f64> = NumericMap::construct(Vec::new()).unwrap();
    assert_eq!(d.export(), Vec::new());
}

#[test]
fn construct_reports_first_repeated_key() {
    let r = NumericMap::construct(entries(&[("a", 1.0), ("b", 2.0), ("a", 3.0), ("b", 4.0)]));
    assert!(matches!(r, Err(ConstructionError::DuplicateKey(2))));
}

#[test]
fn construct_reports_adjacent_repeated_key() {
    let r = NumericMap::construct(entries(&[("k", 1.0), ("k", 1.0)]));
    assert!(matches!(r, Err(ConstructionError::DuplicateKey(1))));
}

#[test]
fn operands_are_unchanged_by_operations() {
    let d1 = map_of(&[("a", 1.0), ("b", 2.0)]);
    let d2 = map_of(&[("b", 10.0), ("c", 4.0)]);
    let before1 = d1.export();
    let before2 = d2.export();
    let _ = d1.apply_scalar(3.0, &addition());
    let _ = d1.apply_scalar(3.0, &subtraction());
    let _ = d1.apply_scalar(3.0, &multiplication());
    let _ = d1.apply_scalar(3.0, &division());
    let _ = d1.reset(0.0);
    let _ = d1.merge(&d2, None, &addition());
    let _ = d1.merge(&d2, Some(2.0), &subtraction());
    let _ = d1.merge(&d2, None, &multiplication());
    let _ = d1.merge(&d2, Some(4.0), &division());
    let _ = d1.merge_by_key(&d2, 1.0, &addition());
    let _ = d1.reduce(&addition());
    assert_eq!(d1.export(), before1);
    assert_eq!(d2.export(), before2);
}

#[test]
fn clone_shares_and_stays_as_it_was() {
    let d = map_of(&[("a", 1.0), ("b", 2.0)]);
    let c = d.clone();
    let r = c.apply_scalar(10.0, &multiplication());
    assert_eq!(r.export(), entries(&[("a", 10.0), ("b", 20.0)]));
    assert_eq!(c.export(), d.export());
    assert_eq!(d.export(), entries(&[("a", 1.0), ("b", 2.0)]));
}

#[test]
fn scalar_operations_apply_to_every_value() {
    let d = map_of(&[("a", 1.0), ("b", 2.0), ("c", -4.0)]);
    assert_eq!(
        d.apply_scalar(0.5, &addition()).export(),
        entries(&[("a", 1.5), ("b", 2.5), ("c", -3.5)])
    );
    assert_eq!(
        d.apply_scalar(0.5, &subtraction()).export(),
        entries(&[("a", 0.5), ("b", 1.5), ("c", -4.5)])
    );
    assert_eq!(
        d.apply_scalar(3.0, &multiplication()).export(),
        entries(&[("a", 3.0), ("b", 6.0), ("c", -12.0)])
    );
    assert_eq!(
        d.apply_scalar(4.0, &division()).export(),
        entries(&[("a", 0.25), ("b", 0.5), ("c", -1.0)])
    );
}

#[test]
fn scalar_identity_gives_the_map_back() {
    let d = map_of(&[("a", 1.0), ("b", -2.5), ("c", 1e300)]);
    let add = addition();
    let mul = multiplication();
    assert_eq!(d.apply_scalar(add.identity, &add).export(), d.export());
    assert_eq!(d.apply_scalar(mul.identity, &mul).export(), d.export());
    assert_eq!(d.apply_scalar(0.0, &add).export(), d.export());
    assert_eq!(d.apply_scalar(1.0, &mul).export(), d.export());
}

#[test]
fn division_by_zero_is_no_error() {
    let d = map_of(&[("p", 1.0), ("n", -1.0), ("z", 0.0)]);
    let out = d.apply_scalar(0.0, &division()).export();
    assert_eq!(out[0].1, f64::INFINITY);
    assert_eq!(out[1].1, f64::NEG_INFINITY);
    assert!(out[2].1.is_nan());
    let zero = map_of(&[("p", 0.0)]);
    let merged = d.merge(&zero, None, &division()).export();
    assert_eq!(merged[0].1, f64::INFINITY);
    assert_eq!(merged[1].1, -1.0);
    assert_eq!(merged[2].1, 0.0);
}

#[test]
fn missing_fill_is_the_identity_element() {
    let d1 = map_of(&[("a", 1.0), ("b", 2.0), ("c", 3.0)]);
    let d2 = map_of(&[("b", 10.0)]);
    assert_eq!(
        d1.merge(&d2, None, &addition()).export(),
        d1.merge(&d2, Some(0.0), &addition()).export()
    );
    assert_eq!(
        d1.merge(&d2, None, &subtraction()).export(),
        d1.merge(&d2, Some(0.0), &subtraction()).export()
    );
    assert_eq!(
        d1.merge(&d2, None, &multiplication()).export(),
        d1.merge(&d2, Some(1.0), &multiplication()).export()
    );
    assert_eq!(
        d1.merge(&d2, None, &division()).export(),
        d1.merge(&d2, Some(1.0), &division()).export()
    );
    assert_eq!(
        d1.merge(&d2, None, &addition()).export(),
        entries(&[("a", 1.0), ("b", 12.0), ("c", 3.0)])
    );
    assert_eq!(
        d1.merge(&d2, None, &multiplication()).export(),
        entries(&[("a", 1.0), ("b", 20.0), ("c", 3.0)])
    );
}

#[test]
fn binary_operations_combine_by_key() {
    let d1 = map_of(&[("a", 8.0), ("b", 6.0)]);
    let d2 = map_of(&[("b", 2.0), ("a", 4.0)]);
    assert_eq!(d1.merge(&d2, None, &addition()).export(), entries(&[("a", 12.0), ("b", 8.0)]));
    assert_eq!(d1.merge(&d2, None, &subtraction()).export(), entries(&[("a", 4.0), ("b", 4.0)]));
    assert_eq!(
        d1.merge(&d2, None, &multiplication()).export(),
        entries(&[("a", 32.0), ("b", 12.0)])
    );
    assert_eq!(d1.merge(&d2, None, &division()).export(), entries(&[("a", 2.0), ("b", 3.0)]));
}

#[test]
fn merge_has_exactly_the_keys_of_the_left_operand() {
    let d1 = map_of(&[("a", 1.0), ("b", 2.0)]);
    let d2 = map_of(&[("z", 5.0), ("b", 1.0), ("y", 6.0), ("x", 7.0)]);
    let r = d1.merge(&d2, Some(100.0), &addition());
    assert_eq!(r.export(), entries(&[("a", 101.0), ("b", 3.0)]));
    let empty = map_of(&[]);
    assert_eq!(d1.merge(&empty, Some(1.0), &addition()).export(), entries(&[("a", 2.0), ("b", 3.0)]));
    assert_eq!(empty.merge(&d2, Some(1.0), &addition()).export(), Vec::new());
}

#[test]
fn positional_merge_agrees_with_lookup() {
    let d1 = map_of(&[("a", 1.0), ("b", 2.0), ("c", 3.0)]);
    let shared = d1.apply_scalar(10.0, &multiplication());
    let equal = map_of(&[("a", 10.0), ("b", 20.0), ("c", 30.0)]);
    let shuffled = map_of(&[("c", 30.0), ("a", 10.0), ("b", 20.0)]);
    let expected = entries(&[("a", 11.0), ("b", 22.0), ("c", 33.0)]);
    for other in [&shared, &equal, &shuffled, &d1.clone().apply_scalar(10.0, &multiplication())] {
        assert_eq!(d1.merge(other, Some(7.0), &addition()).export(), expected);
        assert_eq!(d1.merge_by_key(other, 7.0, &addition()).export(), expected);
        assert_eq!(d1.merge(other, None, &addition()).export(), expected);
    }
    assert_eq!(d1.merge(&d1, None, &subtraction()).export(), d1.reset(0.0).export());
}

#[test]
fn same_length_other_keys_takes_the_lookup() {
    let d1 = map_of(&[("a", 1.0), ("b", 2.0)]);
    let d2 = map_of(&[("a", 10.0), ("c", 20.0)]);
    assert_eq!(d1.merge(&d2, Some(5.0), &addition()).export(), entries(&[("a", 11.0), ("b", 7.0)]));
}

#[test]
fn reduction_of_empty_map_is_the_identity_element() {
    let empty = map_of(&[]);
    assert_eq!(empty.reduce(&addition()), 0.0);
    assert_eq!(empty.reduce(&multiplication()), 1.0);
}

#[test]
fn reduction_folds_in_position_order() {
    let d = map_of(&[("a", 8.0), ("b", 2.0), ("c", 2.0)]);
    assert_eq!(d.reduce(&subtraction()), -12.0);
    assert_eq!(d.reduce(&division()), 1.0 / 8.0 / 2.0 / 2.0);
    let one = map_of(&[("only", 4.5)]);
    assert_eq!(one.reduce(&addition()), 4.5);
    assert_eq!(one.reduce(&multiplication()), 4.5);
}

#[test]
fn operation_call_applies_the_function() {
    assert_eq!(subtraction().call(5.0, 3.0), 2.0);
    assert_eq!(division().call(9.0, 3.0), 3.0);
}

#[test]
fn maps_of_integers_work_alike() {
    let plus = Operation { identity: 0i64, apply: |a: i64, b: i64| a.wrapping_add(b) };
    let d1 = NumericMap::construct(vec![("a".to_string(), 1i64), ("b".to_string(), 2)]).unwrap();
    let d2 = NumericMap::construct(vec![("b".to_string(), 40i64)]).unwrap();
    let r = d1.merge(&d2, None, &plus);
    assert_eq!(r.export(), vec![("a".to_string(), 1), ("b".to_string(), 42)]);
    assert_eq!(r.reduce(&plus), 43);
}
