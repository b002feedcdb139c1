use survey_pipeline::double::Double;
use survey_pipeline::order::{is_comparable, stable_order};

fn keys(list: &[f64]) -> Vec<Double> {
    list.iter().map(|x| Double { bits: x.to_bits() }).collect()
}

#[test]
fn orders_by_key_and_keeps_ties_in_place() {
    assert_eq!(stable_order(&keys(&[3.0, 1.0, 2.0, 1.0, 3.0])), vec![1, 3, 2, 0, 4]);
    assert_eq!(stable_order(&keys(&[0.0, -0.0, -1.0])), vec![2, 0, 1]);
    assert_eq!(stable_order(&keys(&[])), Vec::<usize>::new());
}

#[test]
fn order_agrees_with_the_standard_sort() {
    let list: Vec<f64> = (0..97).map(|i| ((i * 37) % 23) as f64 - 11.5).collect();
    let mut expected: Vec<usize> = (0..list.len()).collect();
    expected.sort_by(|&a, &b| list[a].partial_cmp(&list[b]).unwrap());
    assert_eq!(stable_order(&keys(&list)), expected);
}

#[test]
fn nan_is_comparable_only_alone() {
    assert!(is_comparable(&keys(&[f64::NAN])));
    assert_eq!(stable_order(&keys(&[f64::NAN])), vec![0]);
    assert!(!is_comparable(&keys(&[f64::NAN, 1.0])));
    assert!(is_comparable(&keys(&[f64::INFINITY, 1.0])));
}
