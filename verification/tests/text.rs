use survey_pipeline::text::{decimal_text, join_with_commas, sorted_unique};

fn names(list: &[&str]) -> Vec<String> {
    list.iter().map(|s| s.to_string()).collect()
}

#[test]
fn numbers_are_written_in_decimal() {
    for n in [0u64, 7, 10, 42, 99, 100, 1000, 90210, u64::MAX] {
        assert_eq!(decimal_text(n), n.to_string());
    }
}

#[test]
fn names_are_sorted_and_listed_once() {
    let list = names(&["r", "g", "z", "g", "i", "r", "Z", "gg", ""]);
    let mut expected = list.clone();
    expected.sort();
    expected.dedup();
    assert_eq!(sorted_unique(&list), expected);
    assert_eq!(sorted_unique(&names(&["\u{1F30C}", "\u{FFFD}", "a\u{e9}", "az"])), {
        let mut all = names(&["\u{1F30C}", "\u{FFFD}", "a\u{e9}", "az"]);
        all.sort();
        all
    });
}

#[test]
fn names_are_joined_with_commas() {
    assert_eq!(join_with_commas(&names(&[])), "");
    assert_eq!(join_with_commas(&names(&["g"])), "g");
    assert_eq!(join_with_commas(&names(&["g", "r", "i"])), "g,r,i");
}
