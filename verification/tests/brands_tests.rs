use firefox_brand_generator::brands::{discover_brands, sort_names};

fn names(v: &[&str]) -> Vec<String> {
    v.iter().map(|s| s.to_string()).collect()
}

#[test]
fn brands_are_sorted() {
    let sorted = sort_names(&names(&["unofficial", "official", "nightly", "aurora"]));
    assert_eq!(sorted, names(&["aurora", "nightly", "official", "unofficial"]));
}

#[test]
fn sort_matches_string_order() {
    let input = names(&["b", "ab", "a", "", "B", "é", "z", "ab", "abc"]);
    let mut expected = input.clone();
    expected.sort();
    assert_eq!(sort_names(&input), expected);
}

#[test]
fn empty_list_stays_empty() {
    assert_eq!(sort_names(&Vec::new()), Vec::<String>::new());
}

#[test]
fn brands_are_the_folders_in_name_order() {
    let entries = vec![
        ("release".to_string(), true),
        ("README.md".to_string(), false),
        ("nightly".to_string(), true),
        ("aurora".to_string(), true),
        (".DS_Store".to_string(), false),
    ];
    assert_eq!(discover_brands(&entries), names(&["aurora", "nightly", "release"]));
    assert_eq!(discover_brands(&Vec::new()), Vec::<String>::new());
}
