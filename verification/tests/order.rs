use murmur::order::{is_before, sort_names, sort_numbers};

#[test]
fn sorting_agrees_with_the_standard_library() {
    let numbers = vec![5u128, 3, 9, 3, 0, u128::MAX, 7];
    let mut expected = numbers.clone();
    expected.sort_unstable();
    assert_eq!(sort_numbers(&numbers), expected);

    let names: Vec<String> =
        ["b", "a", "ab", "", "B", "\u{e9}", "z", "\u{1f399}", "\u{ffff}", "ab"].iter().map(|s| s.to_string()).collect();
    let mut expected = names.clone();
    expected.sort();
    assert_eq!(sort_names(names.clone()), expected);
    for a in &names {
        for b in &names {
            assert_eq!(is_before(a, b), a < b, "{a:?} {b:?}");
        }
    }
}
