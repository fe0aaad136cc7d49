use wvprs::kmp::Kmp;

#[test]
fn test_find_first_target() {
    let data = b"hello world";
    let target = b"world";
    let result = Kmp::find_first_target(data, target);
    assert_eq!(result, Some(6));
}

#[test]
fn test_find_all_targets() {
    let data = b"ababab";
    let target = b"ab";
    let result = Kmp::find_all_targets(data, target);
    assert_eq!(result, vec![0, 2, 4]);
}

#[test]
fn test_find_no_target() {
    let data = b"abcdef";
    let target = b"xyz";
    let result = Kmp::find_first_target(data, target);
    assert_eq!(result, None);
}

#[test]
fn find_first_empty_inputs_give_none() {
    assert_eq!(Kmp::find_first_target(b"", b"a"), None);
    assert_eq!(Kmp::find_first_target(b"a", b""), None);
}

#[test]
fn combine_inserts_separator() {
    let combined = Kmp::combine_data_and_target(b"ab", b"cd");
    assert_eq!(combined, b"ab#cd".to_vec());
}

#[test]
fn compute_lps_of_repeated_pattern() {
    let lps = Kmp::compute_lps(b"abab");
    assert_eq!(lps, vec![0, 0, 1, 2]);
}
