use kata::kata6::find_anagrams;
use kata::kata6::fingerprint;

#[test]
fn test_basic() {
    let words = vec![
        "abcd", //
        "bcda", //
        "dabc", //
        "a",    //
        "'a",   //
        "b",    //
        "c",    //
        "d",    //
        "abc",  //
        "cab",  //
        "ab'c", //
        "cb'a", //
    ];
    assert!(find_anagrams(&words) == 3);
}

#[test]
fn fingerprint_sorts_the_characters() {
    assert_eq!(fingerprint("cba"), "abc");
    assert_eq!(fingerprint("banana"), "aaabnn");
    assert_eq!(fingerprint("b'a"), "'ab");
    assert_eq!(fingerprint("zéa"), "azé");
    assert_eq!(fingerprint(""), "");
}

#[test]
fn a_word_twice_is_a_set_of_two() {
    assert_eq!(find_anagrams(&["abc", "abc"]), 1);
    assert_eq!(find_anagrams(&["abc", "abc", "cab", "bca"]), 1);
    assert_eq!(find_anagrams(&["abc"]), 0);
    assert_eq!(find_anagrams(&[]), 0);
    assert_eq!(find_anagrams(&["", ""]), 1);
    assert_eq!(find_anagrams(&["ab", "abb", "ba", "bab", "c"]), 2);
}
