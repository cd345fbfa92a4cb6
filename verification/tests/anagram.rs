use notation::anagram::solution;

#[test]
fn recognizes_an_anagram() {
    assert!(solution("earth", "heart"));
    assert!(solution("listen", "silent"));
}

#[test]
fn rejects_different_counts() {
    assert!(!solution("abc", "abd"));
    assert!(!solution("aabb", "abbb"));
}

#[test]
fn rejects_different_lengths() {
    assert!(!solution("ab", "abc"));
}

#[test]
fn empty_strings_are_anagrams() {
    assert!(solution("", ""));
}

#[test]
fn last_letter_of_the_alphabet_counts() {
    assert!(!solution("az", "aa"));
    assert!(solution("zza", "azz"));
}
