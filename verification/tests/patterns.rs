use isotarp::resolve::{
    categorize_patterns, match_test_by_name, match_test_by_path, match_test_exactly, pattern_kind,
    resolve_test_patterns, select_tests, test_name_of, PatternKind,
};
use isotarp::text::{
    chars_of, comes_before, concat2, concat3, concat4, concat5, contains_char, contains_chars,
    contains_text, insert_sorted, matches_at, same_text, string_of,
};

fn strings(list: &[&str]) -> Vec<String> {
    list.iter().map(|item| item.to_string()).collect()
}

fn chars(text: &str) -> Vec<char> {
    text.chars().collect()
}

#[test]
fn patterns_are_of_four_kinds() {
    assert_eq!(pattern_kind("tests::test_foo"), PatternKind::ExactPath);
    assert_eq!(pattern_kind("test_foo"), PatternKind::ExactName);
    assert_eq!(pattern_kind("tests::*"), PatternKind::PathWildcard);
    assert_eq!(pattern_kind("a::b?"), PatternKind::PathWildcard);
    assert_eq!(pattern_kind("test_*"), PatternKind::NameWildcard);
    assert_eq!(pattern_kind("?"), PatternKind::NameWildcard);
    assert_eq!(pattern_kind(""), PatternKind::ExactName);
    assert_eq!(pattern_kind("a:b"), PatternKind::ExactName);
}

#[test]
fn patterns_are_grouped_in_their_order() {
    let patterns = strings(&["n*", "a::b", "x", "p::*", "c::d", "y", "?", "q::?"]);
    let (paths, names, path_wild, name_wild) = categorize_patterns(&patterns);
    assert_eq!(paths, strings(&["a::b", "c::d"]));
    assert_eq!(names, strings(&["x", "y"]));
    assert_eq!(path_wild, strings(&["p::*", "q::?"]));
    assert_eq!(name_wild, strings(&["n*", "?"]));
}

#[test]
fn the_name_of_a_test_is_its_last_segment() {
    assert_eq!(test_name_of("tests::test_foo"), "test_foo");
    assert_eq!(test_name_of("a::b::c"), "c");
    assert_eq!(test_name_of("plain"), "plain");
    assert_eq!(test_name_of(""), "");
    assert_eq!(test_name_of("a::"), "");
    assert_eq!(test_name_of("a:::b"), ":b");
    assert_eq!(test_name_of("a::::b"), "b");
    for path in ["tests::test_foo", "a:::b", "a::::b", "a::", "::", ":", "x"] {
        assert_eq!(test_name_of(path), path.split("::").last().unwrap());
    }
}

#[test]
fn matching_by_path_and_by_name() {
    let available = strings(&["tests::test_foo", "tests::test_not_bar", "other::test_foo"]);
    assert_eq!(match_test_by_path(&available, "tests::*"), strings(&["tests::test_foo", "tests::test_not_bar"]));
    assert_eq!(match_test_by_path(&available, "*::test_foo"), strings(&["tests::test_foo", "other::test_foo"]));
    assert_eq!(match_test_by_path(&available, "test_foo"), Vec::<String>::new());
    assert_eq!(match_test_by_name(&available, "test_foo"), strings(&["tests::test_foo", "other::test_foo"]));
    assert_eq!(match_test_by_name(&available, "test_???"), strings(&["tests::test_foo", "other::test_foo"]));
    assert_eq!(match_test_by_name(&available, "*bar"), strings(&["tests::test_not_bar"]));
    assert_eq!(match_test_by_name(&available, "tests"), Vec::<String>::new());
    assert_eq!(match_test_exactly(&available, &"other::test_foo".to_string()), strings(&["other::test_foo"]));
    assert_eq!(match_test_exactly(&available, &"other::test_fo".to_string()), Vec::<String>::new());
    assert_eq!(select_tests(&available, &"other::test_foo".to_string()), strings(&["other::test_foo"]));
    assert_eq!(select_tests(&available, &"other::*".to_string()), strings(&["other::test_foo"]));
    assert_eq!(select_tests(&available, &"test_n*".to_string()), strings(&["tests::test_not_bar"]));
}

#[test]
fn wildcards_stand_for_one_or_any_number_of_characters() {
    let available = strings(&["", "a", "ab", "abc", "b"]);
    assert_eq!(match_test_by_path(&available, ""), strings(&[""]));
    assert_eq!(match_test_by_path(&available, "*"), available);
    assert_eq!(match_test_by_path(&available, "?"), strings(&["a", "b"]));
    assert_eq!(match_test_by_path(&available, "a*"), strings(&["a", "ab", "abc"]));
    assert_eq!(match_test_by_path(&available, "*b"), strings(&["ab", "b"]));
    assert_eq!(match_test_by_path(&available, "a?c"), strings(&["abc"]));
    assert_eq!(match_test_by_path(&available, "**"), available);
    assert_eq!(match_test_by_path(&available, "*?*"), strings(&["a", "ab", "abc", "b"]));
    assert_eq!(match_test_by_path(&available, "??"), strings(&["ab"]));
    assert_eq!(match_test_by_path(&available, "A"), Vec::<String>::new());
}

#[test]
fn unmatched_patterns_come_back_grouped_by_kind() {
    let available = strings(&["tests::test_foo"]);
    let patterns = strings(&["zz*", "missing", "no::such", "test_foo", "x::*"]);
    let (matched, unmatched) = resolve_test_patterns(&available, &patterns);
    assert_eq!(matched, strings(&["tests::test_foo"]));
    assert_eq!(unmatched, strings(&["no::such", "missing", "x::*", "zz*"]));
}

#[test]
fn matched_tests_come_back_sorted_and_once() {
    let available = strings(&["z::t", "a::t", "m::t", "a::t"]);
    let patterns = strings(&["t", "*::t", "m::t"]);
    let (matched, unmatched) = resolve_test_patterns(&available, &patterns);
    assert_eq!(matched, strings(&["a::t", "m::t", "z::t"]));
    assert!(unmatched.is_empty());
    let (matched, unmatched) = resolve_test_patterns(&available, &Vec::new());
    assert!(matched.is_empty() && unmatched.is_empty());
}

#[test]
fn text_helpers_agree_with_std() {
    assert_eq!(chars_of("héllo"), chars("héllo"));
    assert_eq!(string_of(&chars("héllo"), 1, 4), "éll");
    assert_eq!(string_of(&chars("abc"), 2, 2), "");
    assert!(same_text("abc", "abc"));
    assert!(!same_text("abc", "abd"));
    assert_eq!(concat2("ab", "cd"), "abcd");
    assert_eq!(concat3("a", "b", "c"), "abc");
    assert_eq!(concat4("a", "b", "c", "d"), "abcd");
    assert_eq!(concat5("a", "b", "c", "d", "e"), "abcde");
    assert!(contains_char(&chars("a*b"), '*'));
    assert!(!contains_char(&chars("ab"), '*'));
    assert!(matches_at(&chars("hello"), &chars("ll"), 2));
    assert!(!matches_at(&chars("hello"), &chars("ll"), 1));
    for (hay, pat) in [("hello", "ll"), ("hello", ""), ("", ""), ("", "a"), ("ab", "abc"), ("aab", "ab"), ("abc", "c"), ("abc", "d")] {
        assert_eq!(contains_chars(&chars(hay), &chars(pat)), hay.contains(pat));
        assert_eq!(contains_text(hay, pat), hay.contains(pat));
    }
    for (a, b) in [("a", "b"), ("b", "a"), ("a", "a"), ("", "a"), ("a", ""), ("ab", "a"), ("a", "ab"), ("Z", "a"), ("é", "z"), ("abc", "abd")] {
        assert_eq!(comes_before(&chars(a), &chars(b)), a < b);
    }
}

#[test]
fn sorted_insertion_keeps_order_and_skips_what_is_there() {
    let mut list = Vec::new();
    for name in ["m", "a", "z", "m", "b", "a"] {
        insert_sorted(&mut list, name.to_string());
    }
    assert_eq!(list, strings(&["a", "b", "m", "z"]));
}

fn matches_by_definition(pattern: &[char], input: &[char]) -> bool {
    match pattern.first() {
        None => input.is_empty(),
        Some('*') => {
            matches_by_definition(&pattern[1..], input)
                || (!input.is_empty() && matches_by_definition(pattern, &input[1..]))
        }
        Some(first) => {
            !input.is_empty()
                && (*first == '?' || *first == input[0])
                && matches_by_definition(&pattern[1..], &input[1..])
        }
    }
}

fn words(alphabet: &[char], longest: usize) -> Vec<String> {
    let mut all = vec![String::new()];
    let mut last = vec![String::new()];
    for _ in 0..longest {
        let mut next = Vec::new();
        for word in &last {
            for letter in alphabet {
                let mut longer = word.clone();
                longer.push(*letter);
                next.push(longer);
            }
        }
        all.extend(next.iter().cloned());
        last = next;
    }
    all
}

#[test]
fn matching_follows_the_definition_of_the_wildcards() {
    let inputs = words(&['a', 'b'], 5);
    for pattern in words(&['a', 'b', '*', '?'], 4) {
        let expected: Vec<String> = inputs
            .iter()
            .filter(|input| matches_by_definition(&chars(&pattern), &chars(input)))
            .cloned()
            .collect();
        assert_eq!(match_test_by_path(&inputs, &pattern), expected, "pattern {:?}", pattern);
    }
}
