//! Resolving user-supplied test patterns into test names.
//!
//! A pattern is a test path or a bare test name, either of them with or
//! without the wildcards `*` (any run of characters) and `?` (exactly one
//! character). A pattern with `::` is held against the whole test path, one
//! without against the last segment of the path.

use crate::text::{
    chars_of, contains_char, contains_chars, has_substring, insert_sorted, lemma_filter_take_step,
    lemma_texts_push, lemma_texts_take, names_ascending, string_of, texts,
};
use vstd::prelude::*;
use vstd::string::*;

verus! {

/// Whether `pattern` matches the whole of `input`: `?` stands for exactly one
/// character, `*` for any number of characters, every other character for
/// itself.
pub open spec fn wildcard_match(pattern: Seq<char>, input: Seq<char>) -> bool
    decreases pattern.len(), input.len(),
{
    if pattern.len() == 0 {
        input.len() == 0
    } else if pattern[0] == '*' {
        wildcard_match(pattern.skip(1), input) || (input.len() > 0 && wildcard_match(
            pattern,
            input.skip(1),
        ))
    } else {
        input.len() > 0 && (pattern[0] == '?' || pattern[0] == input[0]) && wildcard_match(
            pattern.skip(1),
            input.skip(1),
        )
    }
}

/// `wildmatch::WildMatch::new` followed by `WildMatch::matches`: true exactly
/// when the pattern, with `?` for one character and `*` for any number of
/// them and no escapes, matches the entire input.
#[verifier::external_body]
fn wild_matches(pattern: &str, input: &str) -> (r: bool)
    ensures
        r == wildcard_match(pattern@, input@),
{
    wildmatch::WildMatch::new(pattern).matches(input)
}

/// The separator between the segments of a test path.
pub open spec fn separator() -> Seq<char> {
    seq![':', ':']
}

/// The pattern holds a wildcard.
pub open spec fn is_wildcard(pattern: Seq<char>) -> bool {
    pattern.contains('*') || pattern.contains('?')
}

/// The pattern names a path rather than a bare test name.
pub open spec fn is_path(pattern: Seq<char>) -> bool {
    has_substring(pattern, separator())
}

/// The four kinds of pattern, in the order in which they are resolved.
#[derive(Debug, Clone, Copy, PartialEq, Eq, Structural)]
pub enum PatternKind {
    /// A full test path without wildcards.
    ExactPath,
    /// A bare test name without wildcards.
    ExactName,
    /// A test path with wildcards.
    PathWildcard,
    /// A bare test name with wildcards.
    NameWildcard,
}

/// The kind of a pattern.
pub open spec fn kind_of(pattern: Seq<char>) -> PatternKind {
    if is_wildcard(pattern) {
        if is_path(pattern) {
            PatternKind::PathWildcard
        } else {
            PatternKind::NameWildcard
        }
    } else {
        if is_path(pattern) {
            PatternKind::ExactPath
        } else {
            PatternKind::ExactName
        }
    }
}

/// The part of `path[start..]` after the last separator found when reading
/// `path` from index `i` on, separators taken from left to right.
pub open spec fn last_segment_from(path: Seq<char>, start: int, i: int) -> Seq<char>
    decreases path.len() - i,
{
    if i < 0 || i + 2 > path.len() {
        path.skip(start)
    } else if path[i] == ':' && path[i + 1] == ':' {
        last_segment_from(path, i + 2, i + 2)
    } else {
        last_segment_from(path, start, i + 1)
    }
}

/// The name of a test: the last segment of its path.
pub open spec fn last_segment(path: Seq<char>) -> Seq<char> {
    last_segment_from(path, 0, 0)
}

/// Whether `pattern` selects the test with path `test`.
pub open spec fn selects(pattern: Seq<char>, test: Seq<char>) -> bool {
    match kind_of(pattern) {
        PatternKind::ExactPath => pattern == test,
        PatternKind::PathWildcard => wildcard_match(pattern, test),
        PatternKind::ExactName => wildcard_match(pattern, last_segment(test)),
        PatternKind::NameWildcard => wildcard_match(pattern, last_segment(test)),
    }
}

/// The predicate "is of kind `kind`".
pub open spec fn has_kind(kind: PatternKind) -> spec_fn(Seq<char>) -> bool {
    |p: Seq<char>| kind_of(p) == kind
}

/// The predicate "is matched by `pattern` as a path".
pub open spec fn path_matcher(pattern: Seq<char>) -> spec_fn(Seq<char>) -> bool {
    |t: Seq<char>| wildcard_match(pattern, t)
}

/// The predicate "is matched by `pattern` as a name".
pub open spec fn name_matcher(pattern: Seq<char>) -> spec_fn(Seq<char>) -> bool {
    |t: Seq<char>| wildcard_match(pattern, last_segment(t))
}

/// Whether some available test is selected by `pattern`.
pub open spec fn matches_any(available: Seq<Seq<char>>, pattern: Seq<char>) -> bool {
    exists|k: int| 0 <= k < available.len() && selects(pattern, #[trigger] available[k])
}

/// The predicate "selects none of the available tests".
pub open spec fn matches_none(available: Seq<Seq<char>>) -> spec_fn(Seq<char>) -> bool {
    |p: Seq<char>| !matches_any(available, p)
}

/// The patterns of one kind that select no available test, in their order.
pub open spec fn unmatched_of(
    available: Seq<Seq<char>>,
    patterns: Seq<Seq<char>>,
    kind: PatternKind,
) -> Seq<Seq<char>> {
    patterns.filter(has_kind(kind)).filter(matches_none(available))
}

/// All patterns that select no available test: exact paths first, then exact
/// names, path wildcards and name wildcards.
pub open spec fn unmatched(available: Seq<Seq<char>>, patterns: Seq<Seq<char>>) -> Seq<Seq<char>> {
    unmatched_of(available, patterns, PatternKind::ExactPath) + unmatched_of(
        available,
        patterns,
        PatternKind::ExactName,
    ) + unmatched_of(available, patterns, PatternKind::PathWildcard) + unmatched_of(
        available,
        patterns,
        PatternKind::NameWildcard,
    )
}

/// Whether `test` is available and selected by one of the patterns.
pub open spec fn is_selected(
    available: Seq<Seq<char>>,
    patterns: Seq<Seq<char>>,
    test: Seq<char>,
) -> bool {
    available.contains(test) && exists|k: int|
        0 <= k < patterns.len() && selects(#[trigger] patterns[k], test)
}

/// The kind of a pattern.
pub fn pattern_kind(pattern: &str) -> (kind: PatternKind)
    ensures
        kind == kind_of(pattern@),
{
    let p = chars_of(pattern);
    let mut sep: Vec<char> = Vec::new();
    sep.push(':');
    sep.push(':');
    assert(sep@ =~= separator());
    let wild = contains_char(&p, '*') || contains_char(&p, '?');
    let path = contains_chars(&p, &sep);
    if wild {
        if path {
            PatternKind::PathWildcard
        } else {
            PatternKind::NameWildcard
        }
    } else {
        if path {
            PatternKind::ExactPath
        } else {
            PatternKind::ExactName
        }
    }
}

/// Sorts the patterns by kind: exact paths, exact names, path wildcards and
/// name wildcards, each group in the order of `patterns`.
pub fn categorize_patterns(patterns: &[String]) -> (groups: (
    Vec<String>,
    Vec<String>,
    Vec<String>,
    Vec<String>,
))
    ensures
        texts(groups.0@) == texts(patterns@).filter(has_kind(PatternKind::ExactPath)),
        texts(groups.1@) == texts(patterns@).filter(has_kind(PatternKind::ExactName)),
        texts(groups.2@) == texts(patterns@).filter(has_kind(PatternKind::PathWildcard)),
        texts(groups.3@) == texts(patterns@).filter(has_kind(PatternKind::NameWildcard)),
{
    let mut exact_patterns: Vec<String> = Vec::new();
    let mut exact_names: Vec<String> = Vec::new();
    let mut path_wildcard_patterns: Vec<String> = Vec::new();
    let mut name_wildcard_patterns: Vec<String> = Vec::new();
    let ghost all = texts(patterns@);
    proof {
        assert(texts(Seq::<String>::empty()) =~= Seq::<Seq<char>>::empty());
        assert(exact_patterns@ =~= Seq::<String>::empty());
        assert(exact_names@ =~= Seq::<String>::empty());
        assert(path_wildcard_patterns@ =~= Seq::<String>::empty());
        assert(name_wildcard_patterns@ =~= Seq::<String>::empty());
        if all.len() > 0 {
            lemma_filter_take_step(all, has_kind(PatternKind::ExactPath), 0);
            lemma_filter_take_step(all, has_kind(PatternKind::ExactName), 0);
            lemma_filter_take_step(all, has_kind(PatternKind::PathWildcard), 0);
            lemma_filter_take_step(all, has_kind(PatternKind::NameWildcard), 0);
        } else {
            assert(all.take(0) =~= all);
            all.lemma_filter_len(has_kind(PatternKind::ExactPath));
            all.lemma_filter_len(has_kind(PatternKind::ExactName));
            all.lemma_filter_len(has_kind(PatternKind::PathWildcard));
            all.lemma_filter_len(has_kind(PatternKind::NameWildcard));
            assert(all.filter(has_kind(PatternKind::ExactPath)) =~= Seq::<Seq<char>>::empty());
            assert(all.filter(has_kind(PatternKind::ExactName)) =~= Seq::<Seq<char>>::empty());
            assert(all.filter(has_kind(PatternKind::PathWildcard)) =~= Seq::<Seq<char>>::empty());
            assert(all.filter(has_kind(PatternKind::NameWildcard)) =~= Seq::<Seq<char>>::empty());
        }
    }
    let mut i: usize = 0;
    while i < patterns.len()
        invariant
            i <= patterns.len(),
            all == texts(patterns@),
            all.len() == patterns@.len(),
            texts(exact_patterns@) == all.take(i as int).filter(has_kind(PatternKind::ExactPath)),
            texts(exact_names@) == all.take(i as int).filter(has_kind(PatternKind::ExactName)),
            texts(path_wildcard_patterns@) == all.take(i as int).filter(
                has_kind(PatternKind::PathWildcard),
            ),
            texts(name_wildcard_patterns@) == all.take(i as int).filter(
                has_kind(PatternKind::NameWildcard),
            ),
        decreases patterns.len() - i,
    {
        let pattern = &patterns[i];
        let kind = pattern_kind(pattern.as_str());
        let copy = pattern.clone();
        proof {
            assert(all[i as int] == pattern@);
            lemma_filter_take_step(all, has_kind(PatternKind::ExactPath), i as int);
            lemma_filter_take_step(all, has_kind(PatternKind::ExactName), i as int);
            lemma_filter_take_step(all, has_kind(PatternKind::PathWildcard), i as int);
            lemma_filter_take_step(all, has_kind(PatternKind::NameWildcard), i as int);
            lemma_texts_push(exact_patterns@, copy);
            lemma_texts_push(exact_names@, copy);
            lemma_texts_push(path_wildcard_patterns@, copy);
            lemma_texts_push(name_wildcard_patterns@, copy);
        }
        match kind {
            PatternKind::ExactPath => exact_patterns.push(copy),
            PatternKind::ExactName => exact_names.push(copy),
            PatternKind::PathWildcard => path_wildcard_patterns.push(copy),
            PatternKind::NameWildcard => name_wildcard_patterns.push(copy),
        }
        i += 1;
    }
    proof {
        assert(all.take(all.len() as int) =~= all);
    }
    (exact_patterns, exact_names, path_wildcard_patterns, name_wildcard_patterns)
}

/// The predicate "is selected by `pattern`".
pub open spec fn selector(pattern: Seq<char>) -> spec_fn(Seq<char>) -> bool {
    |t: Seq<char>| selects(pattern, t)
}

/// The predicate "is the path `pattern`".
pub open spec fn path_equals(pattern: Seq<char>) -> spec_fn(Seq<char>) -> bool {
    |t: Seq<char>| pattern == t
}

/// Membership in a filtered sequence.
proof fn lemma_filter_members<A>(s: Seq<A>, pred: spec_fn(A) -> bool)
    ensures
        forall|x: A| #[trigger] s.filter(pred).contains(x) <==> s.contains(x) && pred(x),
        s.filter(pred).len() > 0 <==> exists|k: int| 0 <= k < s.len() && pred(#[trigger] s[k]),
{
    let f = s.filter(pred);
    assert forall|x: A| #[trigger] f.contains(x) <==> s.contains(x) && pred(x) by {
        if f.contains(x) {
            let k = choose|k: int| 0 <= k < f.len() && f[k] == x;
            s.lemma_filter_pred(pred, k);
            s.lemma_filter_contains_rev(pred, x);
        }
        if s.contains(x) && pred(x) {
            let k = choose|k: int| 0 <= k < s.len() && s[k] == x;
            s.lemma_filter_contains(pred, k);
        }
    }
    if f.len() > 0 {
        assert(f.contains(f[0]));
        let k = choose|k: int| 0 <= k < s.len() && s[k] == f[0];
        assert(pred(s[k]));
    }
    if exists|k: int| 0 <= k < s.len() && pred(#[trigger] s[k]) {
        let k = choose|k: int| 0 <= k < s.len() && pred(#[trigger] s[k]);
        assert(s.contains(s[k]));
        assert(f.contains(s[k]));
    }
}

/// The name of a test: the part of its path after the last `::`.
pub fn test_name_of(test: &str) -> (name: String)
    ensures
        name@ == last_segment(test@),
{
    let path = chars_of(test);
    let mut start: usize = 0;
    let mut i: usize = 0;
    while path.len() - i >= 2
        invariant
            start <= i <= path.len(),
            last_segment_from(path@, start as int, i as int) == last_segment(path@),
        decreases path.len() - i,
    {
        if path[i] == ':' && path[i + 1] == ':' {
            i += 2;
            start = i;
        } else {
            i += 1;
        }
    }
    string_of(&path, start, path.len())
}

/// The available tests whose whole path `pattern` matches, in their order.
pub fn match_test_by_path(available_tests: &[String], pattern: &str) -> (matches: Vec<String>)
    ensures
        texts(matches@) == texts(available_tests@).filter(path_matcher(pattern@)),
{
    let mut matches: Vec<String> = Vec::new();
    let ghost all = texts(available_tests@);
    let ghost pred = path_matcher(pattern@);
    proof {
        assert(texts(matches@) =~= Seq::<Seq<char>>::empty());
        all.take(0).lemma_filter_len(pred);
    }
    let mut i: usize = 0;
    while i < available_tests.len()
        invariant
            i <= available_tests.len(),
            all == texts(available_tests@),
            all.len() == available_tests@.len(),
            pred == path_matcher(pattern@),
            texts(matches@) =~= all.take(i as int).filter(pred),
        decreases available_tests.len() - i,
    {
        let test = &available_tests[i];
        proof {
            assert(all[i as int] == test@);
            lemma_filter_take_step(all, pred, i as int);
        }
        if wild_matches(pattern, test.as_str()) {
            let copy = test.clone();
            proof {
                lemma_texts_push(matches@, copy);
            }
            matches.push(copy);
        }
        i += 1;
    }
    proof {
        assert(all.take(all.len() as int) =~= all);
    }
    matches
}

/// The available tests whose name, the last segment of the path, `pattern`
/// matches, in their order.
pub fn match_test_by_name(available_tests: &[String], pattern: &str) -> (matches: Vec<String>)
    ensures
        texts(matches@) == texts(available_tests@).filter(name_matcher(pattern@)),
{
    let mut matches: Vec<String> = Vec::new();
    let ghost all = texts(available_tests@);
    let ghost pred = name_matcher(pattern@);
    proof {
        assert(texts(matches@) =~= Seq::<Seq<char>>::empty());
        all.take(0).lemma_filter_len(pred);
    }
    let mut i: usize = 0;
    while i < available_tests.len()
        invariant
            i <= available_tests.len(),
            all == texts(available_tests@),
            all.len() == available_tests@.len(),
            pred == name_matcher(pattern@),
            texts(matches@) =~= all.take(i as int).filter(pred),
        decreases available_tests.len() - i,
    {
        let test = &available_tests[i];
        proof {
            assert(all[i as int] == test@);
            lemma_filter_take_step(all, pred, i as int);
        }
        let name = test_name_of(test.as_str());
        if wild_matches(pattern, name.as_str()) {
            let copy = test.clone();
            proof {
                lemma_texts_push(matches@, copy);
            }
            matches.push(copy);
        }
        i += 1;
    }
    proof {
        assert(all.take(all.len() as int) =~= all);
    }
    matches
}

/// The available tests whose path is exactly `pattern`, in their order.
pub fn match_test_exactly(available_tests: &[String], pattern: &String) -> (matches: Vec<String>)
    ensures
        texts(matches@) == texts(available_tests@).filter(path_equals(pattern@)),
{
    let mut matches: Vec<String> = Vec::new();
    let ghost all = texts(available_tests@);
    let ghost pred = path_equals(pattern@);
    proof {
        assert(texts(matches@) =~= Seq::<Seq<char>>::empty());
        all.take(0).lemma_filter_len(pred);
    }
    let mut i: usize = 0;
    while i < available_tests.len()
        invariant
            i <= available_tests.len(),
            all == texts(available_tests@),
            all.len() == available_tests@.len(),
            pred == path_equals(pattern@),
            texts(matches@) =~= all.take(i as int).filter(pred),
        decreases available_tests.len() - i,
    {
        let test = &available_tests[i];
        proof {
            assert(all[i as int] == test@);
            lemma_filter_take_step(all, pred, i as int);
        }
        if *pattern == *test {
            let copy = test.clone();
            proof {
                lemma_texts_push(matches@, copy);
            }
            matches.push(copy);
        }
        i += 1;
    }
    proof {
        assert(all.take(all.len() as int) =~= all);
    }
    matches
}

/// The available tests that `pattern` selects, in their order.
pub fn select_tests(available_tests: &[String], pattern: &String) -> (matches: Vec<String>)
    ensures
        texts(matches@) == texts(available_tests@).filter(selector(pattern@)),
        matches@.len() > 0 <==> matches_any(texts(available_tests@), pattern@),
        forall|t: Seq<char>| #[trigger]
            texts(matches@).contains(t) <==> texts(available_tests@).contains(t) && selects(
                pattern@,
                t,
            ),
{
    let kind = pattern_kind(pattern.as_str());
    let matches = match kind {
        PatternKind::ExactPath => {
            assert(path_equals(pattern@) =~= selector(pattern@));
            match_test_exactly(available_tests, pattern)
        },
        PatternKind::PathWildcard => {
            assert(path_matcher(pattern@) =~= selector(pattern@));
            match_test_by_path(available_tests, pattern.as_str())
        },
        PatternKind::ExactName => {
            assert(name_matcher(pattern@) =~= selector(pattern@));
            match_test_by_name(available_tests, pattern.as_str())
        },
        PatternKind::NameWildcard => {
            assert(name_matcher(pattern@) =~= selector(pattern@));
            match_test_by_name(available_tests, pattern.as_str())
        },
    };
    proof {
        lemma_filter_members(texts(available_tests@), selector(pattern@));
        lemma_texts_take(matches@, 0);
    }
    matches
}

/// Whether `test` is available and selected by one of the first `n` patterns.
pub open spec fn selected_by_prefix(
    available: Seq<Seq<char>>,
    patterns: Seq<Seq<char>>,
    n: int,
    test: Seq<char>,
) -> bool {
    available.contains(test) && exists|k: int|
        0 <= k < n && k < patterns.len() && selects(#[trigger] patterns[k], test)
}

/// Resolves the patterns of one group: the tests they select join
/// `selected`, the patterns that select nothing join `invalid`.
fn resolve_group(
    available_tests: &[String],
    group: &Vec<String>,
    selected: &mut Vec<String>,
    invalid: &mut Vec<String>,
)
    requires
        names_ascending(texts(old(selected)@)),
    ensures
        names_ascending(texts(final(selected)@)),
        forall|t: Seq<char>| #[trigger]
            texts(final(selected)@).contains(t) <==> (texts(old(selected)@).contains(t)
                || selected_by_prefix(
                texts(available_tests@),
                texts(group@),
                group@.len() as int,
                t,
            )),
        texts(final(invalid)@) == texts(old(invalid)@) + texts(group@).filter(
            matches_none(texts(available_tests@)),
        ),
{
    let ghost available = texts(available_tests@);
    let ghost all = texts(group@);
    let ghost none = matches_none(available);
    proof {
        all.take(0).lemma_filter_len(none);
        assert(texts(invalid@) =~= texts(old(invalid)@) + all.take(0).filter(none));
    }
    let mut i: usize = 0;
    while i < group.len()
        invariant
            i <= group.len(),
            available == texts(available_tests@),
            all == texts(group@),
            all.len() == group@.len(),
            none == matches_none(available),
            names_ascending(texts(selected@)),
            forall|t: Seq<char>| #[trigger]
                texts(selected@).contains(t) <==> (texts(old(selected)@).contains(t)
                    || selected_by_prefix(available, all, i as int, t)),
            texts(invalid@) == texts(old(invalid)@) + all.take(i as int).filter(none),
        decreases group.len() - i,
    {
        let pattern = &group[i];
        let matches = select_tests(available_tests, pattern);
        proof {
            assert(all[i as int] == pattern@);
            lemma_filter_take_step(all, none, i as int);
        }
        let ghost at_start = texts(selected@);
        if matches.len() > 0 {
            let mut k: usize = 0;
            while k < matches.len()
                invariant
                    k <= matches.len(),
                    names_ascending(texts(selected@)),
                    forall|t: Seq<char>| #[trigger]
                        texts(selected@).contains(t) <==> (at_start.contains(t) || texts(
                            matches@,
                        ).take(k as int).contains(t)),
                decreases matches.len() - k,
            {
                let ghost before = texts(selected@);
                let ghost m = texts(matches@);
                let copy = matches[k].clone();
                insert_sorted(selected, copy);
                proof {
                    assert(m[k as int] == copy@);
                    assert(m.take(k + 1) =~= m.take(k as int).push(m[k as int]));
                    assert forall|t: Seq<char>| #[trigger]
                        texts(selected@).contains(t) <==> (at_start.contains(t) || m.take(
                            k + 1,
                        ).contains(t)) by {
                        vstd::seq_lib::lemma_seq_contains_after_push(
                            m.take(k as int),
                            m[k as int],
                            t,
                        );
                    }
                }
                k += 1;
            }
            proof {
                let m = texts(matches@);
                assert(m.take(m.len() as int) =~= m);
                assert forall|t: Seq<char>| #[trigger]
                    texts(selected@).contains(t) <==> (texts(old(selected)@).contains(t)
                        || selected_by_prefix(available, all, i + 1, t)) by {
                    if selected_by_prefix(available, all, i + 1, t) {
                        let j = choose|j: int|
                            0 <= j < i + 1 && j < all.len() && selects(#[trigger] all[j], t);
                        if j < i {
                            assert(selected_by_prefix(available, all, i as int, t));
                        }
                    }
                    if m.contains(t) {
                        assert(selects(all[i as int], t));
                    }
                    if selected_by_prefix(available, all, i as int, t) {
                        let j = choose|j: int|
                            0 <= j < i && j < all.len() && selects(#[trigger] all[j], t);
                        assert(selects(all[j], t));
                    }
                }
            }
        } else {
            let copy = pattern.clone();
            proof {
                lemma_texts_push(invalid@, copy);
                assert(texts(invalid@).push(copy@) =~= texts(old(invalid)@) + all.take(
                    i as int,
                ).filter(none).push(copy@));
                assert forall|t: Seq<char>| #[trigger]
                    texts(selected@).contains(t) <==> (texts(old(selected)@).contains(t)
                        || selected_by_prefix(available, all, i + 1, t)) by {
                    if selected_by_prefix(available, all, i + 1, t) {
                        let j = choose|j: int|
                            0 <= j < i + 1 && j < all.len() && selects(#[trigger] all[j], t);
                        if j < i {
                            assert(selected_by_prefix(available, all, i as int, t));
                        } else {
                            let x = choose|x: int| 0 <= x < available.len() && available[x] == t;
                            assert(selects(pattern@, available[x]));
                        }
                    }
                    if selected_by_prefix(available, all, i as int, t) {
                        let j = choose|j: int|
                            0 <= j < i && j < all.len() && selects(#[trigger] all[j], t);
                        assert(selects(all[j], t));
                    }
                }
            }
            invalid.push(copy);
        }
        i += 1;
    }
    proof {
        assert(all.take(all.len() as int) =~= all);
    }
}

/// A test selected by a pattern of one kind is selected by a pattern.
proof fn lemma_group_selects(
    available: Seq<Seq<char>>,
    patterns: Seq<Seq<char>>,
    kind: PatternKind,
    test: Seq<char>,
)
    ensures
        selected_by_prefix(
            available,
            patterns.filter(has_kind(kind)),
            patterns.filter(has_kind(kind)).len() as int,
            test,
        ) <==> available.contains(test) && exists|k: int|
            0 <= k < patterns.len() && kind_of(patterns[k]) == kind && selects(
                #[trigger] patterns[k],
                test,
            ),
{
    let group = patterns.filter(has_kind(kind));
    lemma_filter_members(patterns, has_kind(kind));
    if selected_by_prefix(available, group, group.len() as int, test) {
        let j = choose|j: int| 0 <= j < group.len() && selects(#[trigger] group[j], test);
        assert(group.contains(group[j]));
        let k = choose|k: int| 0 <= k < patterns.len() && patterns[k] == group[j];
        assert(kind_of(patterns[k]) == kind && selects(patterns[k], test));
    }
    if available.contains(test) && exists|k: int|
        0 <= k < patterns.len() && kind_of(patterns[k]) == kind && selects(
            #[trigger] patterns[k],
            test,
        ) {
        let k = choose|k: int|
            0 <= k < patterns.len() && kind_of(patterns[k]) == kind && selects(
                #[trigger] patterns[k],
                test,
            );
        assert(patterns.contains(patterns[k]));
        assert(group.contains(patterns[k]));
        let j = choose|j: int| 0 <= j < group.len() && group[j] == patterns[k];
        assert(selects(group[j], test));
    }
}

/// Resolves test patterns to test names.
///
/// Returns the available tests that some pattern selects, in ascending
/// dictionary order and each once, and the patterns that select no test:
/// exact paths first, then exact names, path wildcards and name wildcards.
pub fn resolve_test_patterns(available_tests: &[String], patterns: &[String]) -> (result: (
    Vec<String>,
    Vec<String>,
))
    ensures
        names_ascending(texts(result.0@)),
        forall|t: Seq<char>| #[trigger]
            texts(result.0@).contains(t) <==> is_selected(
                texts(available_tests@),
                texts(patterns@),
                t,
            ),
        texts(result.1@) == unmatched(texts(available_tests@), texts(patterns@)),
{
    let mut selected_tests: Vec<String> = Vec::new();
    let mut invalid_patterns: Vec<String> = Vec::new();
    let ghost available = texts(available_tests@);
    let ghost all = texts(patterns@);
    proof {
        assert(texts(selected_tests@) =~= Seq::<Seq<char>>::empty());
        assert(texts(invalid_patterns@) =~= Seq::<Seq<char>>::empty());
    }

    let (exact_patterns, exact_names, path_wildcard_patterns, name_wildcard_patterns) =
        categorize_patterns(patterns);

    resolve_group(available_tests, &exact_patterns, &mut selected_tests, &mut invalid_patterns);
    resolve_group(available_tests, &exact_names, &mut selected_tests, &mut invalid_patterns);
    resolve_group(
        available_tests,
        &path_wildcard_patterns,
        &mut selected_tests,
        &mut invalid_patterns,
    );
    resolve_group(
        available_tests,
        &name_wildcard_patterns,
        &mut selected_tests,
        &mut invalid_patterns,
    );

    proof {
        assert(texts(invalid_patterns@) =~= unmatched(available, all));
        assert forall|t: Seq<char>| #[trigger]
            texts(selected_tests@).contains(t) <==> is_selected(available, all, t) by {
            lemma_group_selects(available, all, PatternKind::ExactPath, t);
            lemma_group_selects(available, all, PatternKind::ExactName, t);
            lemma_group_selects(available, all, PatternKind::PathWildcard, t);
            lemma_group_selects(available, all, PatternKind::NameWildcard, t);
            lemma_texts_take(exact_patterns@, 0);
            lemma_texts_take(exact_names@, 0);
            lemma_texts_take(path_wildcard_patterns@, 0);
            lemma_texts_take(name_wildcard_patterns@, 0);
            if is_selected(available, all, t) {
                let k = choose|k: int| 0 <= k < all.len() && selects(#[trigger] all[k], t);
                assert(kind_of(all[k]) == PatternKind::ExactPath || kind_of(all[k])
                    == PatternKind::ExactName || kind_of(all[k]) == PatternKind::PathWildcard
                    || kind_of(all[k]) == PatternKind::NameWildcard);
            }
        }
    }
    (selected_tests, invalid_patterns)
}

} // verus!
