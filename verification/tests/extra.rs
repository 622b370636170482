use rshifter::collate::{magic, Rank};
use rshifter::color::Color;
use rshifter::lines::sort_items;
use rshifter::shifter::line_rotations;
use rshifter::text::{dec_string, ordinal_string, split_words};
use rshifter::{Direction, Item, RapidShifter, RapidShifterIter, RapidShifterLines, ShiftError};

#[test]
fn iter_left_rotates_before_first_emission() {
    let mut it = RapidShifterIter::new(vec!["a", "b", "c"], None, Direction::Left);
    assert_eq!(it.next(), Some("b c a".to_string()));
    assert_eq!(it.next(), Some("c a b".to_string()));
    assert_eq!(it.next(), Some("a b c".to_string()));
    assert_eq!(it.next(), None);
}

#[test]
fn iter_right_rotates_before_first_emission() {
    let mut it = RapidShifterIter::new(vec!["a", "b", "c"], None, Direction::Right);
    assert_eq!(it.next(), Some("c a b".to_string()));
    assert_eq!(it.next(), Some("b c a".to_string()));
    assert_eq!(it.next(), Some("a b c".to_string()));
    assert_eq!(it.next(), None);
}

#[test]
fn iter_left_and_right_same_set() {
    let mut left = Vec::new();
    let mut it = RapidShifterIter::new(vec!["x", "y", "z", "w"], None, Direction::Left);
    while let Some(s) = it.next() {
        left.push(s);
    }
    let mut right = Vec::new();
    let mut it = RapidShifterIter::new(vec!["x", "y", "z", "w"], None, Direction::Right);
    while let Some(s) = it.next() {
        right.push(s);
    }
    assert_eq!(left.len(), 4);
    assert_eq!(right.len(), 4);
    left.sort();
    right.sort();
    assert_eq!(left, right);
}

#[test]
fn iter_custom_length_wraps_around() {
    let mut it = RapidShifterIter::new(vec!["a", "b", "c"], Some(5), Direction::Left);
    let mut seen = Vec::new();
    while let Some(s) = it.next() {
        seen.push(s);
    }
    assert_eq!(seen, ["b c a", "c a b", "a b c", "b c a", "c a b"]);
}

#[test]
fn iter_no_tokens_is_exhausted_immediately() {
    let mut it = RapidShifterIter::new(vec![], None, Direction::Left);
    assert_eq!(it.next(), None);
}

#[test]
fn collation_orders_lower_before_upper() {
    assert_eq!(magic("a", "A"), Rank::Less);
    assert_eq!(magic("A", "b"), Rank::Less);
    assert_eq!(magic("b", "a"), Rank::Greater);
    assert_eq!(magic("x", "x"), Rank::Equal);
}

#[test]
fn collation_longer_string_sorts_first() {
    assert_eq!(magic("abc", "ab"), Rank::Less);
    assert_eq!(magic("ab", "abc"), Rank::Greater);
}

#[test]
fn color_wraps_in_escape_pair() {
    assert_eq!(Color::Red.color("hi"), "\u{1b}[31mhi\u{1b}[0m");
    assert_eq!(Color::Cyan.color(""), "\u{1b}[36m\u{1b}[0m");
}

#[test]
fn split_words_on_ascii_whitespace() {
    assert_eq!(split_words("  a\tb  c "), ["a", "b", "c"]);
    assert_eq!(split_words(""), Vec::<String>::new());
}

#[test]
fn decimal_and_ordinal_rendering() {
    assert_eq!(dec_string(0), "0");
    assert_eq!(dec_string(120), "120");
    assert_eq!(ordinal_string(7), "07");
    assert_eq!(ordinal_string(12), "12");
}

#[test]
fn url_token_is_split_off() {
    let s = RapidShifter::new("hello world http://www.example.com".to_string());
    assert_eq!(s.desc().as_str(), "hello world");
    assert_eq!(s.url().as_deref(), Some("http://www.example.com"));
}

#[test]
fn non_url_trailing_token_stays_in_desc() {
    let s = RapidShifter::new("  hello world notaurl  ".to_string());
    assert_eq!(s.desc().as_str(), "hello world notaurl");
    assert_eq!(*s.url(), None);
}

#[test]
fn ftp_scheme_is_recognized() {
    let s = RapidShifter::new("fetch ftp://files.example.org/pub".to_string());
    assert_eq!(s.desc().as_str(), "fetch");
    assert_eq!(s.url().as_deref(), Some("ftp://files.example.org/pub"));
}

#[test]
fn malformed_scheme_is_not_a_url() {
    let s = RapidShifter::new("fetch htp://files.example.org".to_string());
    assert_eq!(*s.url(), None);
    let s = RapidShifter::new("go http:///nohost".to_string());
    assert_eq!(*s.url(), None);
}

#[test]
fn get_out_of_range_is_an_error() {
    let mut s = RapidShifter::new("aaa bbb".to_string());
    assert_eq!(s.get(2), Err(ShiftError::OutOfRange));
    assert_eq!(s.get(usize::MAX), Err(ShiftError::OutOfRange));
}

#[test]
fn get_appends_url_or_placeholder() {
    let mut s = RapidShifter::new("aaa bbb".to_string());
    assert_eq!(s.get(0), Ok("aaa bbb <None>".to_string()));
    let mut s = RapidShifter::new("aaa bbb http://x.net".to_string());
    assert_eq!(s.get(0), Ok("aaa bbb http://x.net".to_string()));
    assert_eq!(s.get(1), Ok("bbb aaa http://x.net".to_string()));
}

#[test]
fn search_single_word_matches_every_position() {
    let mut s = RapidShifter::new("aaa bbb ccc".to_string());
    assert_eq!(s.search("bbb".to_string(), false), Some(vec![0, 1, 2]));
}

#[test]
fn search_in_url_matches_every_position() {
    let mut s = RapidShifter::new("aaa bbb http://x.net".to_string());
    assert_eq!(s.search("x.net".to_string(), true), Some(vec![0, 1]));
}

#[test]
fn search_without_match_returns_none() {
    let mut s = RapidShifter::new("aaa bbb".to_string());
    assert_eq!(s.search("zzz".to_string(), false), None);
}

#[test]
fn search_equal_length_pattern_can_match() {
    let mut s = RapidShifter::new("a b".to_string());
    assert_eq!(s.search("b a".to_string(), false), Some(vec![1]));
}

#[test]
fn search_longer_pattern_short_circuits() {
    let mut s = RapidShifter::new("a b".to_string());
    assert_eq!(s.search("b a c".to_string(), false), None);
}

#[test]
fn search_scans_rotations_for_spanning_patterns() {
    let mut s = RapidShifter::new("aa bb cc".to_string());
    assert_eq!(s.search("bb cc".to_string(), false), Some(vec![0, 1]));
}

#[test]
fn search_with_url_scans_the_suffix_too() {
    let mut s = RapidShifter::new("aa bb cc".to_string());
    assert_eq!(s.search("bb <None>".to_string(), true), Some(vec![2]));
}

#[test]
fn search_on_empty_index_reports_absence() {
    let mut s = RapidShifter::new("".to_string());
    assert_eq!(s.search("".to_string(), false), None);
    assert_eq!(s.search("".to_string(), true), None);
    assert_eq!(s.get(0), Err(ShiftError::OutOfRange));
}

#[test]
fn regex_search_matches_anchored_pattern() {
    let mut s = RapidShifter::new("aaa bbb".to_string());
    assert_eq!(s.regex_search("^bbb", false), Ok(Some(vec![1])));
    assert_eq!(s.regex_search("zzz", false), Ok(None));
}

#[test]
fn regex_search_reports_syntax_errors() {
    let mut s = RapidShifter::new("aaa bbb".to_string());
    match s.regex_search("(", false) {
        Err(ShiftError::RegexSyntax { pattern }) => assert_eq!(pattern, "("),
        other => panic!("expected a syntax error, got {other:?}"),
    }
}

#[test]
fn regex_search_reports_oversize_patterns() {
    let mut s = RapidShifter::new("aaa bbb".to_string());
    match s.regex_search("\\w{1000}", false) {
        Err(ShiftError::RegexCompiledTooBig { pattern, size }) => {
            assert_eq!(pattern, "\\w{1000}");
            assert!(size > 0);
        },
        other => panic!("expected an oversize error, got {other:?}"),
    }
}

#[test]
fn lines_merge_and_sort_all_rotations() {
    let mut ml = RapidShifterLines::new(vec![
        "aaa bbb".to_string(),
        "ccc ddd http://x.net".to_string(),
    ]);
    assert_eq!(ml.shifts(), ["aaa bbb", "bbb aaa", "ccc ddd", "ddd ccc"]);
}

#[test]
fn lines_get_resolves_interned_urls() {
    let mut ml = RapidShifterLines::new(vec![
        "aaa bbb".to_string(),
        "ccc ddd http://x.net".to_string(),
    ]);
    assert_eq!(ml.get(0), Ok("aaa bbb <None>".to_string()));
    assert_eq!(ml.get(3), Ok("ddd ccc http://x.net".to_string()));
    assert_eq!(ml.get(4), Err(ShiftError::OutOfRange));
}

#[test]
fn lines_identical_urls_get_distinct_ids() {
    let ml = RapidShifterLines::new(vec![
        "a http://same.org".to_string(),
        "b http://same.org".to_string(),
    ]);
    assert_eq!(ml.lines()[0].url_id, Some(1));
    assert_eq!(ml.lines()[1].url_id, Some(2));
    assert_eq!(ml.urls(), &["http://same.org", "http://same.org"]);
}

#[test]
fn lines_equal_rotation_texts_order_by_id() {
    let mut ml = RapidShifterLines::new(vec![
        "x http://a.org".to_string(),
        "x http://b.org".to_string(),
    ]);
    assert_eq!(ml.get(0), Ok("x http://a.org".to_string()));
    assert_eq!(ml.get(1), Ok("x http://b.org".to_string()));
}

#[test]
fn install_accepts_a_prebuilt_cache() {
    let mut ml = RapidShifterLines::new(vec![
        "aaa bbb".to_string(),
        "ccc ddd http://x.net".to_string(),
    ]);
    let pieces: Vec<(String, Option<u64>)> = ml
        .lines()
        .iter()
        .map(|t| (t.desc.clone(), t.url_id))
        .collect();
    let mut merged: Vec<Item> = Vec::new();
    for (desc, id) in pieces {
        for s in line_rotations(&desc) {
            merged.push(Item::new(s, id));
        }
    }
    ml.install(sort_items(merged));
    assert_eq!(ml.shifts(), ["aaa bbb", "bbb aaa", "ccc ddd", "ddd ccc"]);
    assert_eq!(ml.get(3), Ok("ddd ccc http://x.net".to_string()));
}

#[test]
fn lines_search_scans_each_entry() {
    let mut ml = RapidShifterLines::new(vec![
        "aaa bbb".to_string(),
        "ccc ddd http://x.net".to_string(),
    ]);
    assert_eq!(ml.search("ddd".to_string(), false), Some(vec![2, 3]));
    assert_eq!(ml.search("x.net".to_string(), true), Some(vec![2, 3]));
    assert_eq!(ml.search("zzz".to_string(), false), None);
}

#[test]
fn lines_regex_search_scans_each_entry() {
    let mut ml = RapidShifterLines::new(vec![
        "aaa bbb".to_string(),
        "ccc ddd http://x.net".to_string(),
    ]);
    assert_eq!(ml.regex_search("^ddd", false), Ok(Some(vec![3])));
    match ml.regex_search("[", false) {
        Err(ShiftError::RegexSyntax { pattern }) => assert_eq!(pattern, "["),
        other => panic!("expected a syntax error, got {other:?}"),
    }
}

#[test]
fn render_all_plain_and_verbose() {
    let mut s = RapidShifter::new("xyz".to_string());
    assert_eq!(s.render_all(false), ["xyz <None>"]);
    assert_eq!(
        s.render_all(true),
        ["\u{1b}[35m[01] \u{1b}[0m\u{1b}[34mxyz\u{1b}[0m \u{1b}[33m<None>\u{1b}[0m"]
    );
}

#[test]
fn lines_render_all_resolves_urls() {
    let mut ml = RapidShifterLines::new(vec!["aaa bbb".to_string()]);
    assert_eq!(ml.render_all(false), ["aaa bbb <None>", "bbb aaa <None>"]);
}
