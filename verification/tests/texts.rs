use codesearch::chars::{is_alphanumeric, is_lowercase, is_uppercase, to_lowercase};
use codesearch::glob::{match_suffix_with_star, simple_glob_match, single_segment_match};
use codesearch::numbers::{parse_number, to_decimal};
use codesearch::paths::{
    join, normalize_path_str, normalize_root, normalize_tool_path, prefix_path_by_root,
    prefix_path_multi, prefix_path_with_alias, relative_path, strip_alias_prefix, AliasRoot,
};
use codesearch::score::{rank, Score};
use codesearch::sorting::sort_places;
use codesearch::text::{
    chars_before_byte, chars_of, find, has_bytes, lines, split, string_of, trim,
    words, write_out,
};

fn texts(parts: Vec<Vec<char>>) -> Vec<String> {
    parts.iter().map(|p| p.iter().collect()).collect()
}

#[test]
fn texts_are_taken_apart_as_std_does() {
    for s in ["", "a", "a/b", "/a//b/", "über/straße", "one two\tthree", " x ", "a\r\nb\n\nc\n", "\n", "\r"] {
        let c = chars_of(s);
        let parts: Vec<String> = s.split('/').map(|p| p.to_string()).collect();
        assert_eq!(texts(split(&c, '/')), parts);
        let all: Vec<String> = s.lines().map(|p| p.to_string()).collect();
        assert_eq!(texts(lines(&c)), all);
        let each: Vec<String> = s.split_whitespace().map(|p| p.to_string()).collect();
        assert_eq!(texts(words(&c)), each);
        assert_eq!(string_of(trim(&c)), s.trim());
        assert!(has_bytes(&c, s.len()));
        assert!(!has_bytes(&c, s.len() + 1));
    }
}

#[test]
fn splitting_is_undone_by_joining() {
    for s in ["", "a,b", ",", "x,,y"] {
        let parts = split(&chars_of(s), ',');
        let back: String = codesearch::text::join(&parts, ',').iter().collect();
        assert_eq!(back, s);
    }
}

#[test]
fn finding_and_replacing() {
    let s = chars_of("ababa");
    assert_eq!(find(&s, &chars_of("aba")), Some(0));
    assert_eq!(find(&s, &chars_of("bab")), Some(1));
    assert_eq!(find(&s, &chars_of("x")), None);
    assert_eq!(string_of(&write_out(&s, &chars_of("ab"), &chars_of("-"))), "ababa".replace("ab", "-"));
    assert_eq!(chars_before_byte(&chars_of("aéb"), 3), 2);
}

#[test]
fn numbers_are_read_back() {
    for n in [0u64, 7, 10, 4096, u64::MAX] {
        let text: String = to_decimal(n).iter().collect();
        assert_eq!(text, n.to_string());
        assert_eq!(parse_number(&to_decimal(n), u64::MAX), Some(n));
    }
    for text in ["", "+", "+5", "-5", "5x", "18446744073709551616", "007"] {
        assert_eq!(parse_number(&chars_of(text), u64::MAX), text.parse::<u64>().ok(), "{}", text);
    }
    assert_eq!(parse_number(&chars_of("256"), 255), None);
}

#[test]
fn sorting_is_stable() {
    assert_eq!(sort_places(&vec![3usize, 1, 3, 2]), vec![1, 3, 0, 2]);
    let scores: Vec<Score> =
        [0.5f32, 0.9, 0.5, -1.0].iter().map(|x| Score::from_bits(x.to_bits())).collect();
    assert_eq!(rank(&scores), vec![1, 0, 2, 3]);
}

#[test]
fn scores_compare_as_floats() {
    let values = [0.0f32, -0.0, 1.0, -1.0, 0.02, f32::INFINITY, f32::NEG_INFINITY, f32::MIN_POSITIVE, f32::NAN];
    for a in values {
        for b in values {
            let (x, y) = (Score::from_bits(a.to_bits()), Score::from_bits(b.to_bits()));
            assert_eq!(x.less(y), a < b, "{} {}", a, b);
        }
    }
}

#[test]
fn normal_paths_stay() {
    let n = normalize_path_str(r"\\?\C:\repo\src");
    assert_eq!(n, "C:/repo/src");
    assert_eq!(normalize_path_str(&n), n);
    assert_eq!(normalize_root("/repo///"), "/repo");
    assert_eq!(join("/a", "b"), "/a/b");
    assert_eq!(join("/a/", "b"), "/a/b");
    assert_eq!(join("/a", "/b"), "/b");
    assert_eq!(relative_path("/repo/src/a.rs", "/repo"), "src/a.rs");
    assert_eq!(relative_path("/other/a.rs", "/repo"), "other/a.rs");
}

#[test]
fn an_alias_stands_for_the_root() {
    let shown = prefix_path_with_alias("/r/src/a.rs", Some("web"), "/r");
    assert_eq!(shown, "web/src/a.rs");
    let alias = "web".to_string();
    assert_eq!(strip_alias_prefix(&shown, Some(&alias)), "src/a.rs");
    assert_eq!(strip_alias_prefix("src/a.rs", Some(&alias)), "src/a.rs");
    assert_eq!(strip_alias_prefix("src/a.rs", None), "src/a.rs");
    let roots = vec![
        AliasRoot { alias: "web".to_string(), root: "/w".to_string() },
        AliasRoot { alias: "api".to_string(), root: "/a".to_string() },
    ];
    let names = vec!["web".to_string(), "api".to_string()];
    assert_eq!(prefix_path_multi("/a/x.rs", &names, &roots), "api/x.rs");
    assert_eq!(prefix_path_multi("/c/x.rs", &names, &roots), "/c/x.rs");
    assert_eq!(normalize_tool_path("src/a.rs", "/r"), "/r/src/a.rs");
    assert_eq!(normalize_tool_path("/r/src/a.rs", "/r"), "/r/src/a.rs");
}

#[test]
fn stars_stay_in_their_segment() {
    assert!(single_segment_match("*.rs", "main.rs"));
    assert!(!single_segment_match("*.rs", "main.ts"));
    assert!(single_segment_match("*", "a/b"));
    assert!(single_segment_match("a*c*", "a/b/c/d"));
    assert!(!single_segment_match("a*c", "ab"));
    assert!(!simple_glob_match("*", "a/b"));
    assert!(match_suffix_with_star("*.rs", "deep/main.rs"));
    assert!(simple_glob_match("src/**", "src/a/b.rs"));
    assert!(!simple_glob_match("src/**", "srcx/a.rs"));
    assert!(simple_glob_match("**/*.rs", "main.rs"));
}

#[test]
fn a_root_owns_no_neighbour() {
    let roots = vec![
        AliasRoot { alias: "app".to_string(), root: "/w/app".to_string() },
        AliasRoot { alias: "app2".to_string(), root: "/w/app2".to_string() },
    ];
    let names = vec!["app".to_string(), "app2".to_string()];
    assert_eq!(prefix_path_multi("/w/app2/x.rs", &names, &roots), "app2/x.rs");
    assert_eq!(prefix_path_multi("/w/app/x.rs", &names, &roots), "app/x.rs");
    assert_eq!(prefix_path_multi("/w/app3/x.rs", &names, &roots), "/w/app3/x.rs");
    assert_eq!(prefix_path_by_root(r"\w\app2\x.rs", &roots), "app2/x.rs");
    assert_eq!(prefix_path_with_alias("/w/app2/x.rs", Some("app"), "/w/app"), "/w/app2/x.rs");
    assert_eq!(prefix_path_with_alias("/w/app", Some("app"), "/w/app/"), "app/");
    assert_eq!(prefix_path_with_alias("/w/x.rs", Some("all"), "/"), "all/w/x.rs");
}

#[test]
fn lower_case_of_letters() {
    assert_eq!(to_lowercase("Main.RS 9"), "main.rs 9");
    assert_eq!(to_lowercase("ÄÉ"), "äé");
    assert!(is_uppercase('Q') && is_uppercase('Ä') && !is_uppercase('q') && !is_uppercase('_'));
    assert!(is_lowercase('q') && is_lowercase('ä') && !is_lowercase('Q') && !is_lowercase('1'));
    assert!(is_alphanumeric('7') && is_alphanumeric('ß') && !is_alphanumeric('_'));
}
