use compact_mcp::json::{set_member, Json};
use compact_mcp::order::{rank, sort_texts, Rank};
use compact_mcp::path::{
    is_absolute, is_single_normal_component, join as join_path, parse_components, AbsPath,
    Component,
};
use compact_mcp::text::{
    contains_text, decimal, decimal_signed, is_white_space, join, lines, parse_unsigned,
    split_fields, trimmed,
};
use compact_mcp::time::Duration;
use std::path::Path;

#[test]
fn numbers_are_written_and_read_in_decimal() {
    for n in [0u128, 7, 10, 99, 100, u64::MAX as u128, u128::MAX] {
        assert_eq!(decimal(n), n.to_string());
    }
    for n in [0i32, -1, 1, i32::MIN, i32::MAX] {
        assert_eq!(decimal_signed(n), n.to_string());
    }
    for t in ["0", "007", "+5", "", "+", "-1", "1 ", "18446744073709551615", "18446744073709551616", "\u{0663}"] {
        assert_eq!(parse_unsigned(t, u64::MAX), t.parse::<u64>().ok(), "{t:?}");
        assert_eq!(
            parse_unsigned(t, u32::MAX as u64),
            t.parse::<u32>().ok().map(u64::from),
            "{t:?}"
        );
    }
}

#[test]
fn white_space_is_what_the_standard_library_says() {
    for n in 0..=0x10FFFFu32 {
        if let Some(c) = char::from_u32(n) {
            assert_eq!(is_white_space(c), c.is_whitespace(), "{n:#x}");
        }
    }
}

#[test]
fn texts_are_trimmed_split_and_joined_as_in_the_standard_library() {
    for t in ["", " ", " a ", "\u{3000}a\u{3000}", "a b", "\n\ta\r\n"] {
        assert_eq!(trimmed(t), t.trim(), "{t:?}");
    }
    for t in ["", "\n", "a", "a\n", "a\n\nb", "a\r\nb\r", "\r\n", "a\rb\n"] {
        assert_eq!(lines(t), t.lines().collect::<Vec<_>>(), "{t:?}");
    }
    for t in ["", ",", "a,b", ",a,", "ab"] {
        assert_eq!(split_fields(t, ','), t.split(',').collect::<Vec<_>>(), "{t:?}");
    }
    let parts: Vec<String> = vec!["a".into(), "".into(), "c".into()];
    assert_eq!(join(&parts, ", "), parts.join(", "));
    assert_eq!(join(&vec![], ", "), "");
    for (t, p) in [("abc", ""), ("abc", "bc"), ("abc", "cb"), ("", ""), ("", "a"), ("aab", "ab")] {
        assert_eq!(contains_text(t, p), t.contains(p), "{t:?} {p:?}");
    }
}

#[test]
fn texts_are_ordered_as_in_the_standard_library() {
    let all = ["", "a", "ab", "b", "\u{e9}", "\u{ffff}", "\u{1f600}", "B", "a\u{0}"];
    for a in all {
        for b in all {
            let expected = if a < b {
                Rank::Before
            } else if a == b {
                Rank::Same
            } else {
                Rank::After
            };
            assert_eq!(rank(a, b), expected, "{a:?} {b:?}");
        }
    }
    let mut sorted: Vec<String> = all.iter().map(|s| s.to_string()).collect();
    sorted.push("a".to_string());
    let ours = sort_texts(sorted.clone());
    sorted.sort();
    assert_eq!(ours, sorted);
}

fn components_of(p: &str) -> Vec<String> {
    parse_components(p)
        .into_iter()
        .map(|c| match c {
            Component::CurDir => ".".to_string(),
            Component::ParentDir => "..".to_string(),
            Component::Normal(s) => s,
        })
        .collect()
}

#[test]
fn paths_are_taken_apart_as_in_the_standard_library() {
    for p in ["", "/", "a", "a/b", "/a//b/", "./a", "a/./b", "/./a", "../a", "a/..", ".", "..", "//a", "a/."] {
        let expected: Vec<String> = Path::new(p)
            .components()
            .filter(|c| !matches!(c, std::path::Component::RootDir))
            .map(|c| c.as_os_str().to_str().unwrap().to_string())
            .collect();
        assert_eq!(components_of(p), expected, "{p:?}");
        assert_eq!(is_absolute(p), Path::new(p).is_absolute(), "{p:?}");
        let mut cs = Path::new(p).components();
        let single = matches!(
            (cs.next(), cs.next()),
            (Some(std::path::Component::Normal(c)), None) if c.to_str() == Some(p)
        );
        assert_eq!(is_single_normal_component(p), single, "{p:?}");
        for base in ["/", "/b", "/b/", ""] {
            assert_eq!(
                join_path(base, p),
                Path::new(base).join(p).to_str().unwrap(),
                "{base:?} {p:?}"
            );
        }
    }
}

#[test]
fn only_a_bare_name_is_a_single_component() {
    for good in ["a", "a.b", "...", " ", "a b"] {
        assert!(is_single_normal_component(good), "{good:?}");
    }
    for bad in ["", ".", "..", "/", "a/", "a/.", "./a", "a//", "a/b", "/a"] {
        assert!(!is_single_normal_component(bad), "{bad:?}");
    }
}

#[test]
fn absolute_paths_are_read_back() {
    for p in ["/", "/a", "/a/b c/d.e"] {
        assert_eq!(AbsPath::parse(p).unwrap().text(), p);
    }
    assert_eq!(AbsPath::parse("/a//b/./c/").unwrap().text(), "/a/b/c");
    assert!(AbsPath::parse("a").is_none());
    assert!(AbsPath::parse("/a/../b").is_none());
    let a = AbsPath::parse("/a/b").unwrap();
    assert!(a.starts_with(&AbsPath::parse("/a").unwrap()));
    assert!(!AbsPath::parse("/ab").unwrap().starts_with(&AbsPath::parse("/a").unwrap()));
    assert_eq!(a.parent().unwrap().text(), "/a");
    assert!(AbsPath::parse("/").unwrap().parent().is_none());
    assert_eq!(a.child(&"c".to_string()).text(), "/a/b/c");
}

#[test]
fn spans_of_time_are_shown_as_in_the_standard_library() {
    for (secs, nanos) in [(0u64, 0u32), (300, 0), (1, 500_000_000), (0, 2_000_000), (0, 7), (u64::MAX, 999_999_999)] {
        let d = Duration::from_parts(secs, nanos).unwrap();
        let std = std::time::Duration::new(secs, nanos);
        assert_eq!(d.text(), format!("{std:?}"));
        assert_eq!(d.as_millis(), std.as_millis());
        assert_eq!((d.as_secs(), d.subsec_nanos()), (secs, nanos));
    }
    assert!(Duration::from_parts(0, 1_000_000_000).is_none());
    assert_eq!(Duration::from_millis(1500).text(), "1.5s");
    let (a, b) = (Duration::from_secs(1), Duration::from_millis(999));
    assert_eq!(a.min(b), b);
}

#[test]
fn a_member_that_is_set_is_read_back() {
    let m = vec![("a".to_string(), Json::uint(1)), ("b".to_string(), Json::uint(2))];
    let m = set_member(m, "a", Json::string("x"));
    let m = set_member(m, "c", Json::Null);
    let o = Json::Object(m);
    assert_eq!(o.get("a").unwrap().as_str(), Some("x"));
    assert_eq!(o.get("b").unwrap().as_u64(), Some(2));
    assert!(matches!(o.get("c"), Some(Json::Null)));
    assert!(o.get("d").is_none());
    assert!(Json::Null.get("a").is_none());
    let copy = o.duplicate();
    assert_eq!(copy.get("b").unwrap().as_u64(), Some(2));
}
