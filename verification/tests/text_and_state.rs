use hostmcp::paths::{file_name, join, parent, strip_prefix};
use hostmcp::sort::sort_strings;
use hostmcp::state::AppState;
use hostmcp::text::{
    chars_of, contains, count_occurrences, decimal, decode_lossy, join_strings, replace_all_exec,
    replace_first_exec, signed_decimal, split_lines, str_eq, to_lowercase,
};
use hostmcp::tools::truncate_output;

fn cv(s: &str) -> Vec<char> {
    s.chars().collect()
}

fn st(v: &[char]) -> String {
    v.iter().collect()
}

#[test]
fn decimal_notation() {
    assert_eq!(decimal(0), "0");
    assert_eq!(decimal(7), "7");
    assert_eq!(decimal(2000), "2000");
    assert_eq!(decimal(u64::MAX), "18446744073709551615");
    assert_eq!(signed_decimal(-1), "-1");
    assert_eq!(signed_decimal(0), "0");
    assert_eq!(signed_decimal(i64::MIN), "-9223372036854775808");
}

#[test]
fn lines_follow_str_lines() {
    for s in ["", "a", "a\n", "a\r\nb\n", "a\r", "\n\nx", "one\ntwo\r\nthree", "x\r\r\n"] {
        let got: Vec<String> = split_lines(&cv(s)).iter().map(|l| st(l)).collect();
        let want: Vec<String> = s.lines().map(|l| l.to_string()).collect();
        assert_eq!(got, want, "lines of {s:?}");
    }
}

#[test]
fn counting_matches_like_str_matches() {
    for (s, p) in [("aaaa", "aa"), ("abc", ""), ("", ""), ("abcabc", "bc"), ("xyz", "q"), ("aaa", "aaa")] {
        assert_eq!(count_occurrences(&cv(s), &cv(p)), s.matches(p).count(), "{s:?} / {p:?}");
    }
}

#[test]
fn replacing_like_str_replace() {
    for (s, p, r) in [("aaaa", "aa", "b"), ("abc", "", "-"), ("", "", "x"), ("hello world", "o", "0"), ("abc", "z", "y")] {
        assert_eq!(st(&replace_all_exec(&cv(s), &cv(p), &cv(r))), s.replace(p, r), "all {s:?} {p:?} {r:?}");
        assert_eq!(st(&replace_first_exec(&cv(s), &cv(p), &cv(r))), s.replacen(p, r, 1), "first {s:?} {p:?} {r:?}");
    }
}

#[test]
fn substring_and_equality() {
    assert!(contains(&cv("Readme.md"), &cv("adme")));
    assert!(contains(&cv("abc"), &cv("")));
    assert!(!contains(&cv("abc"), &cv("abcd")));
    assert!(str_eq("tools/call", "tools/call"));
    assert!(!str_eq("tools/call", "tools/lis"));
    assert_eq!(chars_of("héllo"), vec!['h', 'é', 'l', 'l', 'o']);
}

#[test]
fn joining_and_lowercasing() {
    let parts = vec!["a".to_string(), "".to_string(), "c".to_string()];
    assert_eq!(join_strings(&parts, "\n"), "a\n\nc");
    assert_eq!(join_strings(&Vec::new(), ", "), "");
    assert_eq!(to_lowercase("ReadMe.MD"), "readme.md");
    assert_eq!(decode_lossy(b"ok\xffok"), "ok\u{FFFD}ok");
}

#[test]
fn sorting_strings_by_code_point() {
    let v = vec!["b".to_string(), "B".to_string(), "a/".to_string(), "a".to_string(), "ä".to_string()];
    let mut want = v.clone();
    want.sort();
    assert_eq!(sort_strings(v), want);
}

#[test]
fn path_joining_and_parts() {
    assert_eq!(join("/srv", "a/b.txt"), "/srv/a/b.txt");
    assert_eq!(join("/srv/", "a"), "/srv/a");
    assert_eq!(join("/srv", "/etc/hosts"), "/etc/hosts");
    assert_eq!(join("", "x"), "x");
    assert_eq!(join("/srv", ""), "/srv/");
    for (r, p) in [("/srv", "a/b.txt"), ("/srv/", "a"), ("/srv", "/etc/hosts"), ("", "x"), ("/srv", "")] {
        assert_eq!(join(r, p), std::path::Path::new(r).join(p).to_string_lossy());
    }
    assert_eq!(file_name("/a/b.txt"), Some("b.txt".to_string()));
    assert_eq!(file_name("/a/.."), None);
    assert_eq!(parent("/a/b.txt"), Some("/a".to_string()));
    assert_eq!(parent("/"), None);
    assert_eq!(strip_prefix("/a/b/c", "/a"), Some("b/c".to_string()));
    assert_eq!(strip_prefix("/x/y", "/a"), None);
}

#[test]
fn truncating_output_at_char_boundaries() {
    assert_eq!(truncate_output("hello", 10), ("hello".to_string(), false));
    assert_eq!(truncate_output("hello", 5), ("hello".to_string(), false));
    assert_eq!(truncate_output("hello", 3), ("hel".to_string(), true));
    assert_eq!(truncate_output("héllo", 2), ("h".to_string(), true));
    assert_eq!(truncate_output("héllo", 3), ("hé".to_string(), true));
    assert_eq!(truncate_output("é", 0), ("".to_string(), true));
}

#[test]
fn resolving_paths_against_the_root() {
    let st = AppState::new("/srv/project".to_string());
    assert_eq!(st.resolve("src/main.rs"), "/srv/project/src/main.rs");
    assert_eq!(st.resolve("/etc/hosts"), "/etc/hosts");
}

#[test]
fn reads_are_recorded_per_session() {
    let mut st = AppState::new("/".to_string());
    assert!(!st.has_read("s1", "/f"));
    st.mark_read("s1", "/f");
    assert!(st.has_read("s1", "/f"));
    assert!(!st.has_read("s2", "/f"));
    assert!(!st.has_read("s1", "/g"));
    st.mark_read("s1", "/f");
    st.mark_read("s2", "/g");
    assert!(st.has_read("s1", "/f"));
    assert!(st.has_read("s2", "/g"));
    assert!(!st.has_read("s1", "/g"));
}
