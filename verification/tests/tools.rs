use hostmcp::matching::compile_glob;
use hostmcp::state::AppState;
use hostmcp::tools::bash::{BashParams, BashRun, BashTool};
use hostmcp::tools::edit::{preview, EditParams, EditTool};
use hostmcp::tools::glob_tool::{is_hidden, GlobCandidate, GlobParams, GlobTool};
use hostmcp::tools::grep::{search_file, GrepParams, GrepRow, GrepTool};
use hostmcp::tools::list::{display_name, ListEntry, ListParams, ListTool};
use hostmcp::tools::read::{
    miss_message, read_directory, read_file, suggestion_dir, DirEntryInfo, DirListError,
    ReadParams, ReadPlan, ReadTool,
};
use hostmcp::tools::{find_tool, registry, ToolCtx, ToolKind};

fn ctx(s: &str) -> ToolCtx {
    ToolCtx { session: s.to_string() }
}

// ---------------------------------------------------------------- registry

#[test]
fn registry_lists_tools_in_order() {
    let names: Vec<&str> = registry().iter().map(|k| k.name()).collect();
    assert_eq!(names, vec!["read", "edit", "glob", "grep", "list", "bash"]);
    assert_eq!(find_tool("grep"), Some(ToolKind::Grep));
    assert_eq!(find_tool("write"), None);
    for k in registry() {
        assert_eq!(find_tool(k.name()), Some(k));
    }
}

// ---------------------------------------------------------------- read

fn read_params(offset: Option<usize>, limit: Option<usize>) -> ReadParams {
    ReadParams { file_path: "f.txt".to_string(), offset, limit }
}

#[test]
fn read_plan_by_path_kind() {
    assert!(matches!(ReadTool::plan(&read_params(None, None), false, false), ReadPlan::Missing));
    assert!(matches!(ReadTool::plan(&read_params(None, None), true, true), ReadPlan::Directory));
    assert!(matches!(ReadTool::plan(&read_params(None, None), true, false), ReadPlan::File { offset: 1, limit: 2000 }));
    assert!(matches!(ReadTool::plan(&read_params(Some(5), Some(3)), true, false), ReadPlan::File { offset: 5, limit: 3 }));
    let st = AppState::new("/srv".to_string());
    assert_eq!(ReadTool::target(&st, &read_params(None, None)), "/srv/f.txt");
}

#[test]
fn read_numbers_lines() {
    assert_eq!(read_file("/f", &b"alpha\nbeta\n".to_vec(), 1, 2000), "1: alpha\n2: beta\n");
    assert_eq!(read_file("/f", &b"a\r\nb".to_vec(), 1, 2000), "1: a\n2: b\n");
}

#[test]
fn read_window_and_note() {
    let text = b"l1\nl2\nl3\nl4\nl5\n".to_vec();
    assert_eq!(
        read_file("/f", &text, 2, 2),
        "2: l2\n3: l3\n\n(File has more lines. Showing 2-3 of 5. Call again with offset=4 to continue.)\n"
    );
    assert_eq!(read_file("/f", &text, 0, 1), "1: l1\n\n(File has more lines. Showing 1-1 of 5. Call again with offset=2 to continue.)\n");
    assert_eq!(read_file("/f", &text, 9, 10), "(empty file)");
    assert_eq!(read_file("/f", &Vec::new(), 1, 2000), "(empty file)");
}

#[test]
fn read_cuts_long_lines() {
    let long = "x".repeat(2001);
    let out = read_file("/f", &long.clone().into_bytes(), 1, 2000);
    assert_eq!(out, format!("1: {}... (line truncated to 2000 chars)\n", "x".repeat(2000)));
    let exact = "y".repeat(2000);
    assert_eq!(read_file("/f", &exact.clone().into_bytes(), 1, 2000), format!("1: {exact}\n"));
}

#[test]
fn read_reports_binary_files() {
    let bytes = vec![b'a', 0, b'b'];
    assert_eq!(
        read_file("/bin/x", &bytes, 1, 2000),
        "/bin/x\n(binary file, 3 bytes — this server does not decode binary attachments; use bash with a hex/text tool if you need to inspect it)"
    );
    let mut late = vec![b'a'; 5000];
    late[4500] = 0;
    assert!(read_file("/f", &late, 1, 1).starts_with("1: "));
}

#[test]
fn read_window_with_huge_limit() {
    let text = b"a\nb\nc\n".to_vec();
    assert_eq!(read_file("/f", &text, 2, usize::MAX), "2: b\n3: c\n");
    assert_eq!(read_file("/f", &text, 1, usize::MAX), "1: a\n2: b\n3: c\n");
    assert_eq!(read_file("/f", &text, 9, usize::MAX), "(empty file)");
    assert_eq!(read_file("/f", &text, usize::MAX, usize::MAX), "(empty file)");
}

#[test]
fn read_missing_path_suggests_siblings() {
    assert_eq!(suggestion_dir("/srv/docs/readme.md"), "/srv/docs");
    let names = vec!["README.md".to_string(), "other.txt".to_string(), "readme".to_string()];
    assert_eq!(
        miss_message("/srv/docs/readme.md", &names),
        "File not found: /srv/docs/readme.md\n\nDid you mean one of these?\n/srv/docs/README.md\n/srv/docs/readme"
    );
    assert_eq!(miss_message("/srv/docs/zzz", &names), "File not found: /srv/docs/zzz");
    let many: Vec<String> = (0..6).map(|i| format!("zzz{i}")).collect();
    assert_eq!(
        miss_message("/d/zzz", &many),
        "File not found: /d/zzz\n\nDid you mean one of these?\n/d/zzz0\n/d/zzz1\n/d/zzz2"
    );
}

#[test]
fn read_lists_directories() {
    let entries = vec![
        DirEntryInfo { name: "src".to_string(), is_dir: true },
        DirEntryInfo { name: "Cargo.toml".to_string(), is_dir: false },
        DirEntryInfo { name: "README.md".to_string(), is_dir: false },
    ];
    assert_eq!(read_directory("/p", Ok(entries)), Ok("Cargo.toml\nREADME.md\nsrc/".to_string()));
    assert_eq!(read_directory("/p", Ok(Vec::new())), Ok("/p\n(empty directory)".to_string()));
    assert_eq!(
        read_directory("/p", Err(DirListError::Open("denied".to_string()))),
        Err("failed to read directory /p: denied".to_string())
    );
    assert_eq!(read_directory("/p", Err(DirListError::Entry("gone".to_string()))), Err("gone".to_string()));
}

#[test]
fn read_marks_the_file_read() {
    let mut st = AppState::new("/".to_string());
    let c = ctx("s");
    let r = ReadTool::finish_file(&mut st, &c, "/k", "/p", Ok(b"x".to_vec()), 1, 2000);
    assert_eq!(r, Ok("1: x\n".to_string()));
    assert!(st.has_read("s", "/k"));
    let mut st2 = AppState::new("/".to_string());
    let e = ReadTool::finish_file(&mut st2, &c, "/k", "/p", Err("denied".to_string()), 1, 2000);
    assert_eq!(e, Err("failed to read /p: denied".to_string()));
    assert!(!st2.has_read("s", "/k"));
}

// ---------------------------------------------------------------- edit

fn edit_params(old: &str, new: &str, all: bool) -> EditParams {
    EditParams { file_path: "a.txt".to_string(), old_string: old.to_string(), new_string: new.to_string(), replace_all: all }
}

#[test]
fn edit_requires_existing_read_and_change() {
    let mut st = AppState::new("/".to_string());
    let c = ctx("s");
    let p = edit_params("a", "b", false);
    assert_eq!(
        EditTool::check(&st, &c, "/a.txt", "/a.txt", false, &p),
        Err("File not found: /a.txt. Use the `read` tool first (edit only modifies existing files; use bash/write to create new ones).".to_string())
    );
    assert_eq!(
        EditTool::check(&st, &c, "/a.txt", "/a.txt", true, &p),
        Err("You must read /a.txt with the `read` tool before editing it.".to_string())
    );
    st.mark_read("s", "/a.txt");
    assert_eq!(EditTool::check(&st, &c, "/a.txt", "/a.txt", true, &p), Ok(()));
    assert_eq!(
        EditTool::check(&st, &c, "/a.txt", "/a.txt", true, &edit_params("x", "x", false)),
        Err("oldString and newString are identical — nothing to do.".to_string())
    );
    assert!(EditTool::check(&st, &ctx("other"), "/a.txt", "/a.txt", true, &p).is_err());
}

#[test]
fn edit_replaces_one_or_all() {
    let one = EditTool::apply("/a", Ok("let x = 1;\n".to_string()), &edit_params("1", "2", false)).ok().unwrap();
    assert_eq!(one.updated, "let x = 2;\n");
    assert_eq!(one.message, "Edited /a (1 replacement).\n\n- 1\n+ 2");
    let all = EditTool::apply("/a", Ok("a-a-a".to_string()), &edit_params("a", "b", true)).ok().unwrap();
    assert_eq!(all.updated, "b-b-b");
    assert_eq!(all.message, "Edited /a (3 replacements).\n\n- a\n+ b");
}

#[test]
fn edit_refuses_missing_and_ambiguous() {
    assert_eq!(
        EditTool::apply("/a", Ok("abc".to_string()), &edit_params("z", "y", false)).err(),
        Some("oldString not found in content".to_string())
    );
    assert_eq!(
        EditTool::apply("/a", Ok("a a".to_string()), &edit_params("a", "b", false)).err(),
        Some("Found 2 matches for oldString. Provide more surrounding lines in oldString to identify the correct match, or set replaceAll to true.".to_string())
    );
    assert_eq!(
        EditTool::apply("/a", Err("denied".to_string()), &edit_params("a", "b", false)).err(),
        Some("failed to read /a: denied".to_string())
    );
}

#[test]
fn edit_with_empty_old_string() {
    let r = EditTool::apply("/a", Ok(String::new()), &edit_params("", "new", false)).ok().unwrap();
    assert_eq!(r.updated, "new");
    let r = EditTool::apply("/a", Ok("ab".to_string()), &edit_params("", "-", true)).ok().unwrap();
    assert_eq!(r.updated, "-a-b-");
    assert!(r.message.starts_with("Edited /a (3 replacements)."));
}

#[test]
fn edit_preview_escapes_and_clips() {
    assert_eq!(preview("a\nb", "c"), "- a\\nb\n+ c");
    let long = "x".repeat(130);
    assert_eq!(preview(&long, ""), format!("- {}…\n+ ", "x".repeat(120)));
}

#[test]
fn edit_finish_records_the_read() {
    let mut st = AppState::new("/".to_string());
    let c = ctx("s");
    assert_eq!(EditTool::finish(&mut st, &c, "/k", "/p", Ok(()), "done".to_string()), Ok("done".to_string()));
    assert!(st.has_read("s", "/k"));
    let mut st2 = AppState::new("/".to_string());
    assert_eq!(
        EditTool::finish(&mut st2, &c, "/k", "/p", Err("full".to_string()), "done".to_string()),
        Err("failed to write /p: full".to_string())
    );
    assert!(!st2.has_read("s", "/k"));
}

#[test]
fn edit_then_undo_restores_content() {
    let original = "fn main() { old(); }".to_string();
    let fwd = EditTool::apply("/a", Ok(original.clone()), &edit_params("old", "new", false)).ok().unwrap();
    let back = EditTool::apply("/a", Ok(fwd.updated), &edit_params("new", "old", false)).ok().unwrap();
    assert_eq!(back.updated, original);
}

// ---------------------------------------------------------------- glob

#[test]
fn glob_refuses_files_and_bad_patterns() {
    let p = GlobParams { pattern: "*.rs".to_string(), path: None };
    assert_eq!(GlobTool::prepare(&p, "/f.rs", true).err(), Some("glob path must be a directory: /f.rs".to_string()));
    let bad = GlobParams { pattern: "a[".to_string(), path: None };
    let e = GlobTool::prepare(&bad, "/d", false).err().unwrap();
    assert!(e.starts_with("invalid glob pattern 'a[': Pattern syntax error"), "{e}");
    let st = AppState::new("/srv".to_string());
    assert_eq!(GlobTool::search_root(&st, &GlobParams { pattern: "*".to_string(), path: Some("src".to_string()) }), "/srv/src");
    assert_eq!(GlobTool::search_root(&st, &p), "/srv");
}

fn cand(path: &str, mtime: i128) -> GlobCandidate {
    GlobCandidate { path: path.to_string(), mtime }
}

#[test]
fn glob_lists_newest_first() {
    let pat = compile_glob("**/*.rs").ok().unwrap();
    let cs = vec![cand("/d/a.rs", 10), cand("/d/b.txt", 99), cand("/d/src/c.rs", 30), cand("/d/e.rs", 10)];
    assert_eq!(GlobTool::render(&pat, "/d", &cs), "/d/src/c.rs\n/d/a.rs\n/d/e.rs");
    let none = compile_glob("*.zig").ok().unwrap();
    assert_eq!(GlobTool::render(&none, "/d", &cs), "No files found");
}

#[test]
fn glob_caps_results() {
    let pat = compile_glob("*").ok().unwrap();
    let cs: Vec<GlobCandidate> = (0..105).map(|i| cand(&format!("/d/f{i}"), i as i128)).collect();
    let out = GlobTool::render(&pat, "/d", &cs);
    let lines: Vec<&str> = out.lines().collect();
    assert_eq!(lines.len(), 102);
    assert_eq!(lines[0], "/d/f104");
    assert_eq!(lines[99], "/d/f5");
    assert_eq!(lines[100], "");
    assert_eq!(lines[101], "(Results are truncated: showing first 100 results. Consider using a more specific path or pattern.)");
}

#[test]
fn hidden_names() {
    assert!(is_hidden("/a/.git"));
    assert!(!is_hidden("/a/git"));
    assert!(!is_hidden("/"));
}

// ---------------------------------------------------------------- grep

fn grep_params(pattern: &str, glob: Option<&str>) -> GrepParams {
    GrepParams { pattern: pattern.to_string(), path: None, file_glob: glob.map(|s| s.to_string()) }
}

#[test]
fn grep_refusals() {
    assert_eq!(GrepTool::prepare(&grep_params("", None)).err(), Some("pattern is required".to_string()));
    let e = GrepTool::prepare(&grep_params("(", None)).err().unwrap();
    assert!(e.starts_with("invalid regex '(': "), "{e}");
    let e = GrepTool::prepare(&grep_params("x", Some("a["))).err().unwrap();
    assert!(e.starts_with("invalid include pattern 'a[': "), "{e}");
    assert!(GrepTool::prepare(&grep_params("fn \\w+", Some("*.rs"))).is_ok());
}

#[test]
fn grep_filters_by_file_name() {
    let s = GrepTool::prepare(&grep_params("x", Some("*.rs"))).ok().unwrap();
    assert!(GrepTool::admits(&s, "/a/b/main.rs"));
    assert!(!GrepTool::admits(&s, "/a/b/main.py"));
    let all = GrepTool::prepare(&grep_params("x", None)).ok().unwrap();
    assert!(GrepTool::admits(&all, "/a/b/main.py"));
}

#[test]
fn grep_searches_lines_and_caps() {
    let s = GrepTool::prepare(&grep_params("TODO", None)).ok().unwrap();
    let mut rows: Vec<GrepRow> = Vec::new();
    search_file("/a.rs", "x\n// TODO one\ny\nTODO two", &s.regex, &mut rows);
    assert_eq!(rows.len(), 2);
    assert_eq!((rows[0].line, rows[0].text.as_str()), (2, "// TODO one"));
    assert_eq!((rows[1].line, rows[1].text.as_str()), (4, "TODO two"));
    let long = format!("TODO {}", "z".repeat(600));
    search_file("/b.rs", &long, &s.regex, &mut rows);
    assert_eq!(rows[2].text.chars().count(), 500);
    let many = "TODO\n".repeat(150);
    search_file("/c.rs", &many, &s.regex, &mut rows);
    assert_eq!(rows.len(), 100);
    assert!(GrepTool::walk_done(&rows));
}

#[test]
fn grep_groups_matches_by_file() {
    let row = |p: &str, l: usize, t: &str| GrepRow { path: p.to_string(), line: l, text: t.to_string() };
    let rows = vec![row("/d/b.rs", 3, "b3"), row("/d/a.rs", 9, "a9"), row("/d/a.rs", 2, "a2"), row("/d/a-b.rs", 1, "ab1")];
    assert_eq!(
        GrepTool::render("x", rows),
        "Found 4 matches\n/d/a-b.rs:\n  Line 1: ab1\n\n/d/a.rs:\n  Line 2: a2\n  Line 9: a9\n\n/d/b.rs:\n  Line 3: b3"
    );
    assert_eq!(GrepTool::render("x", vec![row("/d/z", 1, "z")]), "Found 1 match\n/d/z:\n  Line 1: z");
    assert_eq!(GrepTool::render("needle", Vec::new()), "No matches found for pattern: needle");
    let nested = vec![row("/d/a/x", 1, "1"), row("/d/a-b", 1, "2")];
    assert_eq!(GrepTool::render("x", nested), "Found 2 matches\n/d/a/x:\n  Line 1: 1\n\n/d/a-b:\n  Line 1: 2");
}

// ---------------------------------------------------------------- list

#[test]
fn list_names_and_checks() {
    assert_eq!(display_name("/a/src", true), "src/");
    assert_eq!(display_name("/a/main.rs", false), "main.rs");
    assert_eq!(ListTool::check("/x", false, false), Err("path not found: /x".to_string()));
    assert_eq!(ListTool::check("/x", true, false), Err("not a directory: /x".to_string()));
    assert_eq!(ListTool::check("/x", true, true), Ok(()));
    assert_eq!(ListTool::depth(&ListParams { path: None, depth: None }), 3);
    assert_eq!(ListTool::depth(&ListParams { path: None, depth: Some(1) }), 1);
}

fn ent(path: &str, depth: usize, is_dir: bool) -> ListEntry {
    ListEntry { path: path.to_string(), depth, is_dir }
}

#[test]
fn list_renders_an_indented_tree() {
    let es = vec![ent("/p", 0, true), ent("/p/src", 1, true), ent("/p/src/lib.rs", 2, false), ent("/p/README.md", 1, false)];
    assert_eq!(ListTool::render("/p", &es), "/p/\nsrc/\n  lib.rs\nREADME.md");
}

#[test]
fn list_caps_entries() {
    let mut es = vec![ent("/p", 0, true)];
    for i in 0..600 {
        es.push(ent(&format!("/p/f{i}"), 1, false));
    }
    let out = ListTool::render("/p", &es);
    let lines: Vec<&str> = out.lines().collect();
    assert_eq!(lines.len(), 502);
    assert_eq!(lines[500], "f499");
    assert_eq!(lines[501], "… (truncated at 500 entries)");
}

// ---------------------------------------------------------------- bash

fn bash_params(timeout: Option<u64>, cwd: Option<&str>) -> BashParams {
    BashParams { command: "true".to_string(), description: None, timeout, cwd: cwd.map(|s| s.to_string()) }
}

#[test]
fn bash_timeout_and_directory() {
    assert_eq!(BashTool::timeout_ms(&bash_params(None, None)), 120000);
    assert_eq!(BashTool::timeout_ms(&bash_params(Some(5), None)), 5);
    assert_eq!(BashTool::timeout_ms(&bash_params(Some(10_000_000), None)), 600000);
    let st = AppState::new("/srv".to_string());
    assert_eq!(BashTool::working_dir(&st, &bash_params(None, Some("sub"))), "/srv/sub");
    assert_eq!(BashTool::working_dir(&st, &bash_params(None, None)), "/srv");
    assert_eq!(BashTool::spawn_failure("no sh"), "failed to spawn command: no sh");
}

#[test]
fn bash_reports_exit_and_output() {
    let run = |o: &str, e: &str, c: Option<i32>| BashRun::Finished { stdout: o.as_bytes().to_vec(), stderr: e.as_bytes().to_vec(), code: c };
    assert_eq!(
        BashTool::report(1000, run("hi\n", "", Some(0))),
        Ok("exit code: 0\n\n--- stdout ---\nhi\n\n\n--- stderr ---\n".to_string())
    );
    assert_eq!(
        BashTool::report(1000, run("", "bad", Some(2))),
        Err("exit code: 2\n\n--- stdout ---\n\n\n--- stderr ---\nbad".to_string())
    );
    assert_eq!(
        BashTool::report(1000, run("", "", None)),
        Err("exit code: -1\n\n--- stdout ---\n\n\n--- stderr ---\n".to_string())
    );
    assert_eq!(
        BashTool::report(1500, BashRun::TimedOut),
        Err("Command timed out after 1500ms and was killed.\n\n--- stdout ---\n\n--- stderr ---\n".to_string())
    );
}

#[test]
fn bash_truncates_each_stream() {
    let big = "y".repeat(40000);
    let r = BashTool::report(1, BashRun::Finished { stdout: big.into_bytes(), stderr: b"e".to_vec(), code: Some(0) }).unwrap();
    let want = format!("exit code: 0\n\n--- stdout ---\n{}\n(stdout truncated)\n\n--- stderr ---\ne", "y".repeat(30720));
    assert_eq!(r, want);
}

#[test]
fn list_skips_git_and_its_contents() {
    let es = vec![
        ent("/p", 0, true),
        ent("/p/.git", 1, true),
        ent("/p/.git/HEAD", 2, false),
        ent("/p/.github", 1, true),
        ent("/p/src", 1, true),
        ent("/p/src/.git", 2, false),
        ent("/p/src/a.git", 2, false),
    ];
    assert_eq!(ListTool::render("/p", &es), "/p/\n.github/\nsrc/\n  a.git");
    assert!(!ListTool::is_listed("/p", "/p"));
    assert!(!ListTool::is_listed("/p", "/p/x/.git/objects/ab"));
    assert!(ListTool::is_listed("/p", "/p/.gitignore"));
    assert!(ListTool::is_listed("/r/.git", "/r/.git/HEAD"));
}

#[test]
fn grep_file_glob_braces() {
    let s = GrepTool::prepare(&grep_params("x", Some("*.{ts,tsx}"))).ok().unwrap();
    assert!(GrepTool::admits(&s, "/a/b.ts"));
    assert!(GrepTool::admits(&s, "/a/b.tsx"));
    assert!(!GrepTool::admits(&s, "/a/b.js"));
    let two = GrepTool::prepare(&grep_params("x", Some("{a,b}.{c,d}"))).ok().unwrap();
    for n in ["a.c", "a.d", "b.c", "b.d"] {
        assert!(GrepTool::admits(&two, &format!("/x/{n}")), "{n}");
    }
    assert!(!GrepTool::admits(&two, "/x/c.a"));
    let open = GrepTool::prepare(&grep_params("x", Some("{a"))).ok().unwrap();
    assert!(GrepTool::admits(&open, "/x/{a"));
}
