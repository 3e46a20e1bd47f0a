use hostmcp::state::AppState;
use hostmcp::text::{replace_all_exec, replace_first_exec};
use hostmcp::tools::bash::{BashParams, BashTool};
use hostmcp::tools::edit::{EditParams, EditTool};
use hostmcp::tools::glob_tool::GlobTool;
use hostmcp::tools::grep::GrepTool;
use hostmcp::tools::list::{ListEntry, ListTool};
use hostmcp::tools::read::ReadTool;
use hostmcp::tools::{ToolCtx, ToolKind};

#[test]
fn tool_structs_carry_their_names() {
    assert_eq!(ReadTool.name(), "read");
    assert_eq!(EditTool.name(), "edit");
    assert_eq!(GlobTool.name(), "glob");
    assert_eq!(GrepTool.name(), "grep");
    assert_eq!(ListTool.name(), "list");
    assert_eq!(BashTool.name(), "bash");
    assert_eq!(ToolKind::List.name(), ListTool.name());
}

#[test]
fn marking_twice_is_marking_once() {
    let mut st = AppState::new("/".to_string());
    st.mark_read("s", "/f");
    st.mark_read("s", "/f");
    assert!(st.has_read("s", "/f"));
    assert_eq!(st.sessions.get("s").map(|x| x.read_files.len()), Some(1));
}

#[test]
fn reading_enables_editing() {
    let mut st = AppState::new("/".to_string());
    let ctx = ToolCtx { session: "s".to_string() };
    let p = EditParams { file_path: "x".to_string(), old_string: "a".to_string(), new_string: "b".to_string(), replace_all: false };
    assert!(EditTool::check(&st, &ctx, "/x", "/x", true, &p).is_err());
    let r = ReadTool::finish_file(&mut st, &ctx, "/x", "/x", Ok(b"a\n".to_vec()), 1, 10);
    assert!(matches!(r, Ok(_)));
    assert_eq!(EditTool::check(&st, &ctx, "/x", "/x", true, &p), Ok(()));
}

#[test]
fn replacing_with_itself_changes_nothing() {
    let s: Vec<char> = "abcabc".chars().collect();
    for p in ["bc", "", "zz", "abcabc"] {
        let p: Vec<char> = p.chars().collect();
        assert_eq!(replace_all_exec(&s, &p, &p), s);
        assert_eq!(replace_first_exec(&s, &p, &p), s);
    }
}

#[test]
fn listing_settles_after_the_cap() {
    let ent = |p: String| ListEntry { path: p, depth: 1, is_dir: false };
    let mut short = vec![ListEntry { path: "/r".to_string(), depth: 0, is_dir: true }];
    for i in 0..501 {
        short.push(ent(format!("/r/a{i}")));
    }
    let mut long: Vec<ListEntry> = short.iter().map(|e| ListEntry { path: e.path.clone(), depth: e.depth, is_dir: e.is_dir }).collect();
    for i in 0..50 {
        long.push(ent(format!("/r/b{i}")));
    }
    assert_eq!(ListTool::render("/r", &short), ListTool::render("/r", &long));
    assert!(ListTool::wants_more(500));
    assert!(!ListTool::wants_more(501));
}

#[test]
fn timeouts_never_exceed_the_maximum() {
    for t in [None, Some(1), Some(600000), Some(600001), Some(u64::MAX)] {
        let p = BashParams { command: String::new(), description: None, timeout: t, cwd: None };
        assert!(BashTool::timeout_ms(&p) <= 600000);
    }
}

#[test]
fn a_history_of_reads_is_remembered() {
    let mut st = AppState::new("/".to_string());
    let history = [("a", "/1"), ("b", "/2"), ("a", "/3"), ("a", "/1")];
    for (s, p) in history {
        st.mark_read(s, p);
    }
    for s in ["a", "b", "c"] {
        for p in ["/1", "/2", "/3"] {
            assert_eq!(st.has_read(s, p), history.contains(&(s, p)), "{s} {p}");
        }
    }
}

#[test]
fn a_read_answers_with_defaults_and_marks() {
    let mut st = AppState::new("/".to_string());
    let ctx = ToolCtx { session: "s".to_string() };
    let params = hostmcp::tools::read::ReadParams { file_path: "f".to_string(), offset: None, limit: None };
    match ReadTool::plan(&params, true, false) {
        hostmcp::tools::read::ReadPlan::File { offset, limit } => {
            let r = ReadTool::finish_file(&mut st, &ctx, "/f", "/f", Ok(b"x\ny\n".to_vec()), offset, limit);
            assert_eq!(r, Ok("1: x\n2: y\n".to_string()));
        }
        _ => panic!("expected a file read"),
    }
    assert!(st.has_read("s", "/f"));
    assert!(!st.has_read("t", "/f"));
}

#[test]
fn editing_back_restores_the_file() {
    let mut st = AppState::new("/".to_string());
    let ctx = ToolCtx { session: "s".to_string() };
    st.mark_read("s", "/a");
    let fwd_p = EditParams { file_path: "a".to_string(), old_string: "red".to_string(), new_string: "blue".to_string(), replace_all: false };
    let back_p = EditParams { file_path: "a".to_string(), old_string: "blue".to_string(), new_string: "red".to_string(), replace_all: false };
    let content = "the red door".to_string();
    assert_eq!(EditTool::check(&st, &ctx, "/a", "/a", true, &fwd_p), Ok(()));
    let fwd = EditTool::apply("/a", Ok(content.clone()), &fwd_p).ok().unwrap();
    assert_eq!(EditTool::finish(&mut st, &ctx, "/a", "/a", Ok(()), fwd.message), Ok("Edited /a (1 replacement).\n\n- red\n+ blue".to_string()));
    assert_eq!(EditTool::check(&st, &ctx, "/a", "/a", true, &back_p), Ok(()));
    let back = EditTool::apply("/a", Ok(fwd.updated), &back_p).ok().unwrap();
    assert_eq!(back.updated, content);
}
