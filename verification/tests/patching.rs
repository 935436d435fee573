use mindkernel::action::Action;
use mindkernel::diff::{apply_unified_diff, diff_from_response, diff_target_file, synth_diff};
use mindkernel::sandbox::{backup_file_name, count_diagnostics, ensure_rs, patched_content, ApplierError, SandboxResult};
use mindkernel::text::{chars_of, split_lines};

fn action(op: &str, target: &str, p1: &str, p2: &str) -> Action {
    Action {
        operation: op.to_string(),
        target: target.to_string(),
        param1: p1.to_string(),
        param2: p2.to_string(),
    }
}

fn lines_of(s: &str) -> Vec<String> {
    split_lines(&chars_of(s)).into_iter().map(|l| l.into_iter().collect()).collect()
}

#[test]
fn lines_follow_str_lines() {
    let text = "foo\r\nbar\n\nbaz\r";
    let expected: Vec<String> = text.lines().map(|s| s.to_string()).collect();
    assert_eq!(lines_of(text), expected);
    assert_eq!(lines_of(""), Vec::<String>::new());
    assert_eq!(lines_of("a\n"), vec!["a".to_string()]);
}

#[test]
fn empty_diff_keeps_the_text() {
    assert_eq!(apply_unified_diff("a\nb", "").unwrap(), "a\nb\n");
    assert_eq!(apply_unified_diff("", "").unwrap(), "\n");
}

#[test]
fn diff_without_hunk_header_keeps_the_text() {
    let diff = "--- a/x.rs\n+++ b/x.rs\n+added\n-removed\n";
    assert_eq!(apply_unified_diff("one\ntwo\n", diff).unwrap(), "one\ntwo\n");
}

#[test]
fn hunk_replaces_a_line() {
    let diff = "--- a/x\n+++ b/x\n@@ -2,1 +2,1 @@\n-b\n+B\n";
    assert_eq!(apply_unified_diff("a\nb\nc\n", diff).unwrap(), "a\nB\nc\n");
}

#[test]
fn hunk_context_lines_copy_the_original() {
    let diff = "@@ -1,3 +1,4 @@\n a\n+x\n b\n c\n";
    assert_eq!(apply_unified_diff("a\nb\nc\nd\n", diff).unwrap(), "a\nx\nb\nc\nd\n");
}

#[test]
fn two_hunks() {
    let diff = "@@ -1,1 +1,1 @@\n-a\n+A\n@@ -3,1 +3,1 @@\n-c\n+C\n";
    assert_eq!(apply_unified_diff("a\nb\nc\nd\n", diff).unwrap(), "A\nb\nC\nd\n");
}

#[test]
fn unparsable_start_counts_as_line_one() {
    let diff = "@@ -x,1 +1,1 @@\n+first\n";
    assert_eq!(apply_unified_diff("a\nb\n", diff).unwrap(), "first\na\nb\n");
    let plus = "@@ -+2,0 +3,1 @@\n+mid\n";
    assert_eq!(apply_unified_diff("a\nb\n", plus).unwrap(), "a\nmid\nb\n");
}

#[test]
fn header_without_second_field_is_skipped() {
    let diff = "@@\n+x\n";
    assert_eq!(apply_unified_diff("a\n", diff).unwrap(), "a\n");
}

#[test]
fn removal_past_the_end_is_harmless() {
    let diff = "@@ -1,0 +1,0 @@\n-a\n-b\n-c\n+z\n";
    assert_eq!(apply_unified_diff("a\n", diff).unwrap(), "z\n");
}

#[test]
fn other_lines_in_a_hunk_are_kept() {
    let diff = "@@ -1,0 +1,1 @@\nplain\n";
    assert_eq!(apply_unified_diff("a\n", diff).unwrap(), "plain\na\n");
}

#[test]
fn synth_diff_for_a_plain_action() {
    let a = action("merge", "sandbox", "rate", "check");
    let code = "fn a() {}\nfn b() {}\n";
    let d = synth_diff(&a, "sandbox.rs", code);
    assert_eq!(d.original_file, "sandbox.rs");
    assert_eq!(
        d.unified_diff,
        "--- a/sandbox.rs\n+++ b/sandbox.rs\n@@ -2,0 +3,1 @@\n+// emergent: merge sandbox rate check"
    );
    assert_eq!(d.description, "merge sandbox rate check");
    // the comment lands before the last line
    assert_eq!(
        apply_unified_diff(code, &d.unified_diff).unwrap(),
        "fn a() {}\n// emergent: merge sandbox rate check\nfn b() {}\n"
    );
}

#[test]
fn synth_diff_on_an_empty_file() {
    let a = action("set", "x", "rate", "limit");
    let d = synth_diff(&a, "x.rs", "");
    assert_eq!(
        d.unified_diff,
        "--- a/x.rs\n+++ b/x.rs\n@@ -0,0 +1,1 @@\n+// emergent: set x rate limit\n"
    );
    assert_eq!(apply_unified_diff("", &d.unified_diff).unwrap(), "// emergent: set x rate limit\n");
}

#[test]
fn synth_diff_creates_an_operator_in_the_list() {
    let code = "const BASE_OPERATIONS: &[&str] = &[\n    \"set\",\n    \"copy\",\n];\nfn f() {}\n";
    let a = action("create_operator", "set_copy", "set", "copy");
    let d = synth_diff(&a, "emergent.rs", code);
    assert_eq!(
        d.unified_diff,
        "--- a/emergent.rs\n+++ b/emergent.rs\n@@ -4,0 +5,1 @@\n+    \"set_copy\","
    );
    assert_eq!(d.description, "create operator set_copy");
    assert_eq!(
        apply_unified_diff(code, &d.unified_diff).unwrap(),
        "const BASE_OPERATIONS: &[&str] = &[\n    \"set\",\n    \"copy\",\n    \"set_copy\",\n];\nfn f() {}\n"
    );
}

#[test]
fn synth_diff_skips_a_known_operator() {
    let code = "const BASE_OPERATIONS: &[&str] = &[\n    \"set\",\n];\n";
    let a = action("create_operator", "set", "a", "b");
    let d = synth_diff(&a, "emergent.rs", code);
    assert_eq!(d.unified_diff, "");
    assert_eq!(d.description, "skip duplicate operator set");
    assert_eq!(apply_unified_diff(code, &d.unified_diff).unwrap(), code);
}

#[test]
fn synth_diff_without_operator_list_inserts_before_last_line() {
    let code = "a\nb\n";
    let a = action("create_operator", "x_y", "x", "y");
    let d = synth_diff(&a, "emergent.rs", code);
    assert_eq!(d.unified_diff, "--- a/emergent.rs\n+++ b/emergent.rs\n@@ -2,0 +3,1 @@\n+    \"x_y\",");
    assert_eq!(apply_unified_diff(code, &d.unified_diff).unwrap(), "a\n    \"x_y\",\nb\n");
}

#[test]
fn target_files() {
    assert_eq!(diff_target_file(&action("create_operator", "a_b", "a", "b")), "emergent.rs");
    assert_eq!(diff_target_file(&action("set", "sandbox", "a", "b")), "sandbox.rs");
    assert_eq!(diff_target_file(&action("set", "lib.rs", "a", "b")), "lib.rs");
}

#[test]
fn responses_become_diffs() {
    let d = diff_from_response("@@ -1 @@".to_string(), "src/sandbox.rs", "why".to_string(), "sandbox.rs").unwrap();
    assert_eq!(d.original_file, "sandbox.rs");
    assert_eq!(d.unified_diff, "@@ -1 @@");
    assert_eq!(d.description, "why");
    assert!(diff_from_response(String::new(), "", String::new(), "x.rs").is_none());
    assert!(diff_from_response("d".to_string(), "other.rs", String::new(), "x.rs").is_none());
    assert!(diff_from_response("d".to_string(), "", String::new(), "x.rs").is_some());
    assert!(diff_from_response("d".to_string(), "x", String::new(), "x.rs.rs").is_some());
}

#[test]
fn ensure_rs_adds_the_extension_once() {
    assert_eq!(ensure_rs("main"), "main.rs");
    assert_eq!(ensure_rs("main.rs"), "main.rs");
    assert_eq!(ensure_rs(""), ".rs");
}

#[test]
fn patched_content_refuses_no_change() {
    match patched_content("", "a\n") {
        Err(ApplierError::DiffApplyFailed(m)) => assert_eq!(m, "diff produced no changes"),
        _ => panic!("expected DiffApplyFailed"),
    }
    assert_eq!(patched_content("@@ -1,1 +1,1 @@\n-a\n+b\n", "a\n").unwrap(), "b\n");
    // a text without final newline gains one, which is a change
    assert_eq!(patched_content("", "a").unwrap(), "a\n");
}

#[test]
fn backup_names() {
    assert_eq!(backup_file_name("emergent.rs", 1700000000), "emergent.rs.1700000000.bak");
    assert_eq!(backup_file_name("a.rs", 0), "a.rs.0.bak");
}

#[test]
fn build_log_diagnostics() {
    let log = "error: x\n  warning: unused\nerror[E0308]: y\nnote: z\nwarning[W]: w\n   errors follow";
    assert_eq!(count_diagnostics(log), (3, 2));
    let r = SandboxResult::from_build(true, log.to_string());
    assert_eq!(r.error_count, 3);
    assert_eq!(r.warning_count, 2);
    assert!(!r.accepted());
    assert!(SandboxResult::from_build(true, "warning: a\n".to_string()).accepted());
    assert!(!SandboxResult::from_build(false, String::new()).accepted());
}

#[test]
fn context_and_removal_text_is_ignored() {
    let code = "a\nb\nc\nd\n";
    let d1 = "@@ -2,2 +2,2 @@\n-b\n c\n+X\n";
    let d2 = "@@ -2,2 +2,2 @@\n-something else\n whatever\n+X\n";
    assert_eq!(apply_unified_diff(code, d1).unwrap(), "a\nc\nX\nd\n");
    assert_eq!(apply_unified_diff(code, d2).unwrap(), apply_unified_diff(code, d1).unwrap());
}

#[test]
fn added_lines_after_a_hunk_header_are_inserted_in_order() {
    let diff = "@@ -2,0 +2,3 @@\n+x\n+y\n+z\n";
    assert_eq!(apply_unified_diff("a\nb\nc\n", diff).unwrap(), "a\nx\ny\nz\nb\nc\n");
    let past_end = "@@ -9,0 +9,2 @@\n+x\n+y\n";
    assert_eq!(apply_unified_diff("a\n", past_end).unwrap(), "a\nx\ny\n");
}

#[test]
fn new_operator_ends_the_first_list_after_its_name() {
    let code = "let v = [\n];\nconst BASE_OPERATIONS: &[&str] = &[\n    \"set\",\n  ];  \nlet w = [\n];\n";
    let a = action("create_operator", "set_set", "set", "set");
    let d = synth_diff(&a, "emergent.rs", code);
    assert_eq!(
        apply_unified_diff(code, &d.unified_diff).unwrap(),
        "let v = [\n];\nconst BASE_OPERATIONS: &[&str] = &[\n    \"set\",\n    \"set_set\",\n  ];  \nlet w = [\n];\n"
    );
}

#[test]
fn created_operator_is_not_proposed_again() {
    let code = "const BASE_OPERATIONS: &[&str] = &[\n    \"set\",\n];\n";
    let a = action("create_operator", "set_copy", "set", "copy");
    let d = synth_diff(&a, "emergent.rs", code);
    assert!(!d.unified_diff.is_empty());
    let code2 = apply_unified_diff(code, &d.unified_diff).unwrap();
    let again = synth_diff(&a, "emergent.rs", &code2);
    assert_eq!(again.unified_diff, "");
    assert_eq!(again.description, "skip duplicate operator set_copy");
}

#[test]
fn comment_diff_reads_back_with_one_line_inserted() {
    let code = "fn a() {}\nfn b() {}\nfn c() {}";
    let a = action("merge", "sandbox", "rate", "check");
    let d = synth_diff(&a, "sandbox.rs", code);
    let patched = apply_unified_diff(code, &d.unified_diff).unwrap();
    assert_eq!(
        lines_of(&patched),
        vec!["fn a() {}", "fn b() {}", "// emergent: merge sandbox rate check", "fn c() {}"]
    );
    // a line ending in a carriage return does not read back as it was
    let cr = "x\r";
    let patched_cr = apply_unified_diff(cr, &synth_diff(&a, "sandbox.rs", cr).unified_diff).unwrap();
    assert_eq!(lines_of(&patched_cr), vec!["// emergent: merge sandbox rate check", "x"]);
}

#[test]
fn file_name_with_carriage_return_still_reads_back() {
    let code = "a\nb";
    let a = action("merge", "sandbox", "rate", "check");
    let d = synth_diff(&a, "x.rs\r", code);
    let patched = apply_unified_diff(code, &d.unified_diff).unwrap();
    assert_eq!(lines_of(&patched), vec!["a", "// emergent: merge sandbox rate check", "b"]);
}
