//! Unified diffs: the line-oriented patcher used to rewrite source files, and
//! the deterministic diff generator for emergent actions.

use vstd::prelude::*;

use crate::action::Action;
use crate::text::{
    chars_contain, chars_of, chars_start_with, contains, copy_range, decimal, find_char_from,
    find_from, join_lines, lemma_find_from_bounds, lines, parse_usize, parse_usize_chars,
    push_char, push_chars, push_decimal, push_joined_lines, push_str, split_lines, starts_with,
    str_contains, str_eq, string_of_str, trim, trim_chars, trim_end_chars, trim_end_seq,
    trim_start_char, trim_start_char_chars, views,
};

verus! {

broadcast use vstd::string::group_string_axioms;

// ---------------------------------------------------------------------------
// Specification of the patcher
// ---------------------------------------------------------------------------

/// `"--- "`
pub open spec fn old_file_marker() -> Seq<char> {
    seq!['-', '-', '-', ' ']
}

/// `"+++ "`
pub open spec fn new_file_marker() -> Seq<char> {
    seq!['+', '+', '+', ' ']
}

/// `"@@"`
pub open spec fn hunk_marker() -> Seq<char> {
    seq!['@', '@']
}

/// A hunk header has a second space-separated field.
pub open spec fn has_second_field(l: Seq<char>) -> bool {
    find_from(l, ' ', 0) < l.len()
}

/// The second space-separated field of a line (`line.split(' ').nth(1)`).
pub open spec fn second_field(l: Seq<char>) -> Seq<char> {
    let a = find_from(l, ' ', 0);
    l.subrange(a + 1, find_from(l, ' ', a + 1))
}

/// The old-file start line that a hunk header names: the number before the
/// first comma of its second field, leading dashes dropped, or 1 where that
/// is no number.
pub open spec fn hunk_old_start(l: Seq<char>) -> nat {
    let t = trim_start_char(second_field(l), '-');
    let num = t.subrange(0, find_from(t, ',', 0));
    match parse_usize(num) {
        Some(v) => v as nat,
        None => 1,
    }
}

/// The original lines from `o` on.
pub open spec fn rest_of(orig: Seq<Seq<char>>, o: int) -> Seq<Seq<char>> {
    if o < orig.len() {
        orig.subrange(o, orig.len() as int)
    } else {
        seq![]
    }
}

/// One run of the patcher: `i` is the next diff line, `o` the next original
/// line, `out` the lines produced so far, `in_hunk` whether a hunk body is
/// being read.
///
/// Outside a hunk, file headers, lines that do not start with `"@@"` and
/// headers without a second field are skipped; a hunk header copies the
/// original lines up to the hunk's start. Inside a hunk, a context line copies
/// the next original line, a `-` line drops it, a `+` line adds its text, any
/// other line is added as it is, and `"@@"` ends the hunk. At the end the rest
/// of the original follows.
pub open spec fn patch_run(
    orig: Seq<Seq<char>>,
    diff: Seq<Seq<char>>,
    i: int,
    o: int,
    out: Seq<Seq<char>>,
    in_hunk: bool,
) -> Seq<Seq<char>>
    decreases diff.len() - i, if in_hunk {
        1int
    } else {
        0int
    },
{
    if i >= diff.len() || i < 0 {
        out + rest_of(orig, o)
    } else {
        let l = diff[i];
        if in_hunk {
            if starts_with(l, hunk_marker()) {
                patch_run(orig, diff, i, o, out, false)
            } else if starts_with(l, seq![' ']) {
                if 0 <= o < orig.len() {
                    patch_run(orig, diff, i + 1, o + 1, out.push(orig[o]), true)
                } else {
                    patch_run(orig, diff, i + 1, o, out, true)
                }
            } else if starts_with(l, seq!['-']) {
                patch_run(orig, diff, i + 1, o + 1, out, true)
            } else if starts_with(l, seq!['+']) {
                patch_run(orig, diff, i + 1, o, out.push(l.drop_first()), true)
            } else {
                patch_run(orig, diff, i + 1, o, out.push(l), true)
            }
        } else if starts_with(l, old_file_marker()) || starts_with(l, new_file_marker())
            || !starts_with(l, hunk_marker()) || !has_second_field(l) {
            patch_run(orig, diff, i + 1, o, out, false)
        } else {
            let start = hunk_old_start(l);
            let hs: int = if start == 0 {
                0
            } else {
                start - 1
            };
            let e: int = if hs < orig.len() {
                hs
            } else {
                orig.len() as int
            };
            if 0 <= o < e {
                patch_run(orig, diff, i + 1, e, out + orig.subrange(o, e), true)
            } else {
                patch_run(orig, diff, i + 1, o, out, true)
            }
        }
    }
}

/// The lines that patching `orig` with `diff` gives.
pub open spec fn patch(orig: Seq<Seq<char>>, diff: Seq<Seq<char>>) -> Seq<Seq<char>> {
    patch_run(orig, diff, 0, 0, seq![], false)
}

/// The text that `apply_unified_diff(original, diff)` returns: the patched lines
/// joined by newlines, with a final newline.
pub open spec fn patched_text(original: Seq<char>, diff: Seq<char>) -> Seq<char> {
    join_lines(patch(lines(original), lines(diff))) + seq!['\n']
}

/// Past the end of the original, how far past makes no difference.
proof fn lemma_patch_run_clamp(
    orig: Seq<Seq<char>>,
    diff: Seq<Seq<char>>,
    i: int,
    o: int,
    out: Seq<Seq<char>>,
    in_hunk: bool,
)
    requires
        o >= orig.len(),
    ensures
        patch_run(orig, diff, i, o, out, in_hunk) == patch_run(
            orig,
            diff,
            i,
            orig.len() as int,
            out,
            in_hunk,
        ),
    decreases diff.len() - i, if in_hunk {
        1int
    } else {
        0int
    },
{
    let n = orig.len() as int;
    if i >= diff.len() || i < 0 {
    } else {
        let l = diff[i];
        if in_hunk {
            if starts_with(l, hunk_marker()) {
                lemma_patch_run_clamp(orig, diff, i, o, out, false);
            } else if starts_with(l, seq![' ']) {
                lemma_patch_run_clamp(orig, diff, i + 1, o, out, true);
            } else if starts_with(l, seq!['-']) {
                lemma_patch_run_clamp(orig, diff, i + 1, o + 1, out, true);
                lemma_patch_run_clamp(orig, diff, i + 1, n + 1, out, true);
            } else if starts_with(l, seq!['+']) {
                lemma_patch_run_clamp(orig, diff, i + 1, o, out.push(l.drop_first()), true);
            } else {
                lemma_patch_run_clamp(orig, diff, i + 1, o, out.push(l), true);
            }
        } else if starts_with(l, old_file_marker()) || starts_with(l, new_file_marker())
            || !starts_with(l, hunk_marker()) || !has_second_field(l) {
            lemma_patch_run_clamp(orig, diff, i + 1, o, out, false);
        } else {
            lemma_patch_run_clamp(orig, diff, i + 1, o, out, true);
        }
    }
}

// ---------------------------------------------------------------------------
// The patcher
// ---------------------------------------------------------------------------

/// The old-file start line named by a hunk header that has a second field.
fn header_old_start(line: &[char]) -> (r: usize)
    requires
        has_second_field(line@),
    ensures
        r as nat == hunk_old_start(line@),
{
    let a = find_char_from(line, ' ', 0);
    assert(a < line.len());
    proof {
        lemma_find_from_bounds(line@, ' ', 0);
        lemma_find_from_bounds(line@, ' ', a + 1);
    }
    let b = find_char_from(line, ' ', a + 1);
    let field = copy_range(line, a + 1, b);
    let t = trim_start_char_chars(field.as_slice(), '-');
    proof {
        lemma_find_from_bounds(t@, ',', 0);
    }
    let c = find_char_from(t.as_slice(), ',', 0);
    let num = copy_range(t.as_slice(), 0, c);
    match parse_usize_chars(num.as_slice()) {
        Some(v) => v,
        None => 1,
    }
}

/// Applies a unified diff to a text, line by line.
///
/// File headers and anything before the first hunk header are ignored; each
/// hunk header's old start line decides how much of the original is copied
/// before the hunk; the hunk's lines then copy, drop or add lines. The result
/// always ends with a newline, and the function never fails.
pub fn apply_unified_diff(original: &str, diff: &str) -> (r: Result<String, String>)
    ensures
        r matches Ok(t) && t@ == patched_text(original@, diff@),
{
    let oc = chars_of(original);
    let dc = chars_of(diff);
    let ol = split_lines(oc.as_slice());
    let dl = split_lines(dc.as_slice());
    let ghost orig = views(ol@);
    let ghost dls = views(dl@);
    let ghost goal = patch(orig, dls);
    let old_marker = vec!['-', '-', '-', ' '];
    let new_marker = vec!['+', '+', '+', ' '];
    let hunk = vec!['@', '@'];
    let space = vec![' '];
    let minus = vec!['-'];
    let plus = vec!['+'];
    assert(old_marker@ == old_file_marker());
    assert(new_marker@ == new_file_marker());
    assert(hunk@ == hunk_marker());
    let mut result: Vec<Vec<char>> = Vec::new();
    let mut i: usize = 0;
    let mut o: usize = 0;
    assert(views(result@) =~= Seq::<Seq<char>>::empty());
    while i < dl.len()
        invariant
            orig == views(ol@),
            dls == views(dl@),
            goal == patch(orig, dls),
            old_marker@ == old_file_marker(),
            new_marker@ == new_file_marker(),
            hunk@ == hunk_marker(),
            space@ == seq![' '],
            minus@ == seq!['-'],
            plus@ == seq!['+'],
            i <= dl@.len(),
            o <= ol@.len(),
            orig.len() == ol@.len(),
            dls.len() == dl@.len(),
            patch_run(orig, dls, i as int, o as int, views(result@), false) == goal,
        decreases dl.len() - i,
    {
        let line = dl[i].as_slice();
        assert(line@ == dls[i as int]);
        if chars_start_with(line, old_marker.as_slice()) || chars_start_with(
            line,
            new_marker.as_slice(),
        ) {
            i = i + 1;
            continue ;
        }
        if !chars_start_with(line, hunk.as_slice()) {
            i = i + 1;
            continue ;
        }
        let a = find_char_from(line, ' ', 0);
        if a >= line.len() {
            i = i + 1;
            continue ;
        }
        let old_start = header_old_start(line);
        let ghost l = line@;
        i = i + 1;
        let hs = if old_start == 0 {
            0
        } else {
            old_start - 1
        };
        let ghost e: int = if hs < orig.len() {
            hs as int
        } else {
            orig.len() as int
        };
        let ghost o0 = o as int;
        let ghost out0 = views(result@);
        assert(patch_run(orig, dls, i - 1, o0, out0, false) == if 0 <= o0 < e {
            patch_run(orig, dls, i as int, e, out0 + orig.subrange(o0, e), true)
        } else {
            patch_run(orig, dls, i as int, o0, out0, true)
        });
        while o < hs && o < ol.len()
            invariant
                orig == views(ol@),
                orig.len() == ol@.len(),
                0 <= o0 <= o <= ol@.len(),
                o0 < e ==> o <= e,
                o0 >= e ==> o == o0,
                e == (if hs < orig.len() {
                    hs as int
                } else {
                    orig.len() as int
                }),
                views(result@) == out0 + orig.subrange(o0, o as int),
            decreases ol.len() - o,
        {
            let copy = copy_range(ol[o].as_slice(), 0, ol[o].len());
            assert(ol@[o as int]@.subrange(0, ol@[o as int]@.len() as int) =~= ol@[o as int]@);
            assert(orig[o as int] == ol@[o as int]@);
            proof {
                assert(views(result@.push(copy)) =~= views(result@).push(copy@));
                assert(out0 + orig.subrange(o0, o + 1) =~= (out0 + orig.subrange(o0, o as int)).push(
                    orig[o as int],
                ));
            }
            result.push(copy);
            o = o + 1;
        }
        proof {
            if o0 < e {
                assert(o == e);
            } else {
                assert(o == o0);
                assert(views(result@) =~= out0);
            }
        }
        assert(patch_run(orig, dls, i as int, o as int, views(result@), true) == goal);
        let ghost i1 = i;
        while i < dl.len()
            invariant
                i1 <= i,
                orig == views(ol@),
                dls == views(dl@),
                goal == patch(orig, dls),
                hunk@ == hunk_marker(),
                space@ == seq![' '],
                minus@ == seq!['-'],
                plus@ == seq!['+'],
                i <= dl@.len(),
                o <= ol@.len(),
                orig.len() == ol@.len(),
                dls.len() == dl@.len(),
                patch_run(orig, dls, i as int, o as int, views(result@), true) == goal,
            ensures
                i >= dl@.len() || starts_with(dls[i as int], hunk_marker()),
            decreases dl.len() - i,
        {
            let dline = dl[i].as_slice();
            assert(dline@ == dls[i as int]);
            if chars_start_with(dline, hunk.as_slice()) {
                break ;
            }
            if chars_start_with(dline, space.as_slice()) {
                if o < ol.len() {
                    assert(orig[o as int] == ol@[o as int]@);
                    let copy = copy_range(ol[o].as_slice(), 0, ol[o].len());
                    assert(ol@[o as int]@.subrange(0, ol@[o as int]@.len() as int)
                        =~= ol@[o as int]@);
                    assert(views(result@.push(copy)) =~= views(result@).push(copy@));
                    result.push(copy);
                    o = o + 1;
                }
                i = i + 1;
            } else if chars_start_with(dline, minus.as_slice()) {
                if o < ol.len() {
                    o = o + 1;
                } else {
                    proof {
                        lemma_patch_run_clamp(orig, dls, i + 1, o + 1, views(result@), true);
                    }
                }
                i = i + 1;
            } else if chars_start_with(dline, plus.as_slice()) {
                let added = copy_range(dline, 1, dline.len());
                assert(added@ =~= dline@.drop_first());
                assert(views(result@.push(added)) =~= views(result@).push(added@));
                result.push(added);
                i = i + 1;
            } else {
                let added = copy_range(dline, 0, dline.len());
                assert(added@ =~= dline@);
                assert(views(result@.push(added)) =~= views(result@).push(added@));
                result.push(added);
                i = i + 1;
            }
        }
        assert(patch_run(orig, dls, i as int, o as int, views(result@), false) == patch_run(
            orig,
            dls,
            i as int,
            o as int,
            views(result@),
            true,
        ));
    }
    let ghost out1 = views(result@);
    let ghost o1 = o as int;
    assert(goal == out1 + rest_of(orig, o1));
    while o < ol.len()
        invariant
            orig == views(ol@),
            orig.len() == ol@.len(),
            0 <= o1 <= o <= ol@.len(),
            views(result@) == out1 + orig.subrange(o1, o as int),
        decreases ol.len() - o,
    {
        let copy = copy_range(ol[o].as_slice(), 0, ol[o].len());
        assert(ol@[o as int]@.subrange(0, ol@[o as int]@.len() as int) =~= ol@[o as int]@);
        assert(orig[o as int] == ol@[o as int]@);
        assert(views(result@.push(copy)) =~= views(result@).push(copy@));
        assert(out1 + orig.subrange(o1, o + 1) =~= (out1 + orig.subrange(o1, o as int)).push(
            orig[o as int],
        ));
        result.push(copy);
        o = o + 1;
    }
    assert(views(result@) =~= goal);
    let mut s = String::new();
    push_joined_lines(&mut s, &result);
    push_char(&mut s, '\n');
    assert(s@ =~= patched_text(original@, diff@));
    Ok(s)
}

} // verus!

verus! {

// ---------------------------------------------------------------------------
// Diffs for actions
// ---------------------------------------------------------------------------

/// Why no diff could be produced for an action.
#[derive(Debug)]
pub enum LlmError {
    LlmCallFailed(String),
    InvalidDiff(String),
    NoDiffGenerated,
}

/// A diff against one source file, with a description of the change.
#[derive(Debug)]
pub struct Diff {
    pub original_file: String,
    pub unified_diff: String,
    pub description: String,
}

/// `"BASE_OPERATIONS"`
pub open spec fn base_list_marker() -> Seq<char> {
    seq!['B', 'A', 'S', 'E', '_', 'O', 'P', 'E', 'R', 'A', 'T', 'I', 'O', 'N', 'S']
}

/// `"];"`
pub open spec fn list_close() -> Seq<char> {
    seq![']', ';']
}

/// A one-hunk diff of `file` whose header is `@@ -at,0 +at+1,1 @@` and whose
/// body adds `new_line`.
pub open spec fn insertion_diff(file: Seq<char>, at: nat, new_line: Seq<char>) -> Seq<char> {
    seq!['-', '-', '-', ' ', 'a', '/'] + file + seq!['\n', '+', '+', '+', ' ', 'b', '/'] + file
        + seq!['\n', '@', '@', ' ', '-'] + decimal(at) + seq![',', '0', ' ', '+'] + decimal(at + 1)
        + seq![',', '1', ' ', '@', '@', '\n', '+'] + new_line
}

/// The line of the operator list that names a new operator: `    "name",`.
pub open spec fn operator_entry(name: Seq<char>) -> Seq<char> {
    seq![' ', ' ', ' ', ' ', '"'] + name + seq!['"', ',']
}

/// The comment that records a plain action: `// emergent: op target p1 p2`.
pub open spec fn action_comment(
    op: Seq<char>,
    target: Seq<char>,
    p1: Seq<char>,
    p2: Seq<char>,
) -> Seq<char> {
    "// emergent: "@ + action_words(op, target, p1, p2)
}

/// `op target p1 p2`
pub open spec fn action_words(
    op: Seq<char>,
    target: Seq<char>,
    p1: Seq<char>,
    p2: Seq<char>,
) -> Seq<char> {
    op + seq![' '] + target + seq![' '] + p1 + seq![' '] + p2
}

/// Index of the line that closes the operator list: the first line after a
/// line naming `BASE_OPERATIONS` whose trimmed text is `];`, or 0.
pub open spec fn list_close_index(ls: Seq<Seq<char>>, i: int, in_base: bool) -> int
    decreases ls.len() - i,
{
    if i >= ls.len() || i < 0 {
        0
    } else if contains(ls[i], base_list_marker()) {
        list_close_index(ls, i + 1, true)
    } else if in_base && trim(ls[i]) == list_close() {
        i
    } else {
        list_close_index(ls, i + 1, in_base)
    }
}

/// The diff text that `synth_diff` writes for an action on `file` whose
/// current content is `code`.
pub open spec fn synth_diff_text(
    op: Seq<char>,
    target: Seq<char>,
    p1: Seq<char>,
    p2: Seq<char>,
    file: Seq<char>,
    code: Seq<char>,
) -> Seq<char> {
    let ls = lines(code);
    if op == "create_operator"@ {
        if contains(code, seq!['"'] + target + seq!['"']) {
            seq![]
        } else {
            let k = list_close_index(ls, 0, false);
            if k > 0 {
                insertion_diff(file, (k + 1) as nat, operator_entry(target))
            } else {
                insertion_diff(file, ls.len(), operator_entry(target))
            }
        }
    } else if ls.len() == 0 {
        insertion_diff(file, 0, action_comment(op, target, p1, p2)) + seq!['\n']
    } else {
        insertion_diff(file, ls.len(), action_comment(op, target, p1, p2))
    }
}

/// The description that `synth_diff` gives its diff.
pub open spec fn synth_diff_description(
    op: Seq<char>,
    target: Seq<char>,
    p1: Seq<char>,
    p2: Seq<char>,
    code: Seq<char>,
) -> Seq<char> {
    if op == "create_operator"@ {
        if contains(code, seq!['"'] + target + seq!['"']) {
            "skip duplicate operator "@ + target
        } else {
            "create operator "@ + target
        }
    } else {
        action_words(op, target, p1, p2)
    }
}

/// Appends `insertion_diff(file, at, new_line)` to `s`.
fn push_insertion_diff(s: &mut String, file: &str, at: u128, new_line: &[char])
    requires
        at < u128::MAX,
    ensures
        final(s)@ == old(s)@ + insertion_diff(file@, at as nat, new_line@),
{
    let fc = chars_of(file);
    let v1 = vec!['-', '-', '-', ' ', 'a', '/'];
    let v2 = vec!['\n', '+', '+', '+', ' ', 'b', '/'];
    let v3 = vec!['\n', '@', '@', ' ', '-'];
    let v4 = vec![',', '0', ' ', '+'];
    let v5 = vec![',', '1', ' ', '@', '@', '\n', '+'];
    push_chars(s, v1.as_slice());
    push_chars(s, fc.as_slice());
    push_chars(s, v2.as_slice());
    push_chars(s, fc.as_slice());
    push_chars(s, v3.as_slice());
    push_decimal(s, at);
    push_chars(s, v4.as_slice());
    push_decimal(s, at + 1);
    push_chars(s, v5.as_slice());
    push_chars(s, new_line);
    assert(s@ =~= old(s)@ + insertion_diff(file@, at as nat, new_line@));
}

/// Appends `op target p1 p2` to `s`.
fn push_action_words(s: &mut String, action: &Action)
    ensures
        final(s)@ == old(s)@ + action_words(
            action.operation@,
            action.target@,
            action.param1@,
            action.param2@,
        ),
{
    push_str(s, action.operation.as_str());
    push_char(s, ' ');
    push_str(s, action.target.as_str());
    push_char(s, ' ');
    push_str(s, action.param1.as_str());
    push_char(s, ' ');
    push_str(s, action.param2.as_str());
    assert(s@ =~= old(s)@ + action_words(
        action.operation@,
        action.target@,
        action.param1@,
        action.param2@,
    ));
}

/// The index of the line that closes the operator list, or 0.
fn find_list_close(ls: &Vec<Vec<char>>) -> (k: usize)
    ensures
        k as int == list_close_index(views(ls@), 0, false),
        k < ls@.len() || k == 0,
{
    let marker = vec!['B', 'A', 'S', 'E', '_', 'O', 'P', 'E', 'R', 'A', 'T', 'I', 'O', 'N', 'S'];
    let close = vec![']', ';'];
    let ghost vs = views(ls@);
    let mut in_base = false;
    let mut i: usize = 0;
    while i < ls.len()
        invariant
            i <= ls@.len(),
            vs == views(ls@),
            vs.len() == ls@.len(),
            marker@ == base_list_marker(),
            close@ == list_close(),
            list_close_index(vs, i as int, in_base) == list_close_index(vs, 0, false),
        decreases ls.len() - i,
    {
        let line = ls[i].as_slice();
        assert(line@ == vs[i as int]);
        if chars_contain(line, marker.as_slice()) {
            in_base = true;
            i = i + 1;
            continue ;
        }
        if in_base {
            let t = trim_chars(line);
            if t.len() == 2 && t[0] == ']' && t[1] == ';' {
                assert(t@ =~= list_close());
                return i;
            }
            assert(t@ != list_close());
        }
        i = i + 1;
    }
    0
}

/// The deterministic diff for an action against the current content of `file`.
///
/// `create_operator` adds the operator's name to the operator list (or is
/// skipped when the name is already quoted in the code); any other action
/// adds a comment line that records it.
pub fn synth_diff(action: &Action, file: &str, current_code: &str) -> (d: Diff)
    ensures
        d.original_file@ == file@,
        d.unified_diff@ == synth_diff_text(
            action.operation@,
            action.target@,
            action.param1@,
            action.param2@,
            file@,
            current_code@,
        ),
        d.description@ == synth_diff_description(
            action.operation@,
            action.target@,
            action.param1@,
            action.param2@,
            current_code@,
        ),
{
    let code = chars_of(current_code);
    let ls = split_lines(code.as_slice());
    let n = ls.len();
    if str_eq(action.operation.as_str(), "create_operator") {
        let mut quoted = String::new();
        push_char(&mut quoted, '"');
        push_str(&mut quoted, action.target.as_str());
        push_char(&mut quoted, '"');
        assert(quoted@ =~= seq!['"'] + action.target@ + seq!['"']);
        if str_contains(current_code, quoted.as_str()) {
            let mut description = String::new();
            push_str(&mut description, "skip duplicate operator ");
            push_str(&mut description, action.target.as_str());
            return Diff {
                original_file: string_of_str(file),
                unified_diff: String::new(),
                description,
            };
        }
        let mut entry = vec![' ', ' ', ' ', ' ', '"'];
        let tc = chars_of(action.target.as_str());
        let mut j: usize = 0;
        while j < tc.len()
            invariant
                j <= tc@.len(),
                entry@ == seq![' ', ' ', ' ', ' ', '"'] + tc@.subrange(0, j as int),
            decreases tc.len() - j,
        {
            entry.push(tc[j]);
            assert(tc@.subrange(0, j + 1) =~= tc@.subrange(0, j as int).push(tc@[j as int]));
            j = j + 1;
        }
        entry.push('"');
        entry.push(',');
        assert(tc@.subrange(0, tc@.len() as int) =~= tc@);
        assert(entry@ =~= operator_entry(action.target@));
        let k = find_list_close(&ls);
        let mut text = String::new();
        if k > 0 {
            push_insertion_diff(&mut text, file, k as u128 + 1, entry.as_slice());
        } else {
            push_insertion_diff(&mut text, file, n as u128, entry.as_slice());
        }
        let mut description = String::new();
        push_str(&mut description, "create operator ");
        push_str(&mut description, action.target.as_str());
        assert(text@ =~= synth_diff_text(
            action.operation@,
            action.target@,
            action.param1@,
            action.param2@,
            file@,
            current_code@,
        ));
        return Diff { original_file: string_of_str(file), unified_diff: text, description };
    }
    let mut comment = String::new();
    push_str(&mut comment, "// emergent: ");
    push_action_words(&mut comment, action);
    let cc = chars_of(comment.as_str());
    let mut text = String::new();
    if n == 0 {
        push_insertion_diff(&mut text, file, 0, cc.as_slice());
        push_char(&mut text, '\n');
    } else {
        push_insertion_diff(&mut text, file, n as u128, cc.as_slice());
    }
    let mut description = String::new();
    push_action_words(&mut description, action);
    assert(description@ =~= synth_diff_description(
        action.operation@,
        action.target@,
        action.param1@,
        action.param2@,
        current_code@,
    ));
    Diff { original_file: string_of_str(file), unified_diff: text, description }
}

} // verus!

verus! {

/// The source file that the diff for an action changes: `emergent.rs` for
/// `create_operator`, otherwise the target with `.rs` ensured.
pub open spec fn target_file_text(action: crate::action::ActionModel) -> Seq<char> {
    if action.operation == "create_operator"@ {
        "emergent.rs"@
    } else {
        crate::sandbox::rs_file_name(action.target)
    }
}

/// The source file that the diff for an action changes.
pub fn diff_target_file(action: &Action) -> (f: String)
    ensures
        f@ == target_file_text(action@),
{
    if str_eq(action.operation.as_str(), "create_operator") {
        string_of_str("emergent.rs")
    } else {
        crate::sandbox::ensure_rs(action.target.as_str())
    }
}

/// A diff proposed by a language model is taken when it is not empty and,
/// where it names a file, that name contains `file` without its `.rs`
/// endings.
pub open spec fn proposal_accepted(code_diff: Seq<char>, file_name: Seq<char>, file: Seq<char>) -> bool {
    code_diff.len() > 0 && (file_name.len() == 0 || contains(
        file_name,
        trim_end_seq(file, ".rs"@),
    ))
}

/// The diff for `file` made from a language model's proposal, if it is taken.
pub fn diff_from_response(code_diff: String, file_name: &str, description: String, file: &str) -> (r:
    Option<Diff>)
    ensures
        proposal_accepted(code_diff@, file_name@, file@) ==> (r matches Some(d)
            && d.original_file@ == file@ && d.unified_diff == code_diff && d.description
            == description),
        !proposal_accepted(code_diff@, file_name@, file@) ==> r is None,
{
    let cd = chars_of(code_diff.as_str());
    if cd.len() == 0 {
        return None;
    }
    let fc = chars_of(file);
    let suffix = chars_of(".rs");
    proof {
        reveal_strlit(".rs");
    }
    let stem = trim_end_chars(fc.as_slice(), suffix.as_slice());
    let name = chars_of(file_name);
    if name.len() > 0 && !chars_contain(name.as_slice(), stem.as_slice()) {
        return None;
    }
    Some(Diff { original_file: string_of_str(file), unified_diff: code_diff, description })
}

} // verus!
