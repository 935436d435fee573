//! Checking and applying changes: build diagnostics, the content a change
//! produces, and the names its files take.

use vstd::prelude::*;

use crate::diff::{apply_unified_diff, patched_text};
use crate::text::{
    chars_end_with, chars_of, chars_start_with, ends_with, lines, push_decimal, push_str,
    split_lines, starts_with, str_eq, string_of_str, trim, trim_chars, views, decimal, is_white,
    trim_end, trim_start,
};

verus! {

broadcast use vstd::string::group_string_axioms;

/// The outcome of building a changed source tree.
#[derive(Debug)]
pub struct SandboxResult {
    pub success: bool,
    pub build_log: String,
    pub error_count: usize,
    pub warning_count: usize,
}

/// Why a change could not be tried.
#[derive(Debug)]
pub enum SandboxError {
    BackupFailed(String),
    DiffApplyFailed(String),
    BuildFailed(String),
    RestoreFailed(String),
}

/// Why a change could not be applied.
#[derive(Debug)]
pub enum ApplierError {
    FileNotFound(String),
    ReadError(String),
    BackupError(String),
    DiffApplyFailed(String),
    WriteError(String),
}

/// A log line reports an error.
pub open spec fn is_error_line(l: Seq<char>) -> bool {
    starts_with(trim(l), "error"@)
}

/// A log line reports a warning (and no error).
pub open spec fn is_warning_line(l: Seq<char>) -> bool {
    !is_error_line(l) && starts_with(trim(l), "warning"@)
}

/// A log line whose trimmed text starts with `warning` is a warning, never an
/// error, whatever else it mentions.
pub proof fn law_warning_lines_are_not_errors(l: Seq<char>)
    requires
        starts_with(trim(l), "warning"@),
    ensures
        !is_error_line(l),
        is_warning_line(l),
{
    reveal_strlit("warning");
    reveal_strlit("error");
    let t = trim(l);
    assert(t.subrange(0, 7)[0] == 'w');
    if starts_with(t, "error"@) {
        assert(t.subrange(0, 5)[0] == 'e');
        assert(t.subrange(0, 5)[0] == t[0]);
        assert(t.subrange(0, 7)[0] == t[0]);
    }
}

/// A log line without leading or trailing white space is an error line
/// exactly when its first five characters spell `error`.
pub proof fn law_error_lines_begin_with_error(l: Seq<char>)
    requires
        l.len() > 0,
        !is_white(l[0]),
        !is_white(l.last()),
    ensures
        is_error_line(l) <==> (l.len() >= 5 && l[0] == 'e' && l[1] == 'r' && l[2] == 'r' && l[3]
            == 'o' && l[4] == 'r'),
{
    reveal_strlit("error");
    assert(trim_start(l) == l);
    assert(trim_end(l) == l);
    assert(trim(l) == l);
    if l.len() >= 5 {
        let p = l.subrange(0, 5);
        assert(p[0] == l[0] && p[1] == l[1] && p[2] == l[2] && p[3] == l[3] && p[4] == l[4]);
        if l[0] == 'e' && l[1] == 'r' && l[2] == 'r' && l[3] == 'o' && l[4] == 'r' {
            assert(p =~= "error"@);
        }
    }
}

/// Leading white space does not change how a log line counts.
pub proof fn law_leading_space_is_ignored(l: Seq<char>)
    ensures
        is_error_line(seq![' '] + l) == is_error_line(l),
        is_warning_line(seq![' '] + l) == is_warning_line(l),
{
    let s = seq![' '] + l;
    assert(is_white(' '));
    assert(s.drop_first() =~= l);
    assert(trim_start(s) == trim_start(l));
    assert(trim(s) == trim(l));
}

/// How many of the first `n` lines report errors.
pub open spec fn error_lines(ls: Seq<Seq<char>>, n: int) -> nat
    decreases n,
{
    if n <= 0 {
        0
    } else {
        error_lines(ls, n - 1) + if is_error_line(ls[n - 1]) {
            1nat
        } else {
            0nat
        }
    }
}

/// How many of the first `n` lines report warnings.
pub open spec fn warning_lines(ls: Seq<Seq<char>>, n: int) -> nat
    decreases n,
{
    if n <= 0 {
        0
    } else {
        warning_lines(ls, n - 1) + if is_warning_line(ls[n - 1]) {
            1nat
        } else {
            0nat
        }
    }
}

/// Counts the error and the warning lines of a build log.
pub fn count_diagnostics(log: &str) -> (r: (usize, usize))
    ensures
        r.0 == error_lines(lines(log@), lines(log@).len() as int),
        r.1 == warning_lines(lines(log@), lines(log@).len() as int),
{
    let chars = chars_of(log);
    let ls = split_lines(chars.as_slice());
    let ghost vs = views(ls@);
    let error = chars_of("error");
    let warning = chars_of("warning");
    let mut e: usize = 0;
    let mut w: usize = 0;
    let mut i: usize = 0;
    while i < ls.len()
        invariant
            vs == views(ls@),
            vs == lines(log@),
            error@ == "error"@,
            warning@ == "warning"@,
            i <= ls@.len(),
            e == error_lines(vs, i as int),
            w == warning_lines(vs, i as int),
            e + w <= i,
        decreases ls.len() - i,
    {
        assert(vs[i as int] == ls@[i as int]@);
        let t = trim_chars(ls[i].as_slice());
        if chars_start_with(t.as_slice(), error.as_slice()) {
            e = e + 1;
        } else if chars_start_with(t.as_slice(), warning.as_slice()) {
            w = w + 1;
        }
        i = i + 1;
    }
    (e, w)
}

impl SandboxResult {
    /// The result of a build with the given log: its diagnostics counted.
    pub fn from_build(success: bool, build_log: String) -> (r: SandboxResult)
        ensures
            r.success == success,
            r.build_log == build_log,
            r.error_count == error_lines(lines(build_log@), lines(build_log@).len() as int),
            r.warning_count == warning_lines(lines(build_log@), lines(build_log@).len() as int),
    {
        let (error_count, warning_count) = count_diagnostics(build_log.as_str());
        SandboxResult { success, build_log, error_count, warning_count }
    }

    /// The build went through without errors, so the change may be applied.
    pub fn accepted(&self) -> (b: bool)
        ensures
            b == (self.success && self.error_count == 0),
    {
        self.success && self.error_count == 0
    }
}

/// `name`, with `.rs` added unless it ends so already.
pub open spec fn rs_file_name(name: Seq<char>) -> Seq<char> {
    if ends_with(name, ".rs"@) {
        name
    } else {
        name + ".rs"@
    }
}

/// `name`, with `.rs` added unless it ends so already.
pub fn ensure_rs(name: &str) -> (r: String)
    ensures
        r@ == rs_file_name(name@),
{
    let n = chars_of(name);
    let suffix = chars_of(".rs");
    if chars_end_with(n.as_slice(), suffix.as_slice()) {
        string_of_str(name)
    } else {
        let mut s = string_of_str(name);
        push_str(&mut s, ".rs");
        s
    }
}

/// The content a diff gives a file, or the error when it changes nothing.
pub fn patched_content(diff: &str, original: &str) -> (r: Result<String, ApplierError>)
    ensures
        patched_text(original@, diff@) != original@ ==> (r matches Ok(t) && t@ == patched_text(
            original@,
            diff@,
        )),
        patched_text(original@, diff@) == original@ ==> (r matches Err(
            ApplierError::DiffApplyFailed(m),
        ) && m@ == "diff produced no changes"@),
{
    let new_content = match apply_unified_diff(original, diff) {
        Ok(c) => c,
        Err(e) => {
            return Err(ApplierError::DiffApplyFailed(e));
        },
    };
    if str_eq(new_content.as_str(), original) {
        return Err(ApplierError::DiffApplyFailed(string_of_str("diff produced no changes")));
    }
    Ok(new_content)
}

/// The name of a backup of `file_name` taken at `secs`: `file_name.secs.bak`.
pub fn backup_file_name(file_name: &str, secs: u64) -> (r: String)
    ensures
        r@ == file_name@ + seq!['.'] + decimal(secs as nat) + ".bak"@,
{
    let mut s = string_of_str(file_name);
    push_str(&mut s, ".");
    push_decimal(&mut s, secs as u128);
    push_str(&mut s, ".bak");
    proof {
        reveal_strlit(".");
    }
    s
}

} // verus!
