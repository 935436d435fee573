//! Further laws of the patcher and of the diff generator: what a hunk body's
//! lines do, where a new operator lands, what re-reading patched code gives,
//! and that an operator once written is not proposed again.

use vstd::prelude::*;

use crate::diff::{
    action_comment, base_list_marker, has_second_field, hunk_marker, hunk_old_start,
    list_close, list_close_index, new_file_marker, old_file_marker, operator_entry, patch_run,
    patched_text, rest_of, synth_diff_description, synth_diff_text,
};
use crate::patch_laws::{
    ends_with_cr, law_synth_diff_round_trip, lemma_lines_cons, lemma_list_close_index_bound,
    lemma_lines_single_terminated, no_newline, synth_insert_position,
};
use crate::text::{
    contains, is_white, join_lines, lines, lines_acc, occurs_at, starts_with, strip_cr, trim,
    trim_end, trim_start,
};

verus! {

// ---------------------------------------------------------------------------
// Lines that act alike
// ---------------------------------------------------------------------------

/// Two diff lines act alike: they are equal, or both are context lines or
/// both are removal lines (same first character, `' '` or `'-'`), whatever
/// follows that character.
pub open spec fn acts_alike(a: Seq<char>, b: Seq<char>) -> bool {
    a == b || (a.len() > 0 && b.len() > 0 && a[0] == b[0] && (a[0] == ' ' || a[0] == '-'))
}

proof fn lemma_first_char_starts(a: Seq<char>, c: char)
    requires
        a.len() > 0,
    ensures
        starts_with(a, seq![c]) <==> a[0] == c,
{
    if a[0] == c {
        assert(a.subrange(0, 1) =~= seq![c]);
    } else {
        assert(a.subrange(0, 1)[0] != seq![c][0]);
    }
}

proof fn lemma_not_hunk(a: Seq<char>)
    requires
        a.len() > 0,
        a[0] != '@',
    ensures
        !starts_with(a, hunk_marker()),
{
    if a.len() >= 2 {
        assert(a.subrange(0, 2)[0] != hunk_marker()[0]);
    }
}

proof fn lemma_run_alike(
    orig: Seq<Seq<char>>,
    d1: Seq<Seq<char>>,
    d2: Seq<Seq<char>>,
    i: int,
    o: int,
    out: Seq<Seq<char>>,
    in_hunk: bool,
)
    requires
        d1.len() == d2.len(),
        forall|k: int| 0 <= k < d1.len() ==> acts_alike(#[trigger] d1[k], d2[k]),
    ensures
        patch_run(orig, d1, i, o, out, in_hunk) == patch_run(orig, d2, i, o, out, in_hunk),
    decreases d1.len() - i, if in_hunk {
        1int
    } else {
        0int
    },
{
    if i >= d1.len() || i < 0 {
    } else {
        let a = d1[i];
        let b = d2[i];
        assert(acts_alike(a, b));
        if a != b {
            lemma_not_hunk(a);
            lemma_not_hunk(b);
            lemma_first_char_starts(a, ' ');
            lemma_first_char_starts(b, ' ');
            lemma_first_char_starts(a, '-');
            lemma_first_char_starts(b, '-');
        }
        if in_hunk {
            if starts_with(a, hunk_marker()) {
                lemma_run_alike(orig, d1, d2, i, o, out, false);
            } else if starts_with(a, seq![' ']) {
                if 0 <= o < orig.len() {
                    lemma_run_alike(orig, d1, d2, i + 1, o + 1, out.push(orig[o]), true);
                } else {
                    lemma_run_alike(orig, d1, d2, i + 1, o, out, true);
                }
            } else if starts_with(a, seq!['-']) {
                lemma_run_alike(orig, d1, d2, i + 1, o + 1, out, true);
            } else if starts_with(a, seq!['+']) {
                lemma_run_alike(orig, d1, d2, i + 1, o, out.push(a.drop_first()), true);
            } else {
                lemma_run_alike(orig, d1, d2, i + 1, o, out.push(a), true);
            }
        } else if starts_with(a, old_file_marker()) || starts_with(a, new_file_marker())
            || !starts_with(a, hunk_marker()) || !has_second_field(a) {
            lemma_run_alike(orig, d1, d2, i + 1, o, out, false);
        } else {
            let start = hunk_old_start(a);
            let hs: int = if start == 0 {
                0
            } else {
                start - 1
            };
            let e: int = if hs < orig.len() {
                hs
            } else {
                orig.len() as int
            };
            if 0 <= o < e {
                lemma_run_alike(orig, d1, d2, i + 1, e, out + orig.subrange(o, e), true);
            } else {
                lemma_run_alike(orig, d1, d2, i + 1, o, out, true);
            }
        }
    }
}

/// The patcher reads context and removal lines by their first character
/// only: two diffs whose lines act alike, one for one, patch any text the
/// same way.
pub proof fn law_context_and_removal_text_is_ignored(
    original: Seq<char>,
    diff1: Seq<char>,
    diff2: Seq<char>,
)
    requires
        lines(diff1).len() == lines(diff2).len(),
        forall|k: int|
            0 <= k < lines(diff1).len() ==> acts_alike(#[trigger] lines(diff1)[k], lines(diff2)[k]),
    ensures
        patched_text(original, diff1) == patched_text(original, diff2),
{
    lemma_run_alike(lines(original), lines(diff1), lines(diff2), 0, 0, seq![], false);
}

// ---------------------------------------------------------------------------
// Added lines after a hunk header
// ---------------------------------------------------------------------------

/// How many original lines a hunk header copies before its body.
pub open spec fn hunk_copy_end(h: Seq<char>, n: int) -> int {
    let start = hunk_old_start(h);
    let hs: int = if start == 0 {
        0
    } else {
        start - 1
    };
    if hs < n {
        hs
    } else {
        n
    }
}

/// The text of added lines, their `'+'` dropped.
pub open spec fn added_texts(adds: Seq<Seq<char>>) -> Seq<Seq<char>> {
    adds.map_values(|l: Seq<char>| l.drop_first())
}

proof fn lemma_run_adds(orig: Seq<Seq<char>>, d: Seq<Seq<char>>, i: int, e: int, out: Seq<Seq<char>>)
    requires
        1 <= i <= d.len(),
        0 <= e <= orig.len(),
        forall|k: int| 1 <= k < d.len() ==> starts_with(#[trigger] d[k], seq!['+']),
    ensures
        patch_run(orig, d, i, e, out, true) == out + added_texts(d.subrange(i, d.len() as int))
            + orig.subrange(e, orig.len() as int),
    decreases d.len() - i,
{
    if i < d.len() {
        let l = d[i];
        assert(starts_with(l, seq!['+']));
        assert(l[0] == '+') by {
            assert(l.subrange(0, 1) =~= seq!['+']);
            assert(l.subrange(0, 1)[0] == l[0]);
        }
        lemma_not_hunk(l);
        lemma_first_char_starts(l, ' ');
        lemma_first_char_starts(l, '-');
        lemma_run_adds(orig, d, i + 1, e, out.push(l.drop_first()));
        assert(added_texts(d.subrange(i, d.len() as int)) =~= seq![l.drop_first()] + added_texts(
            d.subrange(i + 1, d.len() as int),
        ));
        assert(out.push(l.drop_first()) =~= out + seq![l.drop_first()]);
    } else {
        assert(added_texts(d.subrange(i, d.len() as int)) =~= Seq::<Seq<char>>::empty());
        assert(rest_of(orig, e) =~= orig.subrange(e, orig.len() as int));
    }
}

/// A diff made of one hunk header followed only by added lines inserts those
/// lines, in order and without their `'+'`, after the original lines that the
/// header's start line names; nothing else changes.
pub proof fn law_added_lines_after_hunk_header(original: Seq<char>, diff: Seq<char>)
    requires
        lines(diff).len() >= 1,
        starts_with(lines(diff)[0], hunk_marker()),
        has_second_field(lines(diff)[0]),
        forall|k: int| 1 <= k < lines(diff).len() ==> starts_with(#[trigger] lines(diff)[k], seq!['+']),
    ensures
        ({
            let o = lines(original);
            let d = lines(diff);
            let e = hunk_copy_end(d[0], o.len() as int);
            patched_text(original, diff) == join_lines(
                o.subrange(0, e) + added_texts(d.drop_first()) + o.subrange(e, o.len() as int),
            ) + seq!['\n']
        }),
{
    let o = lines(original);
    let d = lines(diff);
    let h = d[0];
    let e = hunk_copy_end(h, o.len() as int);
    assert(h[0] == '@') by {
        assert(h.subrange(0, 2) =~= hunk_marker());
        assert(h.subrange(0, 2)[0] == h[0]);
    }
    assert(!starts_with(h, old_file_marker())) by {
        if h.len() >= 4 {
            assert(h.subrange(0, 4)[0] == '@');
        }
    }
    assert(!starts_with(h, new_file_marker())) by {
        if h.len() >= 4 {
            assert(h.subrange(0, 4)[0] == '@');
        }
    }
    lemma_run_adds(o, d, 1, e, o.subrange(0, e));
    assert(d.subrange(1, d.len() as int) =~= d.drop_first());
    if 0 < e {
        assert(Seq::<Seq<char>>::empty() + o.subrange(0, e) =~= o.subrange(0, e));
    } else {
        assert(o.subrange(0, e) =~= Seq::<Seq<char>>::empty());
    }
}

// ---------------------------------------------------------------------------
// Lines and joins
// ---------------------------------------------------------------------------

proof fn lemma_lines_acc_no_newline(s: Seq<char>, i: int, start: int)
    requires
        0 <= start <= i <= s.len(),
        forall|k: int| start <= k < i ==> s[k] != '\n',
    ensures
        forall|j: int|
            0 <= j < lines_acc(s, i, start).len() ==> no_newline(#[trigger] lines_acc(s, i, start)[j]),
    decreases s.len() - i,
{
    if i >= s.len() {
        if start < s.len() {
            let l = s.subrange(start, s.len() as int);
            assert forall|k: int| 0 <= k < l.len() implies l[k] != '\n' by {
                assert(l[k] == s[start + k]);
            }
            assert(lines_acc(s, i, start) == seq![l]);
            assert(no_newline(l));
        } else {
            assert(lines_acc(s, i, start).len() == 0);
        }
    } else if s[i] == '\n' {
        lemma_lines_acc_no_newline(s, i + 1, i + 1);
        let first = strip_cr(s.subrange(start, i));
        assert(no_newline(first)) by {
            assert forall|k: int| 0 <= k < first.len() implies first[k] != '\n' by {
                assert(first[k] == s[start + k]);
            }
        }
        let rest = lines_acc(s, i + 1, i + 1);
        assert forall|j: int|
            0 <= j < lines_acc(s, i, start).len() implies no_newline(
            #[trigger] lines_acc(s, i, start)[j],
        ) by {
            assert(lines_acc(s, i, start) == seq![first] + rest);
            if j > 0 {
                assert(lines_acc(s, i, start)[j] == rest[j - 1]);
            }
        }
    } else {
        lemma_lines_acc_no_newline(s, i + 1, start);
        assert(lines_acc(s, i, start) == lines_acc(s, i + 1, start));
    }
}

/// No line of a text holds a line break.
pub proof fn lemma_lines_no_newline(s: Seq<char>)
    ensures
        forall|j: int| 0 <= j < lines(s).len() ==> no_newline(#[trigger] lines(s)[j]),
{
    lemma_lines_acc_no_newline(s, 0, 0);
}

proof fn lemma_join_cons(a: Seq<char>, rest: Seq<Seq<char>>)
    requires
        rest.len() > 0,
    ensures
        join_lines(seq![a] + rest) == a + seq!['\n'] + join_lines(rest),
    decreases rest.len(),
{
    let ls = seq![a] + rest;
    if rest.len() == 1 {
        assert(ls.drop_last() =~= seq![a]);
        assert(join_lines(seq![a]) == a);
        assert(ls.last() == rest[0]);
        assert(join_lines(rest) == rest[0]);
    } else {
        lemma_join_cons(a, rest.drop_last());
        assert(ls.drop_last() =~= seq![a] + rest.drop_last());
        assert(ls.last() == rest.last());
        assert(join_lines(rest) == join_lines(rest.drop_last()) + seq!['\n'] + rest.last());
        assert(a + seq!['\n'] + join_lines(rest.drop_last()) + seq!['\n'] + rest.last() =~= a
            + seq!['\n'] + (join_lines(rest.drop_last()) + seq!['\n'] + rest.last()));
    }
}

/// Lines without line breaks or trailing carriage returns, written out one
/// per line, read back as themselves.
pub proof fn lemma_lines_of_join(ls: Seq<Seq<char>>)
    requires
        ls.len() >= 1,
        forall|i: int| 0 <= i < ls.len() ==> no_newline(#[trigger] ls[i]) && !ends_with_cr(ls[i]),
    ensures
        lines(join_lines(ls) + seq!['\n']) == ls,
    decreases ls.len(),
{
    let a = ls[0];
    assert(no_newline(a) && !ends_with_cr(a));
    if ls.len() == 1 {
        lemma_lines_single_terminated(a);
        assert(strip_cr(a) == a);
        assert(ls =~= seq![a]);
    } else {
        let rest = ls.drop_first();
        assert(ls =~= seq![a] + rest);
        assert forall|i: int| 0 <= i < rest.len() implies no_newline(#[trigger] rest[i])
            && !ends_with_cr(rest[i]) by {
            assert(rest[i] == ls[i + 1]);
        }
        lemma_lines_of_join(rest);
        lemma_join_cons(a, rest);
        assert(join_lines(ls) + seq!['\n'] =~= a + seq!['\n'] + (join_lines(rest) + seq!['\n']));
        lemma_lines_cons(a, join_lines(rest) + seq!['\n']);
        assert(strip_cr(a) == a);
    }
}

proof fn lemma_occurs_in_prefix(a: Seq<char>, b: Seq<char>, x: Seq<char>, p: int)
    requires
        occurs_at(a, x, p),
    ensures
        occurs_at(a + b, x, p),
{
    assert((a + b).subrange(p, p + x.len()) =~= a.subrange(p, p + x.len()));
}

proof fn lemma_occurs_in_suffix(a: Seq<char>, b: Seq<char>, x: Seq<char>, p: int)
    requires
        occurs_at(b, x, p),
    ensures
        occurs_at(a + b, x, a.len() + p),
{
    assert((a + b).subrange(a.len() + p, a.len() + p + x.len()) =~= b.subrange(p, p + x.len()));
}

/// What a line holds, the joined lines hold.
pub proof fn lemma_join_contains(ls: Seq<Seq<char>>, i: int, x: Seq<char>)
    requires
        0 <= i < ls.len(),
        contains(ls[i], x),
    ensures
        contains(join_lines(ls), x),
    decreases ls.len(),
{
    if ls.len() == 1 {
    } else {
        let j = join_lines(ls.drop_last());
        assert(join_lines(ls) == j + seq!['\n'] + ls.last());
        if i == ls.len() - 1 {
            let p = choose|p: int| occurs_at(ls[i], x, p);
            lemma_occurs_in_suffix(j + seq!['\n'], ls.last(), x, p);
        } else {
            assert(ls.drop_last()[i] == ls[i]);
            lemma_join_contains(ls.drop_last(), i, x);
            let p = choose|p: int| occurs_at(j, x, p);
            lemma_occurs_in_prefix(j, seq!['\n'] + ls.last(), x, p);
            assert(j + seq!['\n'] + ls.last() =~= j + (seq!['\n'] + ls.last()));
        }
    }
}

// ---------------------------------------------------------------------------
// Comments
// ---------------------------------------------------------------------------

/// A comment made of parts without line breaks has none.
pub proof fn lemma_comment_no_newline(op: Seq<char>, target: Seq<char>, p1: Seq<char>, p2: Seq<char>)
    requires
        no_newline(op),
        no_newline(target),
        no_newline(p1),
        no_newline(p2),
    ensures
        no_newline(action_comment(op, target, p1, p2)),
{
    let added = action_comment(op, target, p1, p2);
    let w = "// emergent: "@;
    reveal_strlit("// emergent: ");
    assert forall|i: int| 0 <= i < added.len() implies added[i] != '\n' by {
        let n0 = w.len() as int;
        let n1 = n0 + op.len();
        let n2 = n1 + 1 + target.len();
        let n3 = n2 + 1 + p1.len();
        if n0 <= i < n1 {
            assert(added[i] == op[i - n0]);
        } else if n1 + 1 <= i < n2 {
            assert(added[i] == target[i - n1 - 1]);
        } else if n2 + 1 <= i < n3 {
            assert(added[i] == p1[i - n2 - 1]);
        } else if n3 + 1 <= i {
            assert(added[i] == p2[i - n3 - 1]);
        }
    }
}

/// Reading back code patched with the diff that `synth_diff` makes for a
/// plain action gives the code's lines with the comment line inserted once,
/// nothing removed, changed or reordered (for code none of whose lines ends
/// in a carriage return, which a re-read would drop).
pub proof fn law_comment_diff_reads_back(
    op: Seq<char>,
    target: Seq<char>,
    p1: Seq<char>,
    p2: Seq<char>,
    file: Seq<char>,
    code: Seq<char>,
)
    requires
        op != "create_operator"@,
        no_newline(op),
        no_newline(target),
        no_newline(p1),
        no_newline(p2),
        no_newline(file),
        !ends_with_cr(action_comment(op, target, p1, p2)),
        lines(code).len() <= usize::MAX,
        forall|i: int| 0 <= i < lines(code).len() ==> !ends_with_cr(#[trigger] lines(code)[i]),
    ensures
        lines(patched_text(code, synth_diff_text(op, target, p1, p2, file, code))) == lines(
            code,
        ).insert(synth_insert_position(op, code), action_comment(op, target, p1, p2)),
{
    let ls = lines(code);
    let c = action_comment(op, target, p1, p2);
    law_synth_diff_round_trip(op, target, p1, p2, file, code);
    lemma_comment_no_newline(op, target, p1, p2);
    lemma_lines_no_newline(code);
    let e = synth_insert_position(op, code);
    let r = ls.insert(e, c);
    assert forall|i: int| 0 <= i < r.len() implies no_newline(#[trigger] r[i]) && !ends_with_cr(
        r[i],
    ) by {
        if i < e {
            assert(r[i] == ls[i]);
        } else if i > e {
            assert(r[i] == ls[i - 1]);
        }
    }
    lemma_lines_of_join(r);
}

// ---------------------------------------------------------------------------
// New operators
// ---------------------------------------------------------------------------

/// `"name"`, as an operator is quoted in the operator list.
pub open spec fn quoted(name: Seq<char>) -> Seq<char> {
    seq!['"'] + name + seq!['"']
}

/// An operator written into the source is not proposed again: for the code
/// that applying a `create_operator` diff gives, `synth_diff` makes no diff
/// and reports the duplicate.
pub proof fn law_created_operator_not_proposed_again(
    target: Seq<char>,
    p1: Seq<char>,
    p2: Seq<char>,
    file: Seq<char>,
    code: Seq<char>,
)
    requires
        !contains(code, quoted(target)),
        no_newline(target),
        no_newline(file),
        lines(code).len() <= usize::MAX,
    ensures
        ({
            let op = "create_operator"@;
            let code2 = patched_text(code, synth_diff_text(op, target, p1, p2, file, code));
            &&& synth_diff_text(op, target, p1, p2, file, code2) == Seq::<char>::empty()
            &&& synth_diff_description(op, target, p1, p2, code2) == "skip duplicate operator "@
                + target
        }),
{
    let op = "create_operator"@;
    let ls = lines(code);
    let entry = operator_entry(target);
    law_synth_diff_round_trip(op, target, p1, p2, file, code);
    let e = synth_insert_position(op, code);
    assert(0 <= e <= ls.len()) by {
        lemma_list_close_index_bound(ls, 0, false);
    }
    let r = ls.insert(e, entry);
    assert(occurs_at(entry, quoted(target), 4)) by {
        assert(entry.subrange(4, 4 + quoted(target).len() as int) =~= quoted(target));
    }
    assert(r[e] == entry);
    lemma_join_contains(r, e, quoted(target));
    let p = choose|p: int| occurs_at(join_lines(r), quoted(target), p);
    lemma_occurs_in_prefix(join_lines(r), seq!['\n'], quoted(target), p);
    let code2 = patched_text(code, synth_diff_text(op, target, p1, p2, file, code));
    assert(code2 == join_lines(r) + seq!['\n']);
    assert(contains(code2, seq!['"'] + target + seq!['"']));
}

// ---------------------------------------------------------------------------
// Where a new operator lands
// ---------------------------------------------------------------------------

proof fn lemma_trim_start_keeps(s: Seq<char>, k: int)
    requires
        0 <= k < s.len(),
        !is_white(s[k]),
    ensures
        exists|m: int| 0 <= m < trim_start(s).len() && trim_start(s)[m] == s[k],
    decreases s.len(),
{
    if s.len() > 0 && is_white(s[0]) {
        assert(k != 0);
        assert(s.drop_first()[k - 1] == s[k]);
        lemma_trim_start_keeps(s.drop_first(), k - 1);
        assert(trim_start(s) == trim_start(s.drop_first()));
        let m = choose|m: int|
            0 <= m < trim_start(s.drop_first()).len() && trim_start(s.drop_first())[m] == s[k];
        assert(trim_start(s)[m] == s[k]);
    } else {
        assert(trim_start(s) == s);
        assert(trim_start(s)[k] == s[k]);
    }
}

proof fn lemma_trim_end_keeps(s: Seq<char>, k: int)
    requires
        0 <= k < s.len(),
        !is_white(s[k]),
    ensures
        exists|m: int| 0 <= m < trim_end(s).len() && trim_end(s)[m] == s[k],
    decreases s.len(),
{
    if s.len() > 0 && is_white(s.last()) {
        assert(k != s.len() - 1);
        assert(s.drop_last()[k] == s[k]);
        lemma_trim_end_keeps(s.drop_last(), k);
        assert(trim_end(s) == trim_end(s.drop_last()));
        let m = choose|m: int|
            0 <= m < trim_end(s.drop_last()).len() && trim_end(s.drop_last())[m] == s[k];
        assert(trim_end(s)[m] == s[k]);
    } else {
        assert(trim_end(s) == s);
        assert(trim_end(s)[k] == s[k]);
    }
}

/// A line whose trimmed text is `];` does not name the operator list.
proof fn lemma_close_line_is_not_marker(l: Seq<char>)
    requires
        trim(l) == list_close(),
    ensures
        !contains(l, base_list_marker()),
{
    if contains(l, base_list_marker()) {
        let p = choose|p: int| occurs_at(l, base_list_marker(), p);
        assert(l.subrange(p, p + 15)[0] == 'B');
        assert(l[p] == 'B');
        assert(!is_white('B'));
        lemma_trim_start_keeps(l, p);
        let m = choose|m: int| 0 <= m < trim_start(l).len() && trim_start(l)[m] == l[p];
        lemma_trim_end_keeps(trim_start(l), m);
        let m2 = choose|m2: int| 0 <= m2 < trim(l).len() && trim(l)[m2] == trim_start(l)[m];
        assert(trim(l)[m2] == ']' || trim(l)[m2] == ';');
    }
}

/// Line `i0` is the first to name the operator list `BASE_OPERATIONS`.
pub open spec fn opens_operator_list(ls: Seq<Seq<char>>, i0: int) -> bool {
    &&& 0 <= i0 < ls.len()
    &&& contains(ls[i0], base_list_marker())
    &&& forall|k: int| 0 <= k < i0 ==> !contains(#[trigger] ls[k], base_list_marker())
}

/// Line `j` is the first after line `i0` whose trimmed text is `];`.
pub open spec fn closes_operator_list(ls: Seq<Seq<char>>, i0: int, j: int) -> bool {
    &&& i0 < j < ls.len()
    &&& trim(ls[j]) == list_close()
    &&& forall|k: int| i0 < k < j ==> trim(#[trigger] ls[k]) != list_close()
}

proof fn lemma_scan_to_list(ls: Seq<Seq<char>>, i: int, i0: int)
    requires
        0 <= i <= i0,
        opens_operator_list(ls, i0),
    ensures
        list_close_index(ls, i, false) == list_close_index(ls, i0 + 1, true),
    decreases i0 - i,
{
    if i < i0 {
        assert(!contains(ls[i], base_list_marker()));
        lemma_scan_to_list(ls, i + 1, i0);
    }
}

proof fn lemma_scan_to_close(ls: Seq<Seq<char>>, i: int, i0: int, j: int)
    requires
        0 <= i0 < i <= j,
        closes_operator_list(ls, i0, j),
    ensures
        list_close_index(ls, i, true) == j,
    decreases j - i,
{
    if i == j {
        lemma_close_line_is_not_marker(ls[j]);
        assert(!contains(ls[i], base_list_marker()));
    } else {
        assert(trim(ls[i]) != list_close());
        lemma_scan_to_close(ls, i + 1, i0, j);
    }
}

/// The diff that `synth_diff` makes for a new operator, applied to the code
/// it was made for, inserts the operator's entry as the last element of the
/// `BASE_OPERATIONS` list: just before the first `];` line after the line
/// that names the list.
pub proof fn law_new_operator_ends_the_list(
    target: Seq<char>,
    p1: Seq<char>,
    p2: Seq<char>,
    file: Seq<char>,
    code: Seq<char>,
    i0: int,
    j: int,
)
    requires
        !contains(code, quoted(target)),
        no_newline(target),
        no_newline(file),
        lines(code).len() <= usize::MAX,
        opens_operator_list(lines(code), i0),
        closes_operator_list(lines(code), i0, j),
    ensures
        patched_text(code, synth_diff_text("create_operator"@, target, p1, p2, file, code))
            == join_lines(lines(code).insert(j, operator_entry(target))) + seq!['\n'],
{
    let op = "create_operator"@;
    let ls = lines(code);
    law_synth_diff_round_trip(op, target, p1, p2, file, code);
    lemma_scan_to_list(ls, 0, i0);
    lemma_scan_to_close(ls, i0 + 1, i0, j);
    assert(list_close_index(ls, 0, false) == j);
    assert(synth_insert_position(op, code) == j);
    assert(!contains(code, seq!['"'] + target + seq!['"']));
}

} // verus!
