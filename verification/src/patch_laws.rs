//! Laws that relate the diff generator and the patcher.

use vstd::prelude::*;

use crate::diff::{
    action_comment, base_list_marker, has_second_field, hunk_marker, hunk_old_start,
    insertion_diff, list_close_index, new_file_marker, old_file_marker, operator_entry, patch,
    patch_run, patched_text, rest_of, second_field, synth_diff_text,
};
use crate::text::{
    all_digits, contains, decimal, digit_char, ends_with, find_from, is_digit, join_lines,
    lemma_decimal, lemma_find_from_bounds, lemma_parse_decimal, lines, lines_acc, parse_usize,
    starts_with, strip_cr, trim_start_char,
};

verus! {

/// No line break (`'\n'`) occurs in `s`.
pub open spec fn no_newline(s: Seq<char>) -> bool {
    forall|i: int| 0 <= i < s.len() ==> s[i] != '\n'
}

/// `s` ends with a carriage return.
pub open spec fn ends_with_cr(s: Seq<char>) -> bool {
    s.len() > 0 && s.last() == '\r'
}

// ---------------------------------------------------------------------------
// Lines of concatenations
// ---------------------------------------------------------------------------

proof fn lemma_lines_acc_skip(s: Seq<char>, i: int, j: int, start: int)
    requires
        0 <= start <= i <= j <= s.len(),
        forall|k: int| i <= k < j ==> s[k] != '\n',
    ensures
        lines_acc(s, i, start) == lines_acc(s, j, start),
    decreases j - i,
{
    if i < j {
        lemma_lines_acc_skip(s, i + 1, j, start);
    }
}

proof fn lemma_lines_acc_shift(p: Seq<char>, r: Seq<char>, i: int, start: int)
    requires
        0 <= start <= i <= r.len(),
    ensures
        lines_acc(p + r, p.len() + i, p.len() + start) == lines_acc(r, i, start),
    decreases r.len() - i,
{
    let s = p + r;
    let n = p.len() as int;
    if i < r.len() {
        assert(s[n + i] == r[i]);
        if r[i] == '\n' {
            lemma_lines_acc_shift(p, r, i + 1, i + 1);
            assert(s.subrange(n + start, n + i) =~= r.subrange(start, i));
        } else {
            lemma_lines_acc_shift(p, r, i + 1, start);
        }
    } else {
        assert(s.subrange(n + start, s.len() as int) =~= r.subrange(start, r.len() as int));
    }
}

/// A first line, a line break, then the rest.
pub proof fn lemma_lines_cons(a: Seq<char>, r: Seq<char>)
    requires
        no_newline(a),
    ensures
        lines(a + seq!['\n'] + r) == seq![strip_cr(a)] + lines(r),
{
    let s = a + seq!['\n'] + r;
    let p = a + seq!['\n'];
    assert(s =~= p + r);
    lemma_lines_acc_skip(s, 0, a.len() as int, 0);
    assert(s[a.len() as int] == '\n');
    assert(s.subrange(0, a.len() as int) =~= a);
    lemma_lines_acc_shift(p, r, 0, 0);
}

/// A single line without a terminator.
pub proof fn lemma_lines_single(a: Seq<char>)
    requires
        no_newline(a),
        a.len() > 0,
    ensures
        lines(a) == seq![a],
{
    lemma_lines_acc_skip(a, 0, a.len() as int, 0);
    assert(a.subrange(0, a.len() as int) =~= a);
}

/// A single line with its terminator.
pub proof fn lemma_lines_single_terminated(a: Seq<char>)
    requires
        no_newline(a),
    ensures
        lines(a + seq!['\n']) == seq![strip_cr(a)],
{
    lemma_lines_cons(a, seq![]);
    assert(a + seq!['\n'] + Seq::<char>::empty() =~= a + seq!['\n']);
    assert(lines(Seq::<char>::empty()) =~= Seq::<Seq<char>>::empty());
    assert(seq![strip_cr(a)] + Seq::<Seq<char>>::empty() =~= seq![strip_cr(a)]);
}

// ---------------------------------------------------------------------------
// The generated diff, line by line
// ---------------------------------------------------------------------------

/// `--- a/file`
pub open spec fn old_header(file: Seq<char>) -> Seq<char> {
    seq!['-', '-', '-', ' ', 'a', '/'] + file
}

/// `+++ b/file`
pub open spec fn new_header(file: Seq<char>) -> Seq<char> {
    seq!['+', '+', '+', ' ', 'b', '/'] + file
}

/// `@@ -at,0 +at+1,1 @@`
pub open spec fn hunk_header(at: nat) -> Seq<char> {
    seq!['@', '@', ' ', '-'] + decimal(at) + seq![',', '0', ' ', '+'] + decimal(at + 1) + seq![
        ',',
        '1',
        ' ',
        '@',
        '@',
    ]
}

proof fn lemma_decimal_no_newline(n: nat)
    ensures
        no_newline(decimal(n)),
        forall|i: int| 0 <= i < decimal(n).len() ==> #[trigger] is_digit(decimal(n)[i]),
{
    lemma_decimal(n);
    assert forall|i: int| 0 <= i < decimal(n).len() implies decimal(n)[i] != '\n' by {
        assert(is_digit(decimal(n)[i]));
    }
}

proof fn lemma_insertion_diff_lines(file: Seq<char>, at: nat, new_line: Seq<char>)
    requires
        no_newline(file),
        no_newline(new_line),
    ensures
        lines(insertion_diff(file, at, new_line)) == seq![
            strip_cr(old_header(file)),
            strip_cr(new_header(file)),
            hunk_header(at),
            seq!['+'] + new_line,
        ],
        lines(insertion_diff(file, at, new_line) + seq!['\n']) == seq![
            strip_cr(old_header(file)),
            strip_cr(new_header(file)),
            hunk_header(at),
            strip_cr(seq!['+'] + new_line),
        ],
{
    let l0 = old_header(file);
    let l1 = new_header(file);
    let l2 = hunk_header(at);
    let l3 = seq!['+'] + new_line;
    lemma_decimal_no_newline(at);
    lemma_decimal_no_newline(at + 1);
    assert(no_newline(l0)) by {
        assert forall|i: int| 0 <= i < l0.len() implies l0[i] != '\n' by {
            if i >= 6 {
                assert(l0[i] == file[i - 6]);
            }
        }
    }
    assert(no_newline(l1)) by {
        assert forall|i: int| 0 <= i < l1.len() implies l1[i] != '\n' by {
            if i >= 6 {
                assert(l1[i] == file[i - 6]);
            }
        }
    }
    let d0 = decimal(at);
    let d1 = decimal(at + 1);
    assert(no_newline(l2)) by {
        assert forall|i: int| 0 <= i < l2.len() implies l2[i] != '\n' by {
            if 4 <= i < 4 + d0.len() {
                assert(l2[i] == d0[i - 4]);
                assert(is_digit(d0[i - 4]));
            } else if 8 + d0.len() <= i < 8 + d0.len() + d1.len() {
                assert(l2[i] == d1[i - 8 - d0.len()]);
                assert(is_digit(d1[i - 8 - d0.len()]));
            }
        }
    }
    assert(no_newline(l3)) by {
        assert forall|i: int| 0 <= i < l3.len() implies l3[i] != '\n' by {
            if i >= 1 {
                assert(l3[i] == new_line[i - 1]);
            }
        }
    }
    let t = insertion_diff(file, at, new_line);
    let r2 = l2 + seq!['\n'] + l3;
    let r1 = l1 + seq!['\n'] + r2;
    assert(t =~= l0 + seq!['\n'] + r1);
    assert(strip_cr(l2) == l2);
    lemma_lines_cons(l0, r1);
    lemma_lines_cons(l1, r2);
    lemma_lines_cons(l2, l3);
    lemma_lines_single(l3);
    assert(lines(t) =~= seq![strip_cr(l0), strip_cr(l1), l2, l3]);
    let r2t = l2 + seq!['\n'] + (l3 + seq!['\n']);
    let r1t = l1 + seq!['\n'] + r2t;
    assert(t + seq!['\n'] =~= l0 + seq!['\n'] + r1t);
    lemma_lines_cons(l0, r1t);
    lemma_lines_cons(l1, r2t);
    lemma_lines_cons(l2, l3 + seq!['\n']);
    lemma_lines_single_terminated(l3);
    assert(lines(t + seq!['\n']) =~= seq![strip_cr(l0), strip_cr(l1), l2, strip_cr(l3)]);
}

proof fn lemma_find_from_at(s: Seq<char>, c: char, i: int, j: int)
    requires
        0 <= i <= j < s.len(),
        s[j] == c,
        forall|k: int| i <= k < j ==> s[k] != c,
    ensures
        find_from(s, c, i) == j,
    decreases j - i,
{
    if i < j {
        lemma_find_from_at(s, c, i + 1, j);
    }
}

proof fn lemma_find_from_none(s: Seq<char>, c: char, i: int)
    requires
        0 <= i <= s.len(),
        forall|k: int| i <= k < s.len() ==> s[k] != c,
    ensures
        find_from(s, c, i) == s.len(),
    decreases s.len() - i,
{
    if i < s.len() {
        lemma_find_from_none(s, c, i + 1);
    }
}

/// The hunk header of a generated diff names the line it was made with.
proof fn lemma_hunk_header_start(at: nat)
    requires
        at <= usize::MAX,
    ensures
        has_second_field(hunk_header(at)),
        hunk_old_start(hunk_header(at)) == at,
{
    let l = hunk_header(at);
    let d0 = decimal(at);
    let d1 = decimal(at + 1);
    lemma_decimal(at);
    lemma_decimal(at + 1);
    lemma_find_from_at(l, ' ', 0, 2);
    let close: int = d0.len() as int + 6;
    assert(l[close] == ' ');
    assert forall|k: int| 3 <= k < close implies l[k] != ' ' by {
        if 4 <= k < 4 + d0.len() {
            assert(l[k] == d0[k - 4]);
            assert(is_digit(d0[k - 4]));
        }
    }
    lemma_find_from_at(l, ' ', 3, close);
    let field = second_field(l);
    assert(field =~= seq!['-'] + d0 + seq![',', '0']);
    let t = d0 + seq![',', '0'];
    assert(field.drop_first() =~= t);
    assert(is_digit(d0[0]));
    assert(t[0] == d0[0]);
    assert(t[0] != '-');
    assert(trim_start_char(t, '-') == t);
    assert(field[0] == '-');
    assert(trim_start_char(field, '-') == t);
    assert forall|k: int| 0 <= k < d0.len() implies t[k] != ',' by {
        assert(is_digit(d0[k]));
    }
    lemma_find_from_at(t, ',', 0, d0.len() as int);
    assert(t.subrange(0, d0.len() as int) =~= d0);
    lemma_parse_decimal(at as usize);
}

/// A hunk header names its old range's start line: for `@@ -N` followed by
/// the end of the line, a space (an old range without a count, as `diff -u`
/// and git write single-line ranges) or a comma (a range with a count), the
/// old start is `N`, for every `N` that fits in `usize`.
pub proof fn law_hunk_header_names_old_start(n: nat, tail: Seq<char>)
    requires
        n <= usize::MAX,
        tail.len() == 0 || tail[0] == ' ' || tail[0] == ',',
    ensures
        has_second_field(seq!['@', '@', ' ', '-'] + decimal(n) + tail),
        hunk_old_start(seq!['@', '@', ' ', '-'] + decimal(n) + tail) == n,
{
    let d0 = decimal(n);
    let l = seq!['@', '@', ' ', '-'] + d0 + tail;
    lemma_decimal(n);
    lemma_find_from_at(l, ' ', 0, 2);
    lemma_find_from_bounds(l, ' ', 3);
    let j = find_from(l, ' ', 3);
    assert forall|k: int| 3 <= k < 4 + d0.len() implies l[k] != ' ' by {
        if 4 <= k {
            assert(l[k] == d0[k - 4]);
            assert(is_digit(d0[k - 4]));
        }
    }
    assert(j >= 4 + d0.len()) by {
        if j < 4 + d0.len() {
            assert(l[j] == ' ');
        }
    }
    let field = l.subrange(3, j);
    assert(field == crate::diff::second_field(l));
    let t = l.subrange(4, j);
    assert(field.drop_first() =~= t);
    assert(field[0] == '-');
    assert(t[0] == d0[0]);
    assert(is_digit(d0[0]));
    assert(trim_start_char(t, '-') == t);
    assert(trim_start_char(field, '-') == t);
    assert(t.subrange(0, d0.len() as int) =~= d0);
    assert forall|k: int| 0 <= k < d0.len() implies t[k] != ',' by {
        assert(t[k] == d0[k]);
        assert(is_digit(d0[k]));
    }
    if tail.len() > 0 && tail[0] == ',' {
        assert(l[4 + d0.len() as int] == ',');
        assert(j > 4 + d0.len());
        assert(t[d0.len() as int] == ',');
        lemma_find_from_at(t, ',', 0, d0.len() as int);
    } else {
        if tail.len() > 0 {
            assert(l[4 + d0.len() as int] == ' ');
        }
        assert(j == 4 + d0.len());
        assert(t.len() == d0.len());
        lemma_find_from_none(t, ',', 0);
    }
    lemma_parse_decimal(n as usize);
}

/// A one-line replacement hunk `@@ -N…` / `-old` / `+new` replaces line `N`
/// (counted from 1) of the text with `new`, whatever `old` says, and leaves
/// every other line in place.
pub proof fn law_replacement_hunk_replaces_line(
    orig: Seq<Seq<char>>,
    n: nat,
    tail: Seq<char>,
    old_text: Seq<char>,
    new_text: Seq<char>,
)
    requires
        1 <= n <= orig.len(),
        n <= usize::MAX,
        tail.len() == 0 || tail[0] == ' ' || tail[0] == ',',
    ensures
        patch(
            orig,
            seq![
                seq!['@', '@', ' ', '-'] + decimal(n) + tail,
                seq!['-'] + old_text,
                seq!['+'] + new_text,
            ],
        ) == orig.update(n - 1, new_text),
{
    let h = seq!['@', '@', ' ', '-'] + decimal(n) + tail;
    let l1 = seq!['-'] + old_text;
    let l2 = seq!['+'] + new_text;
    let ds = seq![h, l1, l2];
    law_hunk_header_names_old_start(n, tail);
    let e = n - 1;
    assert(h.subrange(0, 2) =~= hunk_marker());
    assert(!starts_with(h, old_file_marker())) by {
        assert(h.subrange(0, 4)[1] != old_file_marker()[1]);
    }
    assert(!starts_with(h, new_file_marker())) by {
        assert(h.subrange(0, 4)[0] != new_file_marker()[0]);
    }
    assert(!starts_with(l1, hunk_marker())) by {
        if l1.len() >= 2 {
            assert(l1.subrange(0, 2)[0] != hunk_marker()[0]);
        }
    }
    assert(!starts_with(l1, seq![' '])) by {
        assert(l1.subrange(0, 1)[0] != ' ');
    }
    assert(l1.subrange(0, 1) =~= seq!['-']);
    assert(!starts_with(l2, hunk_marker())) by {
        if l2.len() >= 2 {
            assert(l2.subrange(0, 2)[0] != hunk_marker()[0]);
        }
    }
    assert(!starts_with(l2, seq![' '])) by {
        assert(l2.subrange(0, 1)[0] != ' ');
    }
    assert(!starts_with(l2, seq!['-'])) by {
        assert(l2.subrange(0, 1)[0] != '-');
    }
    assert(l2.subrange(0, 1) =~= seq!['+']);
    assert(l2.drop_first() =~= new_text);
    let pre = orig.subrange(0, e);
    assert(patch_run(orig, ds, 3, e + 1, pre.push(new_text), true) == pre.push(new_text) + rest_of(
        orig,
        e + 1,
    ));
    assert(starts_with(l1, seq!['-']));
    assert(starts_with(l2, seq!['+']));
    assert(patch_run(orig, ds, 2, e + 1, pre, true) == patch_run(
        orig,
        ds,
        3,
        e + 1,
        pre.push(new_text),
        true,
    ));
    assert(patch_run(orig, ds, 1, e, pre, true) == patch_run(orig, ds, 2, e + 1, pre, true));
    assert(patch_run(orig, ds, 0, 0, seq![], false) == patch_run(orig, ds, 1, e, pre, true)) by {
        if 0 < e {
            assert(Seq::<Seq<char>>::empty() + orig.subrange(0, e) =~= pre);
        } else {
            assert(pre =~= Seq::<Seq<char>>::empty());
        }
    }
    if e + 1 < orig.len() {
        assert(pre.push(new_text) + rest_of(orig, e + 1) =~= orig.update(e, new_text));
    } else {
        assert(pre.push(new_text) + rest_of(orig, e + 1) =~= orig.update(e, new_text));
    }
}

/// Patching with a generated diff inserts the diff's line at the position that
/// the hunk header's start line names.
proof fn lemma_patch_insertion(
    orig: Seq<Seq<char>>,
    h0: Seq<char>,
    h1: Seq<char>,
    at: nat,
    l3: Seq<char>,
)
    requires
        starts_with(h0, old_file_marker()),
        starts_with(h1, new_file_marker()),
        at <= usize::MAX,
        l3.len() > 0,
        l3[0] == '+',
    ensures
        ({
            let hs: int = if at == 0 {
                0
            } else {
                at - 1
            };
            let e: int = if hs < orig.len() {
                hs
            } else {
                orig.len() as int
            };
            patch(orig, seq![h0, h1, hunk_header(at), l3])
                == orig.subrange(0, e) + seq![l3.drop_first()] + orig.subrange(
                e,
                orig.len() as int,
            )
        }),
{
    let ds = seq![h0, h1, hunk_header(at), l3];
    let hs: int = if at == 0 {
        0
    } else {
        at - 1
    };
    let e: int = if hs < orig.len() {
        hs
    } else {
        orig.len() as int
    };
    lemma_hunk_header_start(at);
    assert(starts_with(ds[0], old_file_marker()));
    assert(!starts_with(ds[1], old_file_marker())) by {
        assert(h1.subrange(0, 4)[0] == new_file_marker()[0]);
    }
    assert(starts_with(ds[1], new_file_marker()));
    let l2 = hunk_header(at);
    assert(!starts_with(l2, old_file_marker())) by {
        assert(l2.subrange(0, 4)[0] != old_file_marker()[0]);
    }
    assert(!starts_with(l2, new_file_marker())) by {
        assert(l2.subrange(0, 4)[0] != new_file_marker()[0]);
    }
    assert(l2.subrange(0, 2) =~= hunk_marker());
    assert(starts_with(l2, hunk_marker()));
    assert(!starts_with(l3, hunk_marker())) by {
        if l3.len() >= 2 {
            assert(l3.subrange(0, 2)[0] != hunk_marker()[0]);
        }
    }
    assert(!starts_with(l3, seq![' '])) by {
        assert(l3.subrange(0, 1)[0] != ' ');
    }
    assert(!starts_with(l3, seq!['-'])) by {
        assert(l3.subrange(0, 1)[0] != '-');
    }
    assert(l3.subrange(0, 1) =~= seq!['+']);
    let pre = orig.subrange(0, e);
    assert(patch_run(orig, ds, 4, e, pre.push(l3.drop_first()), true) == pre.push(l3.drop_first())
        + rest_of(orig, e));
    assert(patch_run(orig, ds, 3, e, pre, true) == patch_run(
        orig,
        ds,
        4,
        e,
        pre.push(l3.drop_first()),
        true,
    ));
    assert(patch_run(orig, ds, 2, 0, seq![], false) == patch_run(orig, ds, 3, e, pre, true)) by {
        if 0 < e {
            assert(Seq::<Seq<char>>::empty() + orig.subrange(0, e) =~= pre);
        } else {
            assert(pre =~= Seq::<Seq<char>>::empty());
        }
    }
    assert(patch_run(orig, ds, 1, 0, seq![], false) == patch_run(orig, ds, 2, 0, seq![], false));
    assert(patch_run(orig, ds, 0, 0, seq![], false) == patch_run(orig, ds, 1, 0, seq![], false));
    if e < orig.len() {
        assert(pre.push(l3.drop_first()) + rest_of(orig, e) =~= pre + seq![l3.drop_first()]
            + orig.subrange(e, orig.len() as int));
    } else {
        assert(pre.push(l3.drop_first()) + rest_of(orig, e) =~= pre + seq![l3.drop_first()]
            + orig.subrange(e, orig.len() as int));
    }
}

// ---------------------------------------------------------------------------
// Laws
// ---------------------------------------------------------------------------

/// A diff without any line that starts with `"@@"` leaves the text's lines as
/// they were.
pub proof fn law_patch_without_hunks(original: Seq<char>, diff: Seq<char>)
    requires
        forall|i: int|
            0 <= i < lines(diff).len() ==> !starts_with(#[trigger] lines(diff)[i], hunk_marker()),
    ensures
        patched_text(original, diff) == join_lines(lines(original)) + seq!['\n'],
{
    let o = lines(original);
    let d = lines(diff);
    lemma_no_hunk_run(o, d, 0);
    assert(rest_of(o, 0) =~= o) by {
        if o.len() > 0 {
            assert(o.subrange(0, o.len() as int) =~= o);
        }
    }
    assert(Seq::<Seq<char>>::empty() + rest_of(o, 0) =~= o);
}

proof fn lemma_no_hunk_run(o: Seq<Seq<char>>, d: Seq<Seq<char>>, i: int)
    requires
        0 <= i <= d.len(),
        forall|k: int| 0 <= k < d.len() ==> !starts_with(#[trigger] d[k], hunk_marker()),
    ensures
        patch_run(o, d, i, 0, seq![], false) == Seq::<Seq<char>>::empty() + rest_of(o, 0),
    decreases d.len() - i,
{
    if i < d.len() {
        assert(!starts_with(d[i], hunk_marker()));
        lemma_no_hunk_run(o, d, i + 1);
    }
}

/// The position at which the line added by `synth_diff` lands once the diff
/// is applied to the code it was made for.
pub open spec fn synth_insert_position(op: Seq<char>, code: Seq<char>) -> int {
    let ls = lines(code);
    let at: int = if op == "create_operator"@ && list_close_index(ls, 0, false) > 0 {
        list_close_index(ls, 0, false) + 1
    } else {
        ls.len() as int
    };
    let hs: int = if at == 0 {
        0
    } else {
        at - 1
    };
    if hs < ls.len() {
        hs
    } else {
        ls.len() as int
    }
}

/// The line that `synth_diff` adds.
pub open spec fn synth_added_line(
    op: Seq<char>,
    target: Seq<char>,
    p1: Seq<char>,
    p2: Seq<char>,
) -> Seq<char> {
    if op == "create_operator"@ {
        operator_entry(target)
    } else {
        action_comment(op, target, p1, p2)
    }
}

pub proof fn lemma_list_close_index_bound(ls: Seq<Seq<char>>, i: int, in_base: bool)
    requires
        0 <= i,
    ensures
        0 <= list_close_index(ls, i, in_base) < ls.len() || list_close_index(ls, i, in_base) == 0,
    decreases ls.len() - i,
{
    if i < ls.len() {
        lemma_list_close_index_bound(ls, i + 1, true);
        lemma_list_close_index_bound(ls, i + 1, in_base);
    }
}

/// Applying the diff that `synth_diff` makes for some code to that same code
/// inserts exactly the one line the diff adds, and leaves everything else in
/// place (a duplicate `create_operator` changes nothing).
pub proof fn law_synth_diff_round_trip(
    op: Seq<char>,
    target: Seq<char>,
    p1: Seq<char>,
    p2: Seq<char>,
    file: Seq<char>,
    code: Seq<char>,
)
    requires
        lines(code).len() <= usize::MAX,
        no_newline(file),
        no_newline(target),
        op != "create_operator"@ ==> no_newline(op) && no_newline(p1) && no_newline(p2),
        op != "create_operator"@ && lines(code).len() == 0 ==> !ends_with_cr(
            action_comment(op, target, p1, p2),
        ),
    ensures
        op == "create_operator"@ && contains(code, seq!['"'] + target + seq!['"']) ==> patched_text(
            code,
            synth_diff_text(op, target, p1, p2, file, code),
        ) == join_lines(lines(code)) + seq!['\n'],
        !(op == "create_operator"@ && contains(code, seq!['"'] + target + seq!['"']))
            ==> patched_text(code, synth_diff_text(op, target, p1, p2, file, code)) == join_lines(
            lines(code).insert(
                synth_insert_position(op, code),
                synth_added_line(op, target, p1, p2),
            ),
        ) + seq!['\n'],
{
    let ls = lines(code);
    let text = synth_diff_text(op, target, p1, p2, file, code);
    let added = synth_added_line(op, target, p1, p2);
    if op == "create_operator"@ && contains(code, seq!['"'] + target + seq!['"']) {
        assert(text =~= Seq::<char>::empty());
        assert(lines(text) =~= Seq::<Seq<char>>::empty());
        law_patch_without_hunks(code, text);
    } else {
        lemma_list_close_index_bound(ls, 0, false);
        let k = list_close_index(ls, 0, false);
        let at: nat = if op == "create_operator"@ && k > 0 {
            (k + 1) as nat
        } else {
            ls.len()
        };
        assert(no_newline(added)) by {
            if op == "create_operator"@ {
                assert forall|i: int| 0 <= i < added.len() implies added[i] != '\n' by {
                    if 5 <= i < 5 + target.len() {
                        assert(added[i] == target[i - 5]);
                    }
                }
            } else {
                let w = "// emergent: "@;
                reveal_strlit("// emergent: ");
                assert forall|i: int| 0 <= i < added.len() implies added[i] != '\n' by {
                    let n0 = w.len() as int;
                    let n1 = n0 + op.len();
                    let n2 = n1 + 1 + target.len();
                    let n3 = n2 + 1 + p1.len();
                    if n0 <= i < n1 {
                        assert(added[i] == op[i - n0]);
                    } else if n1 + 1 <= i < n2 {
                        assert(added[i] == target[i - n1 - 1]);
                    } else if n2 + 1 <= i < n3 {
                        assert(added[i] == p1[i - n2 - 1]);
                    } else if n3 + 1 <= i {
                        assert(added[i] == p2[i - n3 - 1]);
                    }
                }
            }
        }
        let l3 = seq!['+'] + added;
        assert(l3.drop_first() =~= added);
        lemma_insertion_diff_lines(file, at, added);
        let e = synth_insert_position(op, code);
        let h0 = strip_cr(old_header(file));
        let h1 = strip_cr(new_header(file));
        assert(h0.subrange(0, 4) =~= old_file_marker());
        assert(h1.subrange(0, 4) =~= new_file_marker());
        lemma_patch_insertion(ls, h0, h1, at, l3);
        if op != "create_operator"@ && ls.len() == 0 {
            assert(text == insertion_diff(file, at, added) + seq!['\n']);
            assert(strip_cr(l3) == l3);
        } else {
            assert(text == insertion_diff(file, at, added));
        }
        assert(lines(text) == seq![h0, h1, hunk_header(at), l3]);
        assert(ls.subrange(0, e) + seq![added] + ls.subrange(e, ls.len() as int) =~= ls.insert(
            e,
            added,
        ));
    }
}

} // verus!
