//! Discovery of new operators from recurring pairs of successful operations.

use vstd::prelude::*;

use crate::action::Action;
use crate::operators::OperatorPool;
use crate::text::{chars_of, push_chars, push_char, string_of_str};

verus! {

/// How many successful actions are remembered.
pub const SUCCESS_CAPACITY: usize = 200;

/// Patterns are looked for on every this many-th call.
pub const PATTERN_PERIOD: usize = 10;

/// The fewest remembered successes worth looking at.
pub const MIN_SUCCESSES: usize = 5;

/// The name of the operator that runs `a` then `b`: `a_b`.
pub open spec fn joined_name(a: Seq<char>, b: Seq<char>) -> Seq<char> {
    a + seq!['_'] + b
}

/// The consecutive pairs of a sequence of operations.
pub open spec fn window_pairs(ops: Seq<Seq<char>>) -> Seq<(Seq<char>, Seq<char>)> {
    Seq::new(
        if ops.len() == 0 {
            0nat
        } else {
            (ops.len() - 1) as nat
        },
        |i: int| (ops[i], ops[i + 1]),
    )
}

/// How often `p` occurs among the first `n` elements of `ps`.
pub open spec fn occurrences(ps: Seq<(Seq<char>, Seq<char>)>, p: (Seq<char>, Seq<char>), n: int) -> nat
    decreases n,
{
    if n <= 0 {
        0
    } else {
        occurrences(ps, p, n - 1) + if ps[n - 1] == p {
            1nat
        } else {
            0nat
        }
    }
}

/// How often `p` occurs in `ps`.
pub open spec fn pair_count(ps: Seq<(Seq<char>, Seq<char>)>, p: (Seq<char>, Seq<char>)) -> nat {
    occurrences(ps, p, ps.len() as int)
}

proof fn lemma_occurrences_count(ps: Seq<(Seq<char>, Seq<char>)>, p: (Seq<char>, Seq<char>), n: int)
    requires
        0 <= n <= ps.len(),
    ensures
        occurrences(ps, p, n) == ps.subrange(0, n).to_multiset().count(p),
    decreases n,
{
    broadcast use vstd::seq_lib::group_to_multiset_ensures, vstd::multiset::group_multiset_axioms;

    if n == 0 {
        assert(ps.subrange(0, 0) =~= Seq::<(Seq<char>, Seq<char>)>::empty());
    } else {
        lemma_occurrences_count(ps, p, n - 1);
        assert(ps.subrange(0, n) =~= ps.subrange(0, n - 1).push(ps[n - 1]));
    }
}

/// A pair's count is how often it occurs among all the windows, the last one
/// included.
pub proof fn law_pair_count_counts_every_window(
    ps: Seq<(Seq<char>, Seq<char>)>,
    p: (Seq<char>, Seq<char>),
)
    ensures
        pair_count(ps, p) == ps.to_multiset().count(p),
{
    lemma_occurrences_count(ps, p, ps.len() as int);
    assert(ps.subrange(0, ps.len() as int) =~= ps);
}

/// The windows of a sequence of operations are its consecutive pairs: one
/// fewer than the operations (none for an empty sequence), the `k`-th being
/// the `k`-th operation and the next.
pub proof fn law_window_pairs_are_consecutive(ops: Seq<Seq<char>>)
    ensures
        ops.len() > 0 ==> window_pairs(ops).len() + 1 == ops.len(),
        ops.len() == 0 ==> window_pairs(ops).len() == 0,
        forall|k: int|
            0 <= k < ops.len() - 1 ==> #[trigger] window_pairs(ops)[k] == (ops[k], ops[k + 1]),
{
}

/// A pair may become a new operator: its name is not the last one discovered
/// and not in the pool yet.
pub open spec fn eligible(
    p: (Seq<char>, Seq<char>),
    last: Option<(Seq<char>, Seq<char>, Seq<char>)>,
    pool: Seq<Seq<char>>,
) -> bool {
    &&& (last matches Some(l) ==> l.0 != joined_name(p.0, p.1))
    &&& !pool.contains(joined_name(p.0, p.1))
}

/// The views of a discovered operator.
pub open spec fn discovery_view(d: Option<(String, String, String)>) -> Option<
    (Seq<char>, Seq<char>, Seq<char>),
> {
    match d {
        Some((n, a, b)) => Some((n@, a@, b@)),
        None => None,
    }
}

/// A remembered success: the action, the hash of the code it was taken on,
/// and the bit pattern of its reward (carried through, never read here).
#[derive(Debug)]
pub struct SuccessEntry {
    pub action: Action,
    pub code_hash: u64,
    pub reward_bits: u32,
}

/// The operations of remembered successes.
pub open spec fn entry_ops(v: Seq<SuccessEntry>) -> Seq<Seq<char>> {
    v.map_values(|e: SuccessEntry| e.action.operation@)
}

/// Recently successful actions, and the operator they last suggested.
pub struct PatternTracker {
    entries: Vec<SuccessEntry>,
    pattern_counter: usize,
    last_discovered_op: Option<(String, String, String)>,
}

impl PatternTracker {
    /// The remembered successful operations, oldest first.
    pub closed spec fn successes(&self) -> Seq<Seq<char>> {
        entry_ops(self.entries@)
    }

    /// The remembered successes, oldest first.
    pub closed spec fn entries(&self) -> Seq<SuccessEntry> {
        self.entries@
    }

    /// The operator last discovered: its name and the two operations it joins.
    pub closed spec fn last_discovered(&self) -> Option<(Seq<char>, Seq<char>, Seq<char>)> {
        discovery_view(self.last_discovered_op)
    }

    /// Calls since the last search for patterns.
    pub closed spec fn counter(&self) -> nat {
        self.pattern_counter as nat
    }

    /// At most `SUCCESS_CAPACITY` successes, and the counter below its period.
    pub closed spec fn wf(&self) -> bool {
        &&& self.entries@.len() <= SUCCESS_CAPACITY
        &&& self.pattern_counter < PATTERN_PERIOD
    }

    /// An empty tracker.
    pub fn new() -> (t: Self)
        ensures
            t.wf(),
            t.entries() == Seq::<SuccessEntry>::empty(),
            t.successes() == Seq::<Seq<char>>::empty(),
            t.counter() == 0,
            t.last_discovered() is None,
    {
        let t = PatternTracker { entries: Vec::new(), pattern_counter: 0, last_discovered_op: None };
        assert(t.entries() =~= Seq::<SuccessEntry>::empty());
        assert(t.successes() =~= Seq::<Seq<char>>::empty());
        t
    }

    /// Remembers a successful action, with the hash of the code it was taken
    /// on and its reward's bits; the oldest is forgotten beyond capacity.
    pub fn push_success(&mut self, action: Action, code_hash: u64, reward_bits: u32)
        requires
            old(self).wf(),
        ensures
            final(self).wf(),
            final(self).counter() == old(self).counter(),
            final(self).last_discovered() == old(self).last_discovered(),
            old(self).entries().len() < SUCCESS_CAPACITY ==> final(self).entries() == old(
                self,
            ).entries().push((SuccessEntry { action, code_hash, reward_bits })),
            old(self).entries().len() >= SUCCESS_CAPACITY ==> final(self).entries() == old(
                self,
            ).entries().push((SuccessEntry { action, code_hash, reward_bits })).drop_first(),
            old(self).entries().len() < SUCCESS_CAPACITY ==> final(self).successes() == old(
                self,
            ).successes().push(action.operation@),
            old(self).entries().len() >= SUCCESS_CAPACITY ==> final(self).successes() == old(
                self,
            ).successes().push(action.operation@).drop_first(),
    {
        let ghost before = self.entries@;
        let ghost e = SuccessEntry { action, code_hash, reward_bits };
        self.entries.push(SuccessEntry { action, code_hash, reward_bits });
        assert(self.entries@ =~= before.push(e));
        if self.entries.len() > SUCCESS_CAPACITY {
            self.entries.remove(0);
            assert(self.entries@ =~= before.push(e).drop_first());
        }
        assert(entry_ops(self.entries@) =~= if before.len() < SUCCESS_CAPACITY {
            entry_ops(before).push(e.action.operation@)
        } else {
            entry_ops(before).push(e.action.operation@).drop_first()
        });
    }

    /// The remembered success at position `i`, oldest first.
    pub fn success_at(&self, i: usize) -> (r: &SuccessEntry)
        requires
            i < self.entries().len(),
        ensures
            *r == self.entries()[i as int],
    {
        &self.entries[i]
    }

    /// The operator last discovered: its name and the two operations it joins.
    pub fn last_discovered_op(&self) -> (r: Option<(String, String, String)>)
        ensures
            discovery_view(r) == self.last_discovered(),
    {
        match &self.last_discovered_op {
            Some((n, a, b)) => Some((n.clone(), a.clone(), b.clone())),
            None => None,
        }
    }

    /// How many successes are remembered.
    pub fn success_count(&self) -> (n: usize)
        ensures
            n == self.entries().len(),
            n == self.successes().len(),
    {
        self.entries.len()
    }
}

/// `a` and `b` hold the same characters.
fn same_chars(a: &Vec<char>, b: &Vec<char>) -> (r: bool)
    ensures
        r == (a@ == b@),
{
    if a.len() != b.len() {
        return false;
    }
    let mut i: usize = 0;
    while i < a.len()
        invariant
            a@.len() == b@.len(),
            i <= a@.len(),
            forall|k: int| 0 <= k < i ==> a@[k] == b@[k],
        decreases a.len() - i,
    {
        if a[i] != b[i] {
            return false;
        }
        i = i + 1;
    }
    assert(a@ =~= b@);
    true
}

/// The characters of each entry's operation.
fn operation_chars(v: &Vec<SuccessEntry>) -> (r: Vec<Vec<char>>)
    ensures
        r@.len() == v@.len(),
        forall|i: int| 0 <= i < v@.len() ==> #[trigger] r@[i]@ == v@[i].action.operation@,
{
    let mut r: Vec<Vec<char>> = Vec::new();
    let mut i: usize = 0;
    while i < v.len()
        invariant
            i <= v@.len(),
            r@.len() == i,
            forall|k: int| 0 <= k < i ==> #[trigger] r@[k]@ == v@[k].action.operation@,
        decreases v.len() - i,
    {
        r.push(chars_of(v[i].action.operation.as_str()));
        i = i + 1;
    }
    r
}

/// How often the pair at window `i` occurs among all windows.
fn count_pair_at(ops: &Vec<Vec<char>>, i: usize) -> (c: usize)
    requires
        i + 1 < ops@.len(),
    ensures
        c == pair_count(
            window_pairs(ops@.map_values(|v: Vec<char>| v@)),
            (ops@[i as int]@, ops@[i + 1]@),
        ),
{
    let ghost views = ops@.map_values(|v: Vec<char>| v@);
    let ghost ps = window_pairs(views);
    let ghost p = (ops@[i as int]@, ops@[i + 1]@);
    let n = ops.len() - 1;
    let mut c: usize = 0;
    let mut j: usize = 0;
    while j < n
        invariant
            n == ops@.len() - 1,
            i + 1 < ops@.len(),
            views == ops@.map_values(|v: Vec<char>| v@),
            ps == window_pairs(views),
            p == (ops@[i as int]@, ops@[i + 1]@),
            j <= n,
            c == occurrences(ps, p, j as int),
            c <= j,
        decreases n - j,
    {
        let same = same_chars(&ops[j], &ops[i]) && same_chars(&ops[j + 1], &ops[i + 1]);
        assert(ps[j as int] == (views[j as int], views[j + 1]));
        if same {
            c = c + 1;
        }
        j = j + 1;
    }
    c
}

impl PatternTracker {
    /// Counts a call; on every tenth, looks for a new operator among the
    /// consecutive pairs of remembered successes (when at least five are
    /// remembered). The pair chosen is one of those with the most occurrences
    /// whose joined name is neither the last discovery nor in the pool; when
    /// there is none, the last discovery stays.
    pub fn check_for_patterns(&mut self, pool: &OperatorPool)
        requires
            old(self).wf(),
        ensures
            final(self).wf(),
            final(self).successes() == old(self).successes(),
            old(self).counter() + 1 < PATTERN_PERIOD ==> final(self).counter() == old(
                self,
            ).counter() + 1 && final(self).last_discovered() == old(self).last_discovered(),
            old(self).counter() + 1 >= PATTERN_PERIOD ==> final(self).counter() == 0,
            old(self).counter() + 1 >= PATTERN_PERIOD ==> ({
                let ps = window_pairs(old(self).successes());
                let last = old(self).last_discovered();
                if old(self).successes().len() >= MIN_SUCCESSES && exists|i: int|
                    0 <= i < ps.len() && eligible(#[trigger] ps[i], last, pool.names()) {
                    exists|i: int|
                        0 <= i < ps.len() && #[trigger] eligible(ps[i], last, pool.names()) && (
                        forall|j: int|
                            0 <= j < ps.len() && eligible(#[trigger] ps[j], last, pool.names())
                                ==> pair_count(ps, ps[j]) <= pair_count(ps, ps[i]))
                            && final(self).last_discovered() == Some(
                            (joined_name(ps[i].0, ps[i].1), ps[i].0, ps[i].1),
                        )
                } else {
                    final(self).last_discovered() == old(self).last_discovered()
                }
            }),
    {
        self.pattern_counter = self.pattern_counter + 1;
        if self.pattern_counter < PATTERN_PERIOD {
            return ;
        }
        self.pattern_counter = 0;
        let ghost ops_v = self.successes();
        let ghost ps = window_pairs(ops_v);
        let ghost last = discovery_view(self.last_discovered_op);
        if self.entries.len() < MIN_SUCCESSES {
            return ;
        }
        let ops = operation_chars(&self.entries);
        assert(ops@.map_values(|v: Vec<char>| v@) =~= ops_v);
        let last_name: Option<Vec<char>> = match &self.last_discovered_op {
            Some((n, _, _)) => Some(chars_of(n.as_str())),
            None => None,
        };
        let n = ops.len() - 1;
        let mut best: Option<usize> = None;
        let mut best_count: usize = 0;
        let mut best_name: Vec<char> = Vec::new();
        let mut i: usize = 0;
        while i < n
            invariant
                n == ops@.len() - 1,
                ops@.len() >= MIN_SUCCESSES,
                ops@.map_values(|v: Vec<char>| v@) == ops_v,
                ps == window_pairs(ops_v),
                last == discovery_view(self.last_discovered_op),
                match last {
                    Some(l) => last_name matches Some(ln) && ln@ == l.0,
                    None => last_name is None,
                },
                i <= n,
                match best {
                    Some(b) => {
                        &&& b < i
                        &&& eligible(ps[b as int], last, pool.names())
                        &&& best_count == pair_count(ps, ps[b as int])
                        &&& best_name@ == joined_name(ps[b as int].0, ps[b as int].1)
                        &&& forall|j: int|
                            0 <= j < i && eligible(#[trigger] ps[j], last, pool.names())
                                ==> pair_count(ps, ps[j]) <= best_count
                    },
                    None => forall|j: int| 0 <= j < i ==> !eligible(#[trigger] ps[j], last, pool.names()),
                },
            decreases n - i,
        {
            assert(ps[i as int] == (ops_v[i as int], ops_v[i + 1]));
            assert(ops_v[i as int] == ops@[i as int]@);
            assert(ops_v[i + 1] == ops@[i + 1]@);
            let mut name = ops[i].clone();
            assert(name@ == ops@[i as int]@);
            name.push('_');
            let mut k: usize = 0;
            let ghost base = name@;
            let i1 = i + 1;
            while k < ops[i1].len()
                invariant
                    i1 == i + 1,
                    i + 1 < ops@.len(),
                    k <= ops@[i + 1]@.len(),
                    name@ == base + ops@[i + 1]@.subrange(0, k as int),
                decreases ops@[i + 1]@.len() - k,
            {
                name.push(ops[i1][k]);
                assert(ops@[i + 1]@.subrange(0, k + 1) =~= ops@[i + 1]@.subrange(0, k as int).push(
                    ops@[i + 1]@[k as int],
                ));
                k = k + 1;
            }
            assert(ops@[i + 1]@.subrange(0, ops@[i + 1]@.len() as int) =~= ops@[i + 1]@);
            assert(name@ =~= joined_name(ps[i as int].0, ps[i as int].1));
            let not_last = match &last_name {
                Some(ln) => !same_chars(ln, &name),
                None => true,
            };
            let mut name_str = String::new();
            push_chars(&mut name_str, name.as_slice());
            assert(name_str@ =~= name@);
            let fresh = pool.index_of(name_str.as_str()).is_none();
            if not_last && fresh {
                let c = count_pair_at(&ops, i);
                let better = match best {
                    None => true,
                    Some(_) => c > best_count,
                };
                if better {
                    best = Some(i);
                    best_count = c;
                    best_name = name;
                }
            }
            i = i + 1;
        }
        match best {
            Some(b) => {
                let mut nm = String::new();
                push_chars(&mut nm, best_name.as_slice());
                let op1 = self.entries[b].action.operation.clone();
                let op2 = self.entries[b + 1].action.operation.clone();
                assert(nm@ =~= best_name@);
                assert(ps[b as int] == (ops_v[b as int], ops_v[b + 1]));
                self.last_discovered_op = Some((nm, op1, op2));
            },
            None => {},
        }
    }
}

} // verus!
