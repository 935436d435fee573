//! The operator pool: the operations that actions can apply, how often each
//! has been drawn, and how the pool makes room for newly discovered operators.

use vstd::prelude::*;

use crate::ranking::{kth_smallest, kth_smallest_of};
use crate::text::{str_eq, string_of_str};

verus! {

broadcast use vstd::string::group_string_axioms;

/// The capacity at which adding an operator evicts another one.
pub const MAX_OPERATORS: usize = 32;

/// The operators that are never evicted: the eight primitives and the four
/// meta-operators.
pub open spec fn protected_name(s: Seq<char>) -> bool {
    s == "set"@ || s == "copy"@ || s == "call"@ || s == "merge"@ || s == "split"@ || s
        == "guard"@ || s == "revert"@ || s == "duplicate"@ || s == "set_num_candidates"@ || s
        == "set_temp"@ || s == "set_meta_weight"@ || s == "set_kde_threshold"@
}

/// The meta-operators, which tune runtime parameters instead of source code.
pub open spec fn meta_operator_name(s: Seq<char>) -> bool {
    s == "set_num_candidates"@ || s == "set_temp"@ || s == "set_meta_weight"@ || s
        == "set_kde_threshold"@
}

/// The operator is never evicted.
pub fn protected_op(name: &str) -> (b: bool)
    ensures
        b == protected_name(name@),
{
    str_eq(name, "set") || str_eq(name, "copy") || str_eq(name, "call") || str_eq(name, "merge")
        || str_eq(name, "split") || str_eq(name, "guard") || str_eq(name, "revert") || str_eq(
        name,
        "duplicate",
    ) || str_eq(name, "set_num_candidates") || str_eq(name, "set_temp") || str_eq(
        name,
        "set_meta_weight",
    ) || str_eq(name, "set_kde_threshold")
}

/// The operation is a meta-operator.
pub fn is_meta_operator(op: &str) -> (b: bool)
    ensures
        b == meta_operator_name(op@),
{
    str_eq(op, "set_num_candidates") || str_eq(op, "set_temp") || str_eq(op, "set_meta_weight")
        || str_eq(op, "set_kde_threshold")
}

/// The runtime parameters that the meta-operators tune.
#[derive(Debug, Clone, Copy)]
pub enum MetaParam {
    /// How many candidate actions a step draws.
    NumCandidates,
    /// The temperature of the choice among candidates.
    Temperature,
    /// The weight of the meta-model's uncertainty.
    MetaWeight,
    /// The distance under which two actions count as similar.
    KdeThreshold,
}

/// The parameter that the operation tunes, if it is a meta-operator.
pub open spec fn meta_param_of(op: Seq<char>) -> Option<MetaParam> {
    if op == "set_num_candidates"@ {
        Some(MetaParam::NumCandidates)
    } else if op == "set_temp"@ {
        Some(MetaParam::Temperature)
    } else if op == "set_meta_weight"@ {
        Some(MetaParam::MetaWeight)
    } else if op == "set_kde_threshold"@ {
        Some(MetaParam::KdeThreshold)
    } else {
        None
    }
}

/// The parameter that the operation tunes: exactly the meta-operators tune one.
pub fn meta_param(op: &str) -> (r: Option<MetaParam>)
    ensures
        r == meta_param_of(op@),
        r is Some <==> meta_operator_name(op@),
{
    if str_eq(op, "set_num_candidates") {
        Some(MetaParam::NumCandidates)
    } else if str_eq(op, "set_temp") {
        Some(MetaParam::Temperature)
    } else if str_eq(op, "set_meta_weight") {
        Some(MetaParam::MetaWeight)
    } else if str_eq(op, "set_kde_threshold") {
        Some(MetaParam::KdeThreshold)
    } else {
        None
    }
}

/// Every meta-operator is protected, so the pool never evicts one.
pub proof fn law_meta_operators_protected(s: Seq<char>)
    requires
        meta_operator_name(s),
    ensures
        protected_name(s),
{
}

/// The views of a sequence of strings.
pub open spec fn string_views(v: Seq<String>) -> Seq<Seq<char>> {
    v.map_values(|s: String| s@)
}

/// `names` without its repeated entries, first occurrences kept.
pub open spec fn without_repeats(names: Seq<Seq<char>>) -> Seq<Seq<char>>
    decreases names.len(),
{
    if names.len() == 0 {
        seq![]
    } else {
        let rest = without_repeats(names.drop_last());
        if rest.contains(names.last()) {
            rest
        } else {
            rest.push(names.last())
        }
    }
}

/// How often the operator at `i` has been drawn, counting an unrecorded one as 0.
pub open spec fn drawn(usage: Seq<Option<usize>>, i: int) -> usize {
    match usage[i] {
        Some(u) => u,
        None => 0,
    }
}

/// `v` is the operator that eviction removes: the first unprotected operator
/// among those drawn least often.
pub open spec fn is_victim(names: Seq<Seq<char>>, usage: Seq<Option<usize>>, v: int) -> bool {
    &&& 0 <= v < names.len()
    &&& !protected_name(names[v])
    &&& forall|j: int|
        0 <= j < names.len() && !protected_name(names[j]) ==> drawn(usage, v) <= drawn(usage, j)
    &&& forall|j: int|
        0 <= j < v && !protected_name(names[j]) ==> drawn(usage, v) < drawn(usage, j)
}

/// The evicted operator's position.
pub open spec fn victim(names: Seq<Seq<char>>, usage: Seq<Option<usize>>) -> int {
    choose|v: int| is_victim(names, usage, v)
}

/// Some operator is unprotected.
pub open spec fn has_unprotected(names: Seq<Seq<char>>) -> bool {
    exists|j: int| 0 <= j < names.len() && !protected_name(names[j])
}

/// The draw counts of the unprotected operators among the first `n`, in pool
/// order, an operator never drawn counting 0.
pub open spec fn usage_samples(names: Seq<Seq<char>>, usage: Seq<Option<usize>>, n: int) -> Seq<
    usize,
>
    decreases n,
{
    if n <= 0 {
        seq![]
    } else {
        let rest = usage_samples(names, usage, n - 1);
        if !protected_name(names[n - 1]) {
            rest.push(drawn(usage, n - 1))
        } else {
            rest
        }
    }
}

/// The draw count a newly added operator starts with: the median (the element
/// of rank `len / 2`) of the draw counts of the unprotected operators, an
/// operator never drawn counting 0, or 1 when every operator is protected.
pub open spec fn initial_usage(names: Seq<Seq<char>>, usage: Seq<Option<usize>>) -> usize {
    let s = usage_samples(names, usage, names.len() as int);
    if s.len() == 0 {
        1
    } else {
        kth_smallest(s, s.len() as int / 2)
    }
}

/// The protected operator names, as a set.
pub open spec fn protected_set() -> Set<Seq<char>> {
    set![
        "set"@,
        "copy"@,
        "call"@,
        "merge"@,
        "split"@,
        "guard"@,
        "revert"@,
        "duplicate"@,
        "set_num_candidates"@,
        "set_temp"@,
        "set_meta_weight"@,
        "set_kde_threshold"@,
    ]
}

/// There are at most twelve protected names.
proof fn lemma_protected_set_len()
    ensures
        protected_set().finite(),
        protected_set().len() <= 12,
        forall|s: Seq<char>| protected_name(s) ==> #[trigger] protected_set().contains(s),
{
    broadcast use vstd::set::group_set_axioms;

}

/// A pool without repeats whose operators are all protected holds at most
/// twelve of them.
proof fn lemma_all_protected_is_small(names: Seq<Seq<char>>)
    requires
        names.no_duplicates(),
        !has_unprotected(names),
    ensures
        names.len() <= 12,
{
    lemma_protected_set_len();
    names.unique_seq_to_set();
    assert(names.to_set().subset_of(protected_set())) by {
        assert forall|s: Seq<char>| names.to_set().contains(s) implies protected_set().contains(
            s,
        ) by {
            let j = choose|j: int| 0 <= j < names.len() && names[j] == s;
            assert(protected_name(names[j]));
        }
    }
    vstd::set_lib::lemma_len_subset(names.to_set(), protected_set());
}

/// The operators with their draw counts.
pub struct OperatorPool {
    ops: Vec<String>,
    usage: Vec<Option<usize>>,
}

impl OperatorPool {
    /// The operator names, in pool order.
    pub closed spec fn names(&self) -> Seq<Seq<char>> {
        string_views(self.ops@)
    }

    /// The draw count recorded for each operator, in pool order.
    pub closed spec fn usage(&self) -> Seq<Option<usize>> {
        self.usage@
    }

    /// One count per operator, and no operator twice.
    pub closed spec fn wf(&self) -> bool {
        &&& self.ops@.len() == self.usage@.len()
        &&& self.names().no_duplicates()
    }

    /// Every recorded count can grow by `n` without overflow.
    pub open spec fn has_headroom(&self, n: nat) -> bool {
        forall|i: int|
            0 <= i < self.usage().len() && self.usage()[i] is Some ==> self.usage()[i]->0 + n
                <= usize::MAX
    }

    pub proof fn lemma_wf(&self)
        requires
            self.wf(),
        ensures
            self.names().len() == self.usage().len(),
            self.names().len() <= usize::MAX,
            self.names().no_duplicates(),
    {
        assert(self.ops@.len() == self.ops.len());
    }

    /// A pool holding `names` without repeats, nothing drawn yet.
    pub fn from_names(names: &Vec<String>) -> (p: Self)
        ensures
            p.wf(),
            p.names() == without_repeats(string_views(names@)),
            p.usage() == Seq::new(p.names().len(), |i: int| None::<usize>),
    {
        let mut p = OperatorPool { ops: Vec::new(), usage: Vec::new() };
        let mut i: usize = 0;
        assert(string_views(names@.subrange(0, 0)) =~= Seq::<Seq<char>>::empty());
        while i < names.len()
            invariant
                i <= names@.len(),
                p.wf(),
                p.names() == without_repeats(string_views(names@.subrange(0, i as int))),
                p.usage() == Seq::new(p.names().len(), |k: int| None::<usize>),
            decreases names.len() - i,
        {
            let ghost pre = string_views(names@.subrange(0, i as int));
            let ghost nxt = string_views(names@.subrange(0, i + 1));
            assert(nxt.drop_last() =~= pre);
            assert(nxt.last() == names@[i as int]@);
            if p.index_of(names[i].as_str()).is_none() {
                let ghost old_names = p.names();
                p.ops.push(names[i].clone());
                p.usage.push(None);
                assert(p.names() =~= old_names.push(names@[i as int]@));
                assert(p.usage() =~= Seq::new(p.names().len(), |k: int| None::<usize>));
            }
            i = i + 1;
        }
        assert(names@.subrange(0, names@.len() as int) =~= names@);
        p
    }

    /// The pool the agent starts with.
    pub fn new() -> (p: Self)
        ensures
            p.wf(),
            p.names() == without_repeats(base_operations()),
            p.usage() == Seq::new(p.names().len(), |i: int| None::<usize>),
    {
        let names = base_operation_names();
        Self::from_names(&names)
    }

    /// How many operators the pool holds.
    pub fn len(&self) -> (n: usize)
        ensures
            n == self.names().len(),
    {
        self.ops.len()
    }

    /// The operator names, in pool order.
    pub fn operations(&self) -> (v: Vec<String>)
        ensures
            string_views(v@) == self.names(),
    {
        let mut v: Vec<String> = Vec::new();
        let mut i: usize = 0;
        while i < self.ops.len()
            invariant
                i <= self.ops@.len(),
                string_views(v@) == string_views(self.ops@.subrange(0, i as int)),
            decreases self.ops.len() - i,
        {
            v.push(self.ops[i].clone());
            assert(string_views(self.ops@.subrange(0, i + 1)) =~= string_views(
                self.ops@.subrange(0, i as int),
            ).push(self.ops@[i as int]@));
            assert(string_views(v@) =~= string_views(self.ops@.subrange(0, i as int)).push(
                self.ops@[i as int]@,
            ));
            i = i + 1;
        }
        assert(self.ops@.subrange(0, self.ops@.len() as int) =~= self.ops@);
        v
    }

    /// Where `name` stands in the pool.
    pub fn index_of(&self, name: &str) -> (r: Option<usize>)
        ensures
            match r {
                Some(i) => i < self.names().len() && self.names()[i as int] == name@ && forall|
                    j: int,
                | 0 <= j < i ==> self.names()[j] != name@,
                None => !self.names().contains(name@),
            },
    {
        let mut i: usize = 0;
        while i < self.ops.len()
            invariant
                i <= self.ops@.len(),
                forall|j: int| 0 <= j < i ==> self.names()[j] != name@,
            decreases self.ops.len() - i,
        {
            if str_eq(self.ops[i].as_str(), name) {
                return Some(i);
            }
            i = i + 1;
        }
        None
    }

    /// The draw count recorded for `name`, if any.
    pub fn usage_of(&self, name: &str) -> (r: Option<usize>)
        requires
            self.wf(),
        ensures
            self.names().contains(name@) ==> r == self.usage()[self.names().index_of(name@)],
            !self.names().contains(name@) ==> r is None,
    {
        match self.index_of(name) {
            Some(i) => {
                proof {
                    self.names().index_of_first_ensures(name@);
                    assert(self.names()[i as int] == name@);
                }
                self.usage[i]
            },
            None => None,
        }
    }
}

impl OperatorPool {
    /// The position of the operator that eviction would remove, if any
    /// operator is unprotected.
    fn find_victim(&self) -> (r: Option<usize>)
        requires
            self.wf(),
        ensures
            match r {
                Some(v) => is_victim(self.names(), self.usage(), v as int),
                None => !has_unprotected(self.names()),
            },
    {
        let ghost names = self.names();
        let ghost usage = self.usage();
        let mut best: Option<usize> = None;
        let mut best_u: usize = 0;
        let mut i: usize = 0;
        while i < self.ops.len()
            invariant
                names == self.names(),
                usage == self.usage(),
                self.ops@.len() == self.usage@.len(),
                i <= self.ops@.len(),
                match best {
                    Some(b) => {
                        &&& b < i
                        &&& best_u == drawn(usage, b as int)
                        &&& !protected_name(names[b as int])
                        &&& forall|j: int|
                            0 <= j < i && !protected_name(names[j]) ==> best_u <= drawn(
                                usage,
                                j,
                            )
                        &&& forall|j: int|
                            0 <= j < b && !protected_name(names[j]) ==> best_u < drawn(usage, j)
                    },
                    None => forall|j: int| 0 <= j < i ==> protected_name(names[j]),
                },
            decreases self.ops.len() - i,
        {
            assert(names[i as int] == self.ops@[i as int]@);
            if !protected_op(self.ops[i].as_str()) {
                let u = match self.usage[i] {
                    Some(u) => u,
                    None => 0,
                };
                match best {
                    None => {
                        best = Some(i);
                        best_u = u;
                    },
                    Some(_) => {
                        if u < best_u {
                            best = Some(i);
                            best_u = u;
                        }
                    },
                }
            }
            i = i + 1;
        }
        best
    }

    /// The draw count a new operator would start with.
    fn initial_usage_now(&self) -> (r: usize)
        requires
            self.wf(),
        ensures
            r == initial_usage(self.names(), self.usage()),
    {
        let ghost names = self.names();
        let ghost usage = self.usage();
        let mut samples: Vec<usize> = Vec::new();
        let mut i: usize = 0;
        while i < self.ops.len()
            invariant
                names == self.names(),
                usage == self.usage(),
                self.ops@.len() == self.usage@.len(),
                i <= self.ops@.len(),
                samples@ == usage_samples(names, usage, i as int),
            decreases self.ops.len() - i,
        {
            assert(names[i as int] == self.ops@[i as int]@);
            if !protected_op(self.ops[i].as_str()) {
                match self.usage[i] {
                    Some(u) => {
                        samples.push(u);
                    },
                    None => {
                        samples.push(0);
                    },
                }
            }
            i = i + 1;
        }
        if samples.len() == 0 {
            1
        } else {
            kth_smallest_of(&samples, samples.len() / 2)
        }
    }
}

impl OperatorPool {
    /// The name of the operator at position `i`.
    pub fn name_at(&self, i: usize) -> (r: String)
        requires
            i < self.names().len(),
        ensures
            r@ == self.names()[i as int],
    {
        self.ops[i].clone()
    }

    /// Counts one more draw of the operator at position `i`.
    pub fn record_usage(&mut self, i: usize)
        requires
            old(self).wf(),
            i < old(self).names().len(),
            old(self).has_headroom(1),
        ensures
            final(self).wf(),
            final(self).names() == old(self).names(),
            final(self).usage() == old(self).usage().update(
                i as int,
                Some(
                    (match old(self).usage()[i as int] {
                        Some(c) => c,
                        None => 0,
                    } + 1) as usize,
                ),
            ),
    {
        let c = match self.usage[i] {
            Some(c) => c,
            None => 0,
        };
        self.usage.set(i, Some(c + 1));
    }
}

/// Adds an operator to the pool unless it is there already.
///
/// At capacity the first of the least drawn unprotected operators is evicted
/// to make room; when every operator is protected nothing would be added, but
/// only twelve names are protected, so a full pool always has one to evict
/// and the name always ends up in the pool. The new
/// operator starts with the median draw count of the unprotected operators
/// (never drawn counting 0; 1 when every operator is protected), so that it
/// is not the next to go.
pub fn add_operation(pool: &mut OperatorPool, name: &str)
    requires
        old(pool).wf(),
    ensures
        final(pool).wf(),
        old(pool).names().contains(name@) ==> final(pool).names() == old(pool).names()
            && final(pool).usage() == old(pool).usage(),
        !old(pool).names().contains(name@) && old(pool).names().len() < MAX_OPERATORS
            ==> final(pool).names() == old(pool).names().push(name@)
            && final(pool).usage() == old(pool).usage().push(
            Some(initial_usage(old(pool).names(), old(pool).usage())),
        ),
        !old(pool).names().contains(name@) && old(pool).names().len() >= MAX_OPERATORS
            && !has_unprotected(old(pool).names()) ==> final(pool).names() == old(pool).names()
            && final(pool).usage() == old(pool).usage(),
        !old(pool).names().contains(name@) && old(pool).names().len() >= MAX_OPERATORS
            && has_unprotected(old(pool).names()) ==> ({
            let v = victim(old(pool).names(), old(pool).usage());
            let kept_names = old(pool).names().remove(v);
            let kept_usage = old(pool).usage().remove(v);
            &&& final(pool).names() == kept_names.push(name@)
            &&& final(pool).usage() == kept_usage.push(Some(initial_usage(kept_names, kept_usage)))
        }),
        forall|i: int|
            0 <= i < old(pool).names().len() && protected_name(#[trigger] old(pool).names()[i])
                ==> final(pool).names().contains(old(pool).names()[i]),
        old(pool).names().len() <= final(pool).names().len(),
        final(pool).names().len() <= old(pool).names().len() || final(pool).names().len()
            <= MAX_OPERATORS,
        final(pool).names().contains(name@),
        old(pool).names().len() <= MAX_OPERATORS ==> final(pool).names().len() <= MAX_OPERATORS,
{
    proof {
        old(pool).lemma_wf();
        if !has_unprotected(old(pool).names()) {
            lemma_all_protected_is_small(old(pool).names());
        }
    }
    if pool.index_of(name).is_some() {
        return ;
    }
    let ghost n0 = pool.names();
    let ghost u0 = pool.usage();
    if pool.ops.len() >= MAX_OPERATORS {
        match pool.find_victim() {
            Some(v) => {
                proof {
                    lemma_victim_unique(n0, u0, v as int, victim(n0, u0));
                }
                pool.ops.remove(v);
                pool.usage.remove(v);
                proof {
                    assert(pool.names() =~= n0.remove(v as int));
                    assert(pool.names().no_duplicates()) by {
                        assert forall|a: int, b: int|
                            0 <= a < b < pool.names().len() implies pool.names()[a]
                            != pool.names()[b] by {
                            let a0 = if a < v {
                                a
                            } else {
                                a + 1
                            };
                            let b0 = if b < v {
                                b
                            } else {
                                b + 1
                            };
                            assert(pool.names()[a] == n0[a0]);
                            assert(pool.names()[b] == n0[b0]);
                        }
                    }
                }
            },
            None => {
                return ;
            },
        }
    }
    let initial = pool.initial_usage_now();
    let ghost n1 = pool.names();
    assert(!n1.contains(name@)) by {
        if n1.contains(name@) {
            let j = choose|j: int| 0 <= j < n1.len() && n1[j] == name@;
            if pool.ops@.len() < n0.len() {
                let v = victim(n0, u0);
                let j0 = if j < v {
                    j
                } else {
                    j + 1
                };
                assert(n0[j0] == name@);
            } else {
                assert(n0[j] == name@);
            }
        }
    }
    pool.ops.push(string_of_str(name));
    pool.usage.push(Some(initial));
    assert(pool.names() =~= n1.push(name@));
    assert(pool.names()[pool.names().len() - 1] == name@);
    assert forall|i: int|
        0 <= i < n0.len() && protected_name(#[trigger] n0[i]) implies pool.names().contains(
        n0[i],
    ) by {
        if n1.len() < n0.len() {
            let v = victim(n0, u0);
            assert(i != v);
            let j = if i < v {
                i
            } else {
                i - 1
            };
            assert(pool.names()[j] == n0[i]);
        } else {
            assert(pool.names()[i] == n0[i]);
        }
    }
}

/// At most one operator is the eviction victim.
proof fn lemma_victim_unique(names: Seq<Seq<char>>, usage: Seq<Option<usize>>, a: int, b: int)
    requires
        is_victim(names, usage, a),
        is_victim(names, usage, b),
    ensures
        a == b,
{
}

/// The operations the pool starts from.
pub open spec fn base_operations() -> Seq<Seq<char>> {
    seq![
        "set"@,
        "copy"@,
        "call"@,
        "merge"@,
        "split"@,
        "guard"@,
        "revert"@,
        "duplicate"@,
        "revert_copy"@,
        "call_split"@,
        "set_num_candidates"@,
        "set_temp"@,
        "set_meta_weight"@,
        "set_kde_threshold"@,
        "set_duplicate"@,
        "duplicate_set_temp"@,
        "merge_call"@,
        "set_kde_threshold_call_split"@,
        "guard_merge"@,
        "duplicate_call_split"@,
        "set_num_candidates_set_kde_threshold_call_split"@,
        "split_duplicate_set_temp"@,
        "set_temp_merge_call"@,
        "copy_merge"@,
        "split_duplicate_set_temp_split_duplicate_set_temp"@,
        "call_set_temp"@,
        "split_duplicate_set_temp_split_duplicate_set_temp_copy_merge"@,
        "set_num_candidates_set_kde_threshold_call_split_split_duplicate_set_temp_split_duplicate_set_temp"@,
        "set_num_candidates_set_kde_threshold_call_split_split_duplicate_set_temp_split_duplicate_set_temp_copy_merge"@,
        "split_duplicate_set_temp_split_duplicate_set_temp_set_num_candidates_set_kde_threshold_call_split_split_duplicate_set_temp_split_duplicate_set_temp_copy_merge"@,
        "guard_set_duplicate"@,
        "copy_set_kde_threshold"@,
        "set_temp_set_num_candidates_set_kde_threshold_call_split_split_duplicate_set_temp_split_duplicate_set_temp"@,
        "call_copy"@,
        "split_duplicate_set_temp_split_duplicate_set_temp_copy_merge_split_duplicate_set_temp_split_duplicate_set_temp_copy_merge"@,
        "create_operator_create_operator"@,
        "revert_copy_set_num_candidates_set_kde_threshold_call_split_split_duplicate_set_temp_split_duplicate_set_temp_copy_merge"@,
        "copy_set_kde_threshold_revert_copy"@,
        "split_duplicate_set_temp_split_duplicate_set_temp_set_num_candidates_set_kde_threshold_call_split_split_duplicate_set_temp_split_duplicate_set_temp_copy_merge_call"@,
        "call_set_temp_split"@,
        "merge_call_split_duplicate_set_temp_split_duplicate_set_temp_copy_merge"@,
        "copy_merge_copy"@,
        "set_temp_merge_call_set_num_candidates_set_kde_threshold_call_split_split_duplicate_set_temp_split_duplicate_set_temp"@,
        "set_kde_threshold_copy_merge"@,
    ]
}

/// The operations the pool starts from, as strings.
pub fn base_operation_names() -> (v: Vec<String>)
    ensures
        string_views(v@) == base_operations(),
{
    let mut v: Vec<String> = Vec::new();
    v.push(string_of_str("set"));
    v.push(string_of_str("copy"));
    v.push(string_of_str("call"));
    v.push(string_of_str("merge"));
    v.push(string_of_str("split"));
    v.push(string_of_str("guard"));
    v.push(string_of_str("revert"));
    v.push(string_of_str("duplicate"));
    v.push(string_of_str("revert_copy"));
    v.push(string_of_str("call_split"));
    v.push(string_of_str("set_num_candidates"));
    v.push(string_of_str("set_temp"));
    v.push(string_of_str("set_meta_weight"));
    v.push(string_of_str("set_kde_threshold"));
    v.push(string_of_str("set_duplicate"));
    v.push(string_of_str("duplicate_set_temp"));
    v.push(string_of_str("merge_call"));
    v.push(string_of_str("set_kde_threshold_call_split"));
    v.push(string_of_str("guard_merge"));
    v.push(string_of_str("duplicate_call_split"));
    v.push(string_of_str("set_num_candidates_set_kde_threshold_call_split"));
    v.push(string_of_str("split_duplicate_set_temp"));
    v.push(string_of_str("set_temp_merge_call"));
    v.push(string_of_str("copy_merge"));
    v.push(string_of_str("split_duplicate_set_temp_split_duplicate_set_temp"));
    v.push(string_of_str("call_set_temp"));
    v.push(string_of_str("split_duplicate_set_temp_split_duplicate_set_temp_copy_merge"));
    v.push(string_of_str("set_num_candidates_set_kde_threshold_call_split_split_duplicate_set_temp_split_duplicate_set_temp"));
    v.push(string_of_str("set_num_candidates_set_kde_threshold_call_split_split_duplicate_set_temp_split_duplicate_set_temp_copy_merge"));
    v.push(string_of_str("split_duplicate_set_temp_split_duplicate_set_temp_set_num_candidates_set_kde_threshold_call_split_split_duplicate_set_temp_split_duplicate_set_temp_copy_merge"));
    v.push(string_of_str("guard_set_duplicate"));
    v.push(string_of_str("copy_set_kde_threshold"));
    v.push(string_of_str("set_temp_set_num_candidates_set_kde_threshold_call_split_split_duplicate_set_temp_split_duplicate_set_temp"));
    v.push(string_of_str("call_copy"));
    v.push(string_of_str("split_duplicate_set_temp_split_duplicate_set_temp_copy_merge_split_duplicate_set_temp_split_duplicate_set_temp_copy_merge"));
    v.push(string_of_str("create_operator_create_operator"));
    v.push(string_of_str("revert_copy_set_num_candidates_set_kde_threshold_call_split_split_duplicate_set_temp_split_duplicate_set_temp_copy_merge"));
    v.push(string_of_str("copy_set_kde_threshold_revert_copy"));
    v.push(string_of_str("split_duplicate_set_temp_split_duplicate_set_temp_set_num_candidates_set_kde_threshold_call_split_split_duplicate_set_temp_split_duplicate_set_temp_copy_merge_call"));
    v.push(string_of_str("call_set_temp_split"));
    v.push(string_of_str("merge_call_split_duplicate_set_temp_split_duplicate_set_temp_copy_merge"));
    v.push(string_of_str("copy_merge_copy"));
    v.push(string_of_str("set_temp_merge_call_set_num_candidates_set_kde_threshold_call_split_split_duplicate_set_temp_split_duplicate_set_temp"));
    v.push(string_of_str("set_kde_threshold_copy_merge"));
    assert(string_views(v@) =~= base_operations());
    v
}

} // verus!
