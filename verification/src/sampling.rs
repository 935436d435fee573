//! Random candidate actions: the xorshift generator and the draws of
//! operations, target modules and parameters.

use vstd::prelude::*;

use crate::action::{action_views, Action, ActionModel};
use crate::operators::OperatorPool;
use crate::text::{chars_of, str_eq, string_of, string_of_str, trim_end_chars, trim_end_seq};

verus! {

broadcast use vstd::string::group_string_axioms;

/// One step of the xorshift generator.
pub open spec fn xorshift(s: u64) -> u64 {
    let a = s ^ (s >> 12u64);
    let b = a ^ (a << 25u64);
    b ^ (b >> 27u64)
}

/// Advances the generator and returns its new state.
pub fn rng_advance(seed: &mut u64) -> (r: u64)
    ensures
        *final(seed) == xorshift(*old(seed)),
        r == *final(seed),
{
    *seed = *seed ^ (*seed >> 12u64);
    *seed = *seed ^ (*seed << 25u64);
    *seed = *seed ^ (*seed >> 27u64);
    *seed
}

/// The parameters that actions draw from.
pub open spec fn param_pool() -> Seq<Seq<char>> {
    seq![
        "energy"@,
        "integrity"@,
        "novelty"@,
        "coherence"@,
        "competence"@,
        "entropy"@,
        "curiosity"@,
        "mastery"@,
        "threshold"@,
        "buffer"@,
        "rate"@,
        "limit"@,
        "interval"@,
        "capacity"@,
        "check"@,
    ]
}

/// The operation drawn from a pool with these names, and the generator state after it.
pub open spec fn draw_op(names: Seq<Seq<char>>, r: u64) -> (Seq<char>, u64) {
    if names.len() > 0 {
        (names[(xorshift(r) % (names.len() as u64)) as int], xorshift(r))
    } else {
        ("set"@, r)
    }
}

/// The module drawn, and the generator state after it.
pub open spec fn draw_module(modules: Seq<Seq<char>>, r: u64) -> (Seq<char>, u64) {
    (modules[(xorshift(r) % (modules.len() as u64)) as int], xorshift(r))
}

/// The parameter drawn, and the generator state after it.
pub open spec fn draw_param(r: u64) -> (Seq<char>, u64) {
    (param_pool()[(xorshift(r) % 15) as int], xorshift(r))
}

/// One draw of a candidate action: operation, module, then two parameters.
pub open spec fn draw_action(names: Seq<Seq<char>>, modules: Seq<Seq<char>>, r: u64) -> (
    ActionModel,
    u64,
) {
    let (op, r1) = draw_op(names, r);
    let (target, r2) = draw_module(modules, r1);
    let (p1, r3) = draw_param(r2);
    let (p2, r4) = draw_param(r3);
    (ActionModel { operation: op, target, param1: p1, param2: p2 }, r4)
}

/// A candidate is kept unless it deletes or targets the entry point.
pub open spec fn acceptable(a: ActionModel) -> bool {
    !(a.operation == "delete"@ || a.target == "main"@)
}

/// The actions kept after `n` draws from generator state `r`, and the state after them.
pub open spec fn draws(names: Seq<Seq<char>>, modules: Seq<Seq<char>>, r: u64, n: nat) -> (
    Seq<ActionModel>,
    u64,
)
    decreases n,
{
    if n == 0 {
        (seq![], r)
    } else {
        let (prev, r0) = draws(names, modules, r, (n - 1) as nat);
        let (a, r1) = draw_action(names, modules, r0);
        (if acceptable(a) {
            prev.push(a)
        } else {
            prev
        }, r1)
    }
}

/// The pool positions drawn in `n` draws from generator state `r`.
pub open spec fn drawn_positions(
    names: Seq<Seq<char>>,
    modules: Seq<Seq<char>>,
    r: u64,
    n: nat,
) -> Seq<int>
    decreases n,
{
    if n == 0 || names.len() == 0 {
        seq![]
    } else {
        let (_, r0) = draws(names, modules, r, (n - 1) as nat);
        drawn_positions(names, modules, r, (n - 1) as nat).push(
            (xorshift(r0) % (names.len() as u64)) as int,
        )
    }
}

/// The draw counts after the operators at `positions` have each been drawn once more.
pub open spec fn bump_all(usage: Seq<Option<usize>>, positions: Seq<int>) -> Seq<Option<usize>>
    decreases positions.len(),
{
    if positions.len() == 0 {
        usage
    } else {
        let u = bump_all(usage, positions.drop_last());
        let i = positions.last();
        u.update(
            i,
            Some(
                (match u[i] {
                    Some(c) => c,
                    None => 0,
                } + 1) as usize,
            ),
        )
    }
}

} // verus!

verus! {

proof fn lemma_bump_one(u: Seq<Option<usize>>, i: int)
    ensures
        bump_all(u, seq![i]) == u.update(
            i,
            Some(
                (match u[i] {
                    Some(c) => c,
                    None => 0,
                } + 1) as usize,
            ),
        ),
{
    assert(seq![i].drop_last() =~= Seq::<int>::empty());
    assert(bump_all(u, Seq::<int>::empty()) == u);
}

/// Draws an operation from the pool and counts the draw; an empty pool gives `"set"`.
pub fn random_op(pool: &mut OperatorPool, rng: &mut u64) -> (r: String)
    requires
        old(pool).wf(),
        old(pool).has_headroom(1),
    ensures
        final(pool).wf(),
        final(pool).names() == old(pool).names(),
        (r@, *final(rng)) == draw_op(old(pool).names(), *old(rng)),
        final(pool).usage() == (if old(pool).names().len() > 0 {
            bump_all(
                old(pool).usage(),
                seq![(xorshift(*old(rng)) % (old(pool).names().len() as u64)) as int],
            )
        } else {
            old(pool).usage()
        }),
{
    let len = pool.len();
    if len > 0 {
        let idx = (rng_advance(rng) % (len as u64)) as usize;
        let op = pool.name_at(idx);
        pool.record_usage(idx);
        proof {
            pool.lemma_wf();
            lemma_bump_one(old(pool).usage(), idx as int);
        }
        return op;
    }
    string_of_str("set")
}

/// The module names of the source files `files` (the names of the `.rs`
/// files of the source directory): each without its `.rs` endings, or `main`
/// alone when there is no file.
pub open spec fn module_names_of(files: Seq<Seq<char>>) -> Seq<Seq<char>> {
    if files.len() == 0 {
        seq!["main"@]
    } else {
        files.map_values(|f: Seq<char>| trim_end_seq(f, ".rs"@))
    }
}

/// The module names of the source files: never empty.
pub fn module_names(files: &Vec<String>) -> (r: Vec<String>)
    ensures
        r@.map_values(|s: String| s@) == module_names_of(files@.map_values(|s: String| s@)),
        r@.len() > 0,
{
    let mut r: Vec<String> = Vec::new();
    if files.len() == 0 {
        r.push(string_of_str("main"));
        proof {
            assert(r@.map_values(|s: String| s@) =~= seq!["main"@]);
        }
        return r;
    }
    let suffix = chars_of(".rs");
    proof {
        reveal_strlit(".rs");
        assert(suffix@.len() == 3);
    }
    let mut i: usize = 0;
    while i < files.len()
        invariant
            i <= files@.len(),
            suffix@ == ".rs"@,
            suffix@.len() == 3,
            r@.len() == i,
            forall|k: int|
                0 <= k < i ==> #[trigger] r@[k]@ == trim_end_seq(files@[k]@, ".rs"@),
        decreases files.len() - i,
    {
        let c = chars_of(files[i].as_str());
        let t = trim_end_chars(c.as_slice(), suffix.as_slice());
        assert(t@.subrange(0, t@.len() as int) =~= t@);
        r.push(string_of(t.as_slice(), 0, t.len()));
        i = i + 1;
    }
    assert(r@.map_values(|s: String| s@) =~= files@.map_values(|s: String| s@).map_values(
        |f: Seq<char>| trim_end_seq(f, ".rs"@),
    ));
    r
}

/// Draws a module; `modules` is never empty (the source directory always
/// yields at least `main`).
pub fn random_module(modules: &Vec<String>, rng: &mut u64) -> (r: String)
    requires
        modules@.len() > 0,
    ensures
        (r@, *final(rng)) == draw_module(modules@.map_values(|s: String| s@), *old(rng)),
{
    let idx = (rng_advance(rng) % (modules.len() as u64)) as usize;
    modules[idx].clone()
}

/// Draws a parameter name.
pub fn random_param(rng: &mut u64) -> (r: String)
    ensures
        (r@, *final(rng)) == draw_param(*old(rng)),
{
    let idx = rng_advance(rng) % 15;
    let lit = if idx == 0 {
        "energy"
    } else if idx == 1 {
        "integrity"
    } else if idx == 2 {
        "novelty"
    } else if idx == 3 {
        "coherence"
    } else if idx == 4 {
        "competence"
    } else if idx == 5 {
        "entropy"
    } else if idx == 6 {
        "curiosity"
    } else if idx == 7 {
        "mastery"
    } else if idx == 8 {
        "threshold"
    } else if idx == 9 {
        "buffer"
    } else if idx == 10 {
        "rate"
    } else if idx == 11 {
        "limit"
    } else if idx == 12 {
        "interval"
    } else if idx == 13 {
        "capacity"
    } else {
        "check"
    };
    string_of_str(lit)
}

/// The `create_operator` action for a discovered operator `(name, op1, op2)`.
pub open spec fn creation_action(name: Seq<char>, op1: Seq<char>, op2: Seq<char>) -> ActionModel {
    ActionModel { operation: "create_operator"@, target: name, param1: op1, param2: op2 }
}

/// The candidate actions of one step: `n` random draws, keeping those that
/// neither delete nor target `main`, followed by the `create_operator`
/// action for the last discovered operator, if there is one.
pub fn candidate_actions(
    pool: &mut OperatorPool,
    modules: &Vec<String>,
    rng: &mut u64,
    n: usize,
    discovered: &Option<(String, String, String)>,
) -> (r: Vec<Action>)
    requires
        old(pool).wf(),
        old(pool).has_headroom(n as nat),
        modules@.len() > 0,
    ensures
        final(pool).wf(),
        final(pool).names() == old(pool).names(),
        final(pool).usage() == bump_all(
            old(pool).usage(),
            drawn_positions(
                old(pool).names(),
                modules@.map_values(|s: String| s@),
                *old(rng),
                n as nat,
            ),
        ),
        *final(rng) == draws(
            old(pool).names(),
            modules@.map_values(|s: String| s@),
            *old(rng),
            n as nat,
        ).1,
        action_views(r@) == draws(
            old(pool).names(),
            modules@.map_values(|s: String| s@),
            *old(rng),
            n as nat,
        ).0 + match discovered {
            Some((name, op1, op2)) => seq![creation_action(name@, op1@, op2@)],
            None => seq![],
        },
{
    let ghost names = pool.names();
    let ghost mods = modules@.map_values(|s: String| s@);
    let ghost u0 = pool.usage();
    let ghost r0 = *rng;
    let mut actions: Vec<Action> = Vec::new();
    let mut k: usize = 0;
    while k < n
        invariant
            k <= n,
            pool.wf(),
            pool.names() == names,
            pool.has_headroom((n - k) as nat),
            modules@.len() > 0,
            mods == modules@.map_values(|s: String| s@),
            pool.usage() == bump_all(u0, drawn_positions(names, mods, r0, k as nat)),
            *rng == draws(names, mods, r0, k as nat).1,
            action_views(actions@) == draws(names, mods, r0, k as nat).0,
        decreases n - k,
    {
        let ghost rk = *rng;
        let ghost uk = pool.usage();
        proof {
            pool.lemma_wf();
        }
        let op = random_op(pool, rng);
        let target = random_module(modules, rng);
        let param1 = random_param(rng);
        let param2 = random_param(rng);
        proof {
            pool.lemma_wf();
            let pos = drawn_positions(names, mods, r0, (k + 1) as nat);
            if names.len() > 0 {
                assert(pos.drop_last() == drawn_positions(names, mods, r0, k as nat));
                assert(pos.last() == (xorshift(rk) % (names.len() as u64)) as int);
                let one = seq![(xorshift(rk) % (names.len() as u64)) as int];
                lemma_bump_one(uk, one[0]);
                assert(pool.usage() == bump_all(uk, one));
                assert(one[0] == pos.last());
                let j = pos.last();
                assert(pool.usage() == uk.update(
                    j,
                    Some(
                        (match uk[j] {
                            Some(c) => c,
                            None => 0,
                        } + 1) as usize,
                    ),
                ));
                assert(bump_all(uk, one) == bump_all(u0, pos));
                assert forall|i: int|
                    0 <= i < pool.usage().len() && pool.usage()[i] is Some implies pool.usage()[i]->0
                    + ((n - (k + 1)) as nat) <= usize::MAX by {
                    if i != pos.last() {
                        assert(pool.usage()[i] == uk[i]);
                    }
                }
            } else {
                assert(pos == drawn_positions(names, mods, r0, k as nat));
            }
        }
        let a = Action { operation: op, target, param1, param2 };
        if !(str_eq(a.operation.as_str(), "delete") || str_eq(a.target.as_str(), "main")) {
            actions.push(a);
            assert(action_views(actions@) =~= draws(names, mods, r0, k as nat).0.push(a@));
        }
        k = k + 1;
    }
    match discovered {
        Some((name, op1, op2)) => {
            let a = Action {
                operation: string_of_str("create_operator"),
                target: name.clone(),
                param1: op1.clone(),
                param2: op2.clone(),
            };
            let ghost before = action_views(actions@);
            actions.push(a);
            assert(action_views(actions@) =~= before + seq![a@]);
        },
        None => {
            assert(action_views(actions@) =~= action_views(actions@) + Seq::<ActionModel>::empty());
        },
    }
    actions
}

} // verus!
