use mindkernel::action::Action;
use mindkernel::hashing::{code_hash, fnv1a_32, fnv1a_64_extend, meta_seed, meta_seed_text, operation_slot, FNV64_OFFSET};
use mindkernel::operators::{add_operation, base_operation_names, is_meta_operator, protected_op, OperatorPool, MAX_OPERATORS};
use mindkernel::patterns::PatternTracker;
use mindkernel::ranking::{kth_smallest_of, sort_ascending};
use mindkernel::sampling::{candidate_actions, module_names, random_module, random_op, random_param, rng_advance};

fn names(v: &[&str]) -> Vec<String> {
    v.iter().map(|s| s.to_string()).collect()
}

fn action(op: &str) -> Action {
    Action {
        operation: op.to_string(),
        target: "t".to_string(),
        param1: "p".to_string(),
        param2: "q".to_string(),
    }
}

#[test]
fn base_pool_has_all_base_operations() {
    let pool = OperatorPool::new();
    assert_eq!(pool.len(), 44);
    assert_eq!(pool.operations(), base_operation_names());
    assert_eq!(pool.operations()[0], "set");
    assert_eq!(pool.usage_of("set"), None);
}

#[test]
fn from_names_drops_repeats() {
    let pool = OperatorPool::from_names(&names(&["a", "b", "a", "c", "b"]));
    assert_eq!(pool.operations(), names(&["a", "b", "c"]));
}

#[test]
fn protected_and_meta_operators() {
    for p in ["set", "copy", "call", "merge", "split", "guard", "revert", "duplicate",
              "set_num_candidates", "set_temp", "set_meta_weight", "set_kde_threshold"] {
        assert!(protected_op(p), "{}", p);
    }
    assert!(!protected_op("copy_merge"));
    assert!(is_meta_operator("set_temp"));
    assert!(is_meta_operator("set_kde_threshold"));
    assert!(!is_meta_operator("set"));
    assert!(!is_meta_operator("set_temp_merge_call"));
}

#[test]
fn add_below_capacity_appends_at_the_median_of_undrawn_operators() {
    let mut pool = OperatorPool::from_names(&names(&["set", "x"]));
    add_operation(&mut pool, "x_set");
    assert_eq!(pool.operations(), names(&["set", "x", "x_set"]));
    // "x" was never drawn: it counts 0, and the median of [0] is 0
    assert_eq!(pool.usage_of("x_set"), Some(0));
    add_operation(&mut pool, "x");
    assert_eq!(pool.len(), 3);
}

#[test]
fn all_protected_pool_starts_new_operator_at_one() {
    let mut pool = OperatorPool::from_names(&names(&["set", "copy"]));
    add_operation(&mut pool, "z");
    assert_eq!(pool.usage_of("z"), Some(1));
}

#[test]
fn fresh_pool_evicts_revert_copy_and_starts_at_zero() {
    let mut pool = OperatorPool::new();
    add_operation(&mut pool, "x");
    assert_eq!(pool.len(), 44);
    assert!(!pool.operations().contains(&"revert_copy".to_string()));
    assert_eq!(pool.operations().last().unwrap(), "x");
    assert_eq!(pool.usage_of("x"), Some(0));
    for name in pool.operations() {
        if name != "x" {
            assert_eq!(pool.usage_of(&name), None);
        }
    }
}

#[test]
fn new_operator_starts_at_the_median() {
    let mut pool = OperatorPool::from_names(&names(&["set", "a", "b", "c"]));
    // draw "a" once, "b" three times, "c" five times, "set" seven times
    for (i, times) in [(0usize, 7usize), (1, 1), (2, 3), (3, 5)] {
        for _ in 0..times {
            pool.record_usage(i);
        }
    }
    add_operation(&mut pool, "new");
    // unprotected counts in pool order: [1, 3, 5]; rank 1 is 3
    assert_eq!(pool.usage_of("new"), Some(3));
}

#[test]
fn even_number_of_samples_takes_the_upper_middle() {
    let mut pool = OperatorPool::from_names(&names(&["a", "b"]));
    pool.record_usage(0);
    for _ in 0..4 {
        pool.record_usage(1);
    }
    add_operation(&mut pool, "c");
    assert_eq!(pool.usage_of("c"), Some(4));
}

#[test]
fn full_pool_evicts_least_used_unprotected() {
    let mut list = vec!["set".to_string(), "copy".to_string()];
    for i in 0..(MAX_OPERATORS - 2) {
        list.push(format!("op{}", i));
    }
    let mut pool = OperatorPool::from_names(&list);
    assert_eq!(pool.len(), MAX_OPERATORS);
    for i in 2..MAX_OPERATORS {
        pool.record_usage(i);
        pool.record_usage(i);
    }
    // op5 drawn only once, op7 never drawn (counts as 0): op7 goes
    let mut pool2 = OperatorPool::from_names(&list);
    for i in 2..MAX_OPERATORS {
        if i != 9 {
            pool2.record_usage(i);
        }
    }
    add_operation(&mut pool2, "fresh");
    assert_eq!(pool2.len(), MAX_OPERATORS);
    assert!(!pool2.operations().contains(&"op7".to_string()));
    assert_eq!(pool2.operations().last().unwrap(), "fresh");
    // ties: the first of the least used goes
    add_operation(&mut pool, "newer");
    assert!(!pool.operations().contains(&"op0".to_string()));
    assert!(pool.operations().contains(&"op1".to_string()));
    assert_eq!(pool.usage_of("newer"), Some(2));
}

#[test]
fn eviction_keeps_protected_operators() {
    // a pool of 44 base operations at capacity keeps its protected ones
    let mut pool = OperatorPool::new();
    for k in 0..40 {
        add_operation(&mut pool, &format!("n{}", k));
        assert_eq!(pool.len(), 44);
    }
    for p in ["set", "copy", "call", "merge", "split", "guard", "revert", "duplicate",
              "set_num_candidates", "set_temp", "set_meta_weight", "set_kde_threshold"] {
        assert!(pool.operations().contains(&p.to_string()));
    }
    assert!(pool.operations().contains(&"n39".to_string()));
}

#[test]
fn xorshift_steps() {
    let mut s: u64 = 1;
    assert_eq!(rng_advance(&mut s), 33554433);
    assert_eq!(s, 33554433);
    let mut z: u64 = 0;
    assert_eq!(rng_advance(&mut z), 0);
}

#[test]
fn random_draws_follow_the_generator() {
    let mut pool = OperatorPool::from_names(&names(&["a", "b", "c"]));
    let mut rng: u64 = 1;
    let op = random_op(&mut pool, &mut rng);
    // 33554433 % 3 == 0
    assert_eq!(op, "a");
    assert_eq!(pool.usage_of("a"), Some(1));
    let mut empty = OperatorPool::from_names(&Vec::new());
    let mut r2: u64 = 5;
    assert_eq!(random_op(&mut empty, &mut r2), "set");
    assert_eq!(r2, 5);
    let mods = names(&["m0", "m1"]);
    let mut r3: u64 = 1;
    assert_eq!(random_module(&mods, &mut r3), "m1");
    let mut r4: u64 = 1;
    // 33554433 % 15 == 3
    assert_eq!(random_param(&mut r4), "coherence");
}

#[test]
fn candidates_skip_main_and_end_with_discovery() {
    let mut pool = OperatorPool::from_names(&names(&["set", "copy"]));
    let mods = names(&["main"]);
    let mut rng: u64 = 12345;
    let c = candidate_actions(&mut pool, &mods, &mut rng, 5, &None);
    assert!(c.is_empty());
    let used: usize = pool.usage_of("set").unwrap_or(0) + pool.usage_of("copy").unwrap_or(0);
    assert_eq!(used, 5);
    let d = Some(("a_b".to_string(), "a".to_string(), "b".to_string()));
    let c2 = candidate_actions(&mut pool, &mods, &mut rng, 0, &d);
    assert_eq!(c2.len(), 1);
    assert_eq!(c2[0].operation, "create_operator");
    assert_eq!(c2[0].target, "a_b");
    assert_eq!(c2[0].param1, "a");
    assert_eq!(c2[0].param2, "b");
}

#[test]
fn candidates_replay_the_single_draws() {
    let mut pool = OperatorPool::from_names(&names(&["set", "copy", "merge"]));
    let mut pool2 = OperatorPool::from_names(&names(&["set", "copy", "merge"]));
    let mods = names(&["sandbox", "emergent"]);
    let mut rng: u64 = 987654321;
    let mut rng2: u64 = 987654321;
    let c = candidate_actions(&mut pool, &mods, &mut rng, 4, &None);
    let mut expected = Vec::new();
    for _ in 0..4 {
        let op = random_op(&mut pool2, &mut rng2);
        let t = random_module(&mods, &mut rng2);
        let p1 = random_param(&mut rng2);
        let p2 = random_param(&mut rng2);
        expected.push((op, t, p1, p2));
    }
    let got: Vec<(String, String, String, String)> = c
        .iter()
        .map(|a| (a.operation.clone(), a.target.clone(), a.param1.clone(), a.param2.clone()))
        .collect();
    assert_eq!(got, expected);
    assert_eq!(rng, rng2);
    assert_eq!(pool.usage_of("set"), pool2.usage_of("set"));
}

#[test]
fn patterns_found_every_tenth_call() {
    let pool = OperatorPool::from_names(&names(&["set", "copy", "merge"]));
    let mut t = PatternTracker::new();
    for op in ["set", "copy", "set", "copy", "merge", "set"] {
        t.push_success(action(op), 0, 0);
    }
    for _ in 0..9 {
        t.check_for_patterns(&pool);
        assert!(t.last_discovered_op().is_none());
    }
    t.check_for_patterns(&pool);
    // (set, copy) occurs twice, more than any other pair
    assert_eq!(
        t.last_discovered_op(),
        Some(("set_copy".to_string(), "set".to_string(), "copy".to_string()))
    );
    for _ in 0..10 {
        t.check_for_patterns(&pool);
    }
    // the same name is not suggested twice in a row
    let next = t.last_discovered_op().unwrap();
    assert_ne!(next.0, "set_copy");
}

#[test]
fn patterns_skip_known_operators_and_short_histories() {
    let pool = OperatorPool::from_names(&names(&["a_b"]));
    let mut t = PatternTracker::new();
    for op in ["a", "b", "a", "b"] {
        t.push_success(action(op), 0, 0);
    }
    for _ in 0..10 {
        t.check_for_patterns(&pool);
    }
    assert!(t.last_discovered_op().is_none());
    t.push_success(action("a"), 0, 0);
    for _ in 0..10 {
        t.check_for_patterns(&pool);
    }
    // a_b is known: b_a is the choice
    assert_eq!(t.last_discovered_op().unwrap().0, "b_a");
}

#[test]
fn success_buffer_is_bounded() {
    let mut t = PatternTracker::new();
    for i in 0..250u64 {
        t.push_success(action(&format!("op{}", i)), i, (i as f32).to_bits());
    }
    assert_eq!(t.success_count(), 200);
    // the oldest fifty are gone; each entry keeps its action, code hash and reward
    let first = t.success_at(0);
    assert_eq!(first.action.operation, "op50");
    assert_eq!(first.code_hash, 50);
    assert_eq!(f32::from_bits(first.reward_bits), 50.0);
    let last = t.success_at(199);
    assert_eq!(last.action.operation, "op249");
    assert_eq!(last.action.target, "t");
    assert_eq!(last.code_hash, 249);
    assert_eq!(f32::from_bits(last.reward_bits), 249.0);
}

#[test]
fn fnv_hashes() {
    assert_eq!(fnv1a_32(""), 2166136261);
    assert_eq!(fnv1a_32("a"), 0xe40c292c);
    assert_eq!(fnv1a_32("foobar"), 0xbf9cf968);
    assert_eq!(fnv1a_64_extend(FNV64_OFFSET, "a"), 0xaf63dc4c8601ec8c);
    assert_eq!(fnv1a_64_extend(FNV64_OFFSET, "foobar"), 0x85944171f73967e8);
    assert_eq!(code_hash(&None), 0);
    assert_eq!(code_hash(&Some(vec!["foo".to_string(), "bar".to_string()])), 0x85944171f73967e8);
    assert_eq!(code_hash(&Some(Vec::new())), FNV64_OFFSET);
}

#[test]
fn meta_seeds() {
    let a = Action {
        operation: "set_temp".to_string(),
        target: "foo".to_string(),
        param1: "ba".to_string(),
        param2: "r".to_string(),
    };
    assert_eq!(meta_seed_text(&a), "foobar");
    assert_eq!(meta_seed(&a), 0xbf9cf968);
}

#[test]
fn operation_slots() {
    let pool = OperatorPool::new();
    assert_eq!(operation_slot(&pool, &action("set")), Some(0));
    assert_eq!(operation_slot(&pool, &action("copy")), Some(1));
    assert_eq!(operation_slot(&pool, &action("nope")), None);
    // beyond the encoded slots
    assert_eq!(operation_slot(&pool, &action("copy_merge_copy")), None);
}

#[test]
fn ranks_and_sorting() {
    let v = vec![5usize, 1, 4, 1, 3];
    assert_eq!(sort_ascending(&v), vec![1, 1, 3, 4, 5]);
    assert_eq!(kth_smallest_of(&v, 0), 1);
    assert_eq!(kth_smallest_of(&v, 2), 3);
    assert_eq!(kth_smallest_of(&v, 4), 5);
}

#[test]
fn module_names_of_source_files() {
    assert_eq!(module_names(&names(&[])), names(&["main"]));
    assert_eq!(
        module_names(&names(&["emergent.rs", "syscall.rs", "a.rs.rs"])),
        names(&["emergent", "syscall", "a"])
    );
}
