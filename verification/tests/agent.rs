use mindkernel::context::{btc_line, geo_line, nexus_base_url, nexus_context, weather_description, JsonText, NexusProject, NexusTask};
use mindkernel::kinds::{ActionType, DriveType};
use mindkernel::knowledge::{append_knowledge, learn_applied, learned_summary, reflection_entry, reflection_entry_at, source_listing, timestamp_text, KnowledgeEntry};
use mindkernel::resources::ResourceLedger;
use mindkernel::syscall::{SyscallError, SyscallHandler};

fn entry(desc: &str, success: bool) -> KnowledgeEntry {
    KnowledgeEntry {
        timestamp: "t".to_string(),
        description: desc.to_string(),
        diff: String::new(),
        model_used: "m".to_string(),
        success,
    }
}

fn text(s: &str) -> JsonText {
    JsonText::Text(s.to_string())
}

#[test]
fn weather_codes() {
    assert_eq!(weather_description(0), "Clear");
    assert_eq!(weather_description(3), "Overcast");
    assert_eq!(weather_description(48), "Depositing rime fog");
    assert_eq!(weather_description(99), "Thunderstorm with heavy hail");
    assert_eq!(weather_description(4), "Unknown");
    assert_eq!(weather_description(-1), "Unknown");
}

#[test]
fn geo_lines() {
    assert_eq!(
        geo_line(&text("success"), &text("Moscow"), &text("Russia"), &text("1.2.3.4")),
        Some("Location: Moscow, Russia (IP: 1.2.3.4)".to_string())
    );
    assert_eq!(
        geo_line(&text("success"), &JsonText::Other, &text("Russia"), &JsonText::Other),
        Some("Location: ?, Russia (IP: ?)".to_string())
    );
    assert_eq!(geo_line(&text("fail"), &text("a"), &text("b"), &text("c")), None);
    assert_eq!(geo_line(&JsonText::Other, &text("a"), &text("b"), &text("c")), None);
    assert_eq!(geo_line(&JsonText::Missing, &text("a"), &text("b"), &text("c")), None);
    assert_eq!(geo_line(&text("success"), &text("a"), &JsonText::Missing, &text("c")), None);
}

#[test]
fn price_lines() {
    assert_eq!(btc_line(&Some("65,000.12".to_string())), Some("BTC price: $65,000.12".to_string()));
    assert_eq!(btc_line(&None), None);
}

#[test]
fn nexus_context_lines() {
    let tasks = vec![
        NexusTask { title: Some("write".to_string()), status: Some("done".to_string()) },
        NexusTask { title: None, status: None },
    ];
    let projects = vec![NexusProject { name: Some("mk".to_string()) }, NexusProject { name: None }];
    assert_eq!(
        nexus_context(&Some(tasks), &Some(projects)),
        vec![
            "Nexus recent tasks (2):",
            "  - [done] write",
            "  - [unknown] untitled",
            "Nexus projects (2):",
            "  - mk",
            "  - unnamed",
        ]
    );
    assert_eq!(
        nexus_context(&None, &None),
        vec!["Nexus: tasks unavailable", "Nexus: projects unavailable"]
    );
    assert_eq!(
        nexus_context(&Some(Vec::new()), &Some(Vec::new())),
        vec!["Nexus: no recent tasks", "Nexus: no projects"]
    );
}

#[test]
fn nexus_context_keeps_five_tasks_and_three_projects() {
    let tasks: Vec<NexusTask> = (0..7)
        .map(|i| NexusTask { title: Some(format!("t{}", i)), status: Some("s".to_string()) })
        .collect();
    let projects: Vec<NexusProject> = (0..4).map(|i| NexusProject { name: Some(format!("p{}", i)) }).collect();
    let lines = nexus_context(&Some(tasks), &Some(projects));
    assert_eq!(lines.len(), 1 + 5 + 1 + 3);
    assert_eq!(lines[0], "Nexus recent tasks (7):");
    assert_eq!(lines[5], "  - [s] t4");
    assert_eq!(lines[6], "Nexus projects (4):");
    assert_eq!(lines[9], "  - p2");
}

#[test]
fn knowledge_summaries() {
    assert_eq!(learned_summary(&Vec::new()), "No improvements learned yet.");
    let entries = vec![entry("first", true), entry("second", false), entry("third", true)];
    assert_eq!(learned_summary(&entries), "Learned 3 improvements (2 successful). Latest: third");
}

#[test]
fn knowledge_log_is_bounded() {
    let mut log = Vec::new();
    for i in 0..1000 {
        append_knowledge(&mut log, entry(&format!("e{}", i), true));
    }
    assert_eq!(log.len(), 1000);
    append_knowledge(&mut log, entry("last", false));
    assert_eq!(log.len(), 1000);
    assert_eq!(log[0].description, "e1");
    assert_eq!(log[999].description, "last");
}

#[test]
fn reflection_entries() {
    let e = reflection_entry_at("2026-06-01T00:00:00+00:00".to_string(), "energy=0.50");
    assert_eq!(e.timestamp, "2026-06-01T00:00:00+00:00");
    assert_eq!(e.description, "Internal reflection: energy=0.50");
    assert_eq!(e.diff, "");
    assert_eq!(e.model_used, "mindkernel::self");
    assert!(e.success);
    let now = reflection_entry("s");
    assert_eq!(now.description, "Internal reflection: s");
    assert!(now.timestamp.contains('T'));
    assert!(now.timestamp.starts_with("20"));
}

#[test]
fn learning_summaries_that_count_as_applied() {
    assert!(learn_applied("Self-state: energy=0.90"));
    assert!(!learn_applied("Self: energy too low (0.10). State: dormant."));
    assert!(!learn_applied("Failed to apply"));
    assert!(!learn_applied("skipping"));
}

#[test]
fn source_listings() {
    let files = vec![
        ("a.rs".to_string(), "x\ny\n".to_string()),
        ("b.rs".to_string(), String::new()),
        ("c.rs".to_string(), "one".to_string()),
    ];
    assert_eq!(source_listing(&files), "a.rs(2L), b.rs(0L), c.rs(1L)");
    assert_eq!(source_listing(&Vec::new()), "");
}

#[test]
fn suggested_intervals() {
    let mut r = ResourceLedger::new();
    assert_eq!(r.energy_bp(), 10000);
    assert_eq!(r.compute_suggested_interval(), 10);
    r.set_energy_bp(8000);
    assert_eq!(r.compute_suggested_interval(), 30);
    r.set_energy_bp(8001);
    assert_eq!(r.compute_suggested_interval(), 10);
    r.set_energy_bp(5000);
    assert_eq!(r.compute_suggested_interval(), 60);
    r.set_energy_bp(5001);
    assert_eq!(r.compute_suggested_interval(), 30);
    r.set_energy_bp(-3);
    assert_eq!(r.compute_suggested_interval(), 60);
    assert!(!r.user_active());
    r.set_user_active(true);
    assert!(r.user_active());
}

#[test]
fn blocked_ideas_are_bounded() {
    let mut r = ResourceLedger::new();
    for i in 0..101 {
        r.add_blocked_idea(format!("idea{}", i));
    }
    let b = r.get_blocked_ideas();
    assert_eq!(b.len(), 100);
    assert_eq!(b[0], "idea1");
    assert_eq!(b[99], "idea100");
}

#[test]
fn syscalls_reach_their_handlers() {
    let mut h: SyscallHandler<Box<dyn Fn(Vec<u8>) -> Vec<u8>>> = SyscallHandler::new();
    h.register(1, Box::new(|mut v: Vec<u8>| {
        v.reverse();
        v
    }));
    h.register(2, Box::new(|v: Vec<u8>| vec![v.len() as u8]));
    assert_eq!(h.handle(1, vec![1, 2, 3]).unwrap(), vec![3, 2, 1]);
    assert_eq!(h.handle(2, vec![9, 9]).unwrap(), vec![2]);
    match h.handle(7, vec![]) {
        Err(SyscallError::NotFound(id)) => assert_eq!(id, 7),
        other => panic!("unexpected {:?}", other.map(|_| ())),
    }
    h.register(1, Box::new(|_v: Vec<u8>| vec![0]));
    assert_eq!(h.handle(1, vec![1]).unwrap(), vec![0]);
}

#[test]
fn kinds_compare() {
    assert_eq!(DriveType::Curiosity, DriveType::Curiosity);
    assert_ne!(DriveType::Mastery, DriveType::Novelty);
    assert_ne!(ActionType::Failure, ActionType::Improvement);
}

#[test]
fn nexus_base_urls_lose_trailing_slashes() {
    assert_eq!(nexus_base_url("http://127.0.0.1:8000"), "http://127.0.0.1:8000");
    assert_eq!(nexus_base_url("http://127.0.0.1:8000/"), "http://127.0.0.1:8000");
    assert_eq!(nexus_base_url("http://h//"), "http://h");
    assert_eq!(nexus_base_url("///"), "");
    assert_eq!(nexus_base_url(""), "");
}

#[test]
fn clock_readings_as_timestamps() {
    assert_eq!(timestamp_text(Some((0, 0))), "1970-01-01T00:00:00+00:00");
    assert_eq!(timestamp_text(Some((1_700_000_000, 0))), "2023-11-14T22:13:20+00:00");
    assert_eq!(timestamp_text(Some((1_700_000_000, 500_000_000))), "2023-11-14T22:13:20.500+00:00");
    assert_eq!(timestamp_text(Some((1_700_000_000, 5))), "2023-11-14T22:13:20.000000005+00:00");
    // seconds beyond i64 wrap as `u64 as i64` does: u64::MAX is one second before the epoch
    assert_eq!(timestamp_text(Some((u64::MAX, 0))), "1969-12-31T23:59:59+00:00");
    // beyond chrono's range, and without a reading, the text is empty
    assert_eq!(timestamp_text(Some((i64::MAX as u64, 0))), "");
    assert_eq!(timestamp_text(None), "");
}
