use mindkernel::action::Action;
use mindkernel::cycle::{effects, is_acting_breath, next_command, registers_operator, Command, Learning, Outcome, Report};
use mindkernel::operators::{meta_param, protected_op, MetaParam};

fn action(op: &str) -> Action {
    Action {
        operation: op.to_string(),
        target: "copy_merge".to_string(),
        param1: "copy".to_string(),
        param2: "merge".to_string(),
    }
}

#[test]
fn every_third_breath_acts() {
    assert!(is_acting_breath(0));
    assert!(!is_acting_breath(1));
    assert!(!is_acting_breath(2));
    assert!(is_acting_breath(3));
    assert!(is_acting_breath(300));
    assert!(!is_acting_breath(301));
}

#[test]
fn commands_follow_reports() {
    assert_eq!(next_command(Report::Chosen { meta: true }), Command::Conclude(Outcome::MetaOk));
    assert_eq!(next_command(Report::Chosen { meta: false }), Command::MakeDiff);
    assert_eq!(next_command(Report::DiffMade { empty: true }), Command::Skip);
    assert_eq!(next_command(Report::DiffMade { empty: false }), Command::TestDiff);
    assert_eq!(next_command(Report::DiffFailed), Command::Conclude(Outcome::DiffErr));
    assert_eq!(next_command(Report::Built { accepted: true }), Command::BackupSource);
    assert_eq!(next_command(Report::BackedUp), Command::ApplyDiff);
    assert_eq!(next_command(Report::Built { accepted: false }), Command::Conclude(Outcome::SandboxReject));
    assert_eq!(next_command(Report::SandboxFailed), Command::Conclude(Outcome::SandboxReject));
    assert_eq!(next_command(Report::Applied), Command::Validate);
    assert_eq!(next_command(Report::ApplyFailed), Command::Conclude(Outcome::ApplyFail));
    assert_eq!(next_command(Report::Validated { healthy: true }), Command::Conclude(Outcome::ApplyOk));
    assert_eq!(next_command(Report::Validated { healthy: false }), Command::Conclude(Outcome::ValidationFail));
}

#[test]
fn a_successful_attempt_runs_every_stage() {
    let reports = [
        Report::Chosen { meta: false },
        Report::DiffMade { empty: false },
        Report::Built { accepted: true },
        Report::BackedUp,
        Report::Applied,
        Report::Validated { healthy: true },
    ];
    let commands: Vec<Command> = reports.iter().map(|r| next_command(*r)).collect();
    assert_eq!(
        commands,
        vec![
            Command::MakeDiff,
            Command::TestDiff,
            Command::BackupSource,
            Command::ApplyDiff,
            Command::Validate,
            Command::Conclude(Outcome::ApplyOk),
        ]
    );
}

#[test]
fn outcome_effects() {
    let meta = effects(Outcome::MetaOk);
    assert!(meta.retunes && meta.remembers_success && !meta.module_success);
    assert_eq!(meta.learning, Learning::NewDrives);

    let ok = effects(Outcome::ApplyOk);
    assert!(ok.module_success && ok.remembers_success && !ok.records_failure && !ok.retunes);
    assert_eq!(ok.learning, Learning::NewDrives);

    let vf = effects(Outcome::ValidationFail);
    assert!(vf.restores_source && vf.module_failure && vf.records_failure && !vf.remembers_success);
    assert_eq!(vf.learning, Learning::OldDrives);

    let af = effects(Outcome::ApplyFail);
    assert!(af.module_failure && af.records_failure && !af.restores_source);
    assert_eq!(af.learning, Learning::Nothing);

    let sr = effects(Outcome::SandboxReject);
    assert!(sr.module_failure && sr.records_failure);
    assert_eq!(sr.learning, Learning::OldDrives);

    let de = effects(Outcome::DiffErr);
    assert!(!de.module_failure && de.records_failure && !de.remembers_success);
    assert_eq!(de.learning, Learning::Nothing);
}

#[test]
fn only_applied_operator_creations_register() {
    assert!(registers_operator(Outcome::ApplyOk, &action("create_operator")));
    assert!(!registers_operator(Outcome::ApplyOk, &action("copy")));
    assert!(!registers_operator(Outcome::ValidationFail, &action("create_operator")));
    assert!(!registers_operator(Outcome::MetaOk, &action("create_operator")));
}

#[test]
fn meta_operators_tune_their_parameters() {
    assert!(matches!(meta_param("set_num_candidates"), Some(MetaParam::NumCandidates)));
    assert!(matches!(meta_param("set_temp"), Some(MetaParam::Temperature)));
    assert!(matches!(meta_param("set_meta_weight"), Some(MetaParam::MetaWeight)));
    assert!(matches!(meta_param("set_kde_threshold"), Some(MetaParam::KdeThreshold)));
    assert!(meta_param("set").is_none());
    assert!(meta_param("set_temp_merge_call").is_none());
    for op in ["set_num_candidates", "set_temp", "set_meta_weight", "set_kde_threshold"] {
        assert!(protected_op(op));
    }
}
