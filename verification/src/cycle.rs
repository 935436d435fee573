//! The decisions of one attempt at an action. The life cycle performs each
//! command, reports what came of it, and is told what to do next, until the
//! attempt concludes with an outcome whose effects are fixed here.

use vstd::prelude::*;

use crate::action::Action;
use crate::text::str_eq;

verus! {

broadcast use vstd::string::group_string_axioms;

/// The breaths on which the agent acts: every third one.
pub open spec fn acting_breath(breath: u64) -> bool {
    breath % 3 == 0
}

/// The breath is one on which the agent acts (given the energy to).
pub fn is_acting_breath(breath: u64) -> (b: bool)
    ensures
        b == acting_breath(breath),
{
    breath % 3 == 0
}

/// What the last step of an attempt reported.
#[derive(Debug, Clone, Copy, PartialEq, Eq, Structural)]
pub enum Report {
    /// An action was chosen; `meta`: its operation is a meta-operator.
    Chosen { meta: bool },
    /// A diff was made for the action; `empty`: it is empty.
    DiffMade { empty: bool },
    /// No diff could be made.
    DiffFailed,
    /// The sandbox built the changed tree; `accepted`: the build succeeded
    /// with no error.
    Built { accepted: bool },
    /// The sandbox could not try the change.
    SandboxFailed,
    /// The source tree was copied aside.
    BackedUp,
    /// The change was written to the source tree.
    Applied,
    /// The change could not be written.
    ApplyFailed,
    /// The drives were watched after the change; `healthy`: they stayed
    /// finite and above half their earlier total.
    Validated { healthy: bool },
}

/// How an attempt ended.
#[derive(Debug, Clone, Copy, PartialEq, Eq, Structural)]
pub enum Outcome {
    /// A meta-operator retuned its parameter.
    MetaOk,
    /// The change was applied and validated.
    ApplyOk,
    /// The applied change was rolled back: the drives suffered.
    ValidationFail,
    /// The change could not be applied.
    ApplyFail,
    /// The sandbox rejected or could not try the change.
    SandboxReject,
    /// No diff could be made.
    DiffErr,
}

/// What to do next.
#[derive(Debug, Clone, Copy, PartialEq, Eq, Structural)]
pub enum Command {
    /// Make the diff for the action.
    MakeDiff,
    /// Drop the attempt: nothing is recorded or logged.
    Skip,
    /// Build the changed tree in the sandbox.
    TestDiff,
    /// Copy the source tree aside, to restore it if the change fails.
    BackupSource,
    /// Write the change to the source tree.
    ApplyDiff,
    /// Watch the drives after the change.
    Validate,
    /// The attempt is over, with this outcome.
    Conclude(Outcome),
}

/// The command that follows a report.
pub open spec fn command_for(r: Report) -> Command {
    match r {
        Report::Chosen { meta } => if meta {
            Command::Conclude(Outcome::MetaOk)
        } else {
            Command::MakeDiff
        },
        Report::DiffMade { empty } => if empty {
            Command::Skip
        } else {
            Command::TestDiff
        },
        Report::DiffFailed => Command::Conclude(Outcome::DiffErr),
        Report::Built { accepted } => if accepted {
            Command::BackupSource
        } else {
            Command::Conclude(Outcome::SandboxReject)
        },
        Report::SandboxFailed => Command::Conclude(Outcome::SandboxReject),
        Report::BackedUp => Command::ApplyDiff,
        Report::Applied => Command::Validate,
        Report::ApplyFailed => Command::Conclude(Outcome::ApplyFail),
        Report::Validated { healthy } => if healthy {
            Command::Conclude(Outcome::ApplyOk)
        } else {
            Command::Conclude(Outcome::ValidationFail)
        },
    }
}

/// The command that follows a report.
pub fn next_command(r: Report) -> (c: Command)
    ensures
        c == command_for(r),
{
    match r {
        Report::Chosen { meta } => if meta {
            Command::Conclude(Outcome::MetaOk)
        } else {
            Command::MakeDiff
        },
        Report::DiffMade { empty } => if empty {
            Command::Skip
        } else {
            Command::TestDiff
        },
        Report::DiffFailed => Command::Conclude(Outcome::DiffErr),
        Report::Built { accepted } => if accepted {
            Command::BackupSource
        } else {
            Command::Conclude(Outcome::SandboxReject)
        },
        Report::SandboxFailed => Command::Conclude(Outcome::SandboxReject),
        Report::BackedUp => Command::ApplyDiff,
        Report::Applied => Command::Validate,
        Report::ApplyFailed => Command::Conclude(Outcome::ApplyFail),
        Report::Validated { healthy } => if healthy {
            Command::Conclude(Outcome::ApplyOk)
        } else {
            Command::Conclude(Outcome::ValidationFail)
        },
    }
}

/// The report answers the command: it is one of the reports that performing
/// the command can give.
pub open spec fn answers(c: Command, r: Report) -> bool {
    match c {
        Command::MakeDiff => r is DiffMade || r is DiffFailed,
        Command::TestDiff => r is Built || r is SandboxFailed,
        Command::BackupSource => r is BackedUp,
        Command::ApplyDiff => r is Applied || r is ApplyFailed,
        Command::Validate => r is Validated,
        _ => false,
    }
}

/// The reports of an attempt, in order: it starts with the choice of an
/// action, and each later report answers the command that the one before it
/// gave.
pub open spec fn is_attempt(rs: Seq<Report>) -> bool {
    &&& rs.len() >= 1
    &&& rs[0] is Chosen
    &&& forall|i: int| 0 <= i < rs.len() - 1 ==> answers(command_for(#[trigger] rs[i]), rs[i + 1])
}

/// How far into an attempt a report comes.
pub open spec fn depth(r: Report) -> int {
    match r {
        Report::Chosen { .. } => 0,
        Report::DiffMade { .. } | Report::DiffFailed => 1,
        Report::Built { .. } | Report::SandboxFailed => 2,
        Report::BackedUp => 3,
        Report::Applied | Report::ApplyFailed => 4,
        Report::Validated { .. } => 5,
    }
}

proof fn lemma_depths(rs: Seq<Report>, k: int)
    requires
        is_attempt(rs),
        0 <= k < rs.len(),
    ensures
        forall|i: int| 0 <= i <= k ==> depth(#[trigger] rs[i]) == i,
    decreases k,
{
    if k > 0 {
        lemma_depths(rs, k - 1);
        assert(answers(command_for(rs[k - 1]), rs[k]));
    }
}

/// An attempt takes at most six reports: choice, diff, build, backup, write
/// and validation.
pub proof fn law_attempt_is_short(rs: Seq<Report>)
    requires
        is_attempt(rs),
    ensures
        rs.len() <= 6,
{
    lemma_depths(rs, rs.len() - 1);
    assert(depth(rs[rs.len() - 1]) == rs.len() - 1);
}

/// An attempt concludes that a change was applied only when it chose a
/// code-changing action, made a non-empty diff, had the sandbox build it
/// without errors, copied the source tree aside, wrote the change, and found
/// the drives healthy afterwards.
pub proof fn law_applied_only_after_sandbox_and_validation(rs: Seq<Report>)
    requires
        is_attempt(rs),
        command_for(rs.last()) == Command::Conclude(Outcome::ApplyOk),
    ensures
        rs == seq![
            Report::Chosen { meta: false },
            Report::DiffMade { empty: false },
            Report::Built { accepted: true },
            Report::BackedUp,
            Report::Applied,
            Report::Validated { healthy: true },
        ],
{
    lemma_depths(rs, rs.len() - 1);
    let n = rs.len() as int;
    assert(depth(rs[n - 1]) == n - 1);
    assert(rs[n - 1] == Report::Validated { healthy: true });
    assert(n == 6);
    assert(answers(command_for(rs[0]), rs[1]));
    assert(answers(command_for(rs[1]), rs[2]));
    assert(answers(command_for(rs[2]), rs[3]));
    assert(answers(command_for(rs[3]), rs[4]));
    assert(answers(command_for(rs[4]), rs[5]));
    assert(depth(rs[1]) == 1 && depth(rs[2]) == 2 && depth(rs[3]) == 3 && depth(rs[4]) == 4);
}

/// What the world model learns from an attempt.
#[derive(Debug, Clone, Copy, PartialEq, Eq, Structural)]
pub enum Learning {
    /// Nothing.
    Nothing,
    /// The transition from the drives before to the drives now.
    NewDrives,
    /// A transition that left the drives as they were.
    OldDrives,
}

/// The effects of an outcome on the agent's state.
#[derive(Debug, Clone, Copy, PartialEq, Eq, Structural)]
pub struct Effects {
    /// The meta-operator's parameter is retuned.
    pub retunes: bool,
    /// The source tree is restored from the copy taken before the change.
    pub restores_source: bool,
    /// The module's micro-drives record a success.
    pub module_success: bool,
    /// The module's micro-drives record a failure.
    pub module_failure: bool,
    /// The self-model records a failed attempt at the action's target.
    pub records_failure: bool,
    /// What the world model learns.
    pub learning: Learning,
    /// The action is remembered as a success and patterns are searched.
    pub remembers_success: bool,
}

/// The effects of each outcome.
pub open spec fn effects_of(o: Outcome) -> Effects {
    match o {
        Outcome::MetaOk => Effects {
            retunes: true,
            restores_source: false,
            module_success: false,
            module_failure: false,
            records_failure: false,
            learning: Learning::NewDrives,
            remembers_success: true,
        },
        Outcome::ApplyOk => Effects {
            retunes: false,
            restores_source: false,
            module_success: true,
            module_failure: false,
            records_failure: false,
            learning: Learning::NewDrives,
            remembers_success: true,
        },
        Outcome::ValidationFail => Effects {
            retunes: false,
            restores_source: true,
            module_success: false,
            module_failure: true,
            records_failure: true,
            learning: Learning::OldDrives,
            remembers_success: false,
        },
        Outcome::ApplyFail => Effects {
            retunes: false,
            restores_source: false,
            module_success: false,
            module_failure: true,
            records_failure: true,
            learning: Learning::Nothing,
            remembers_success: false,
        },
        Outcome::SandboxReject => Effects {
            retunes: false,
            restores_source: false,
            module_success: false,
            module_failure: true,
            records_failure: true,
            learning: Learning::OldDrives,
            remembers_success: false,
        },
        Outcome::DiffErr => Effects {
            retunes: false,
            restores_source: false,
            module_success: false,
            module_failure: false,
            records_failure: true,
            learning: Learning::Nothing,
            remembers_success: false,
        },
    }
}

/// The effects of an outcome.
pub fn effects(o: Outcome) -> (e: Effects)
    ensures
        e == effects_of(o),
{
    match o {
        Outcome::MetaOk => Effects {
            retunes: true,
            restores_source: false,
            module_success: false,
            module_failure: false,
            records_failure: false,
            learning: Learning::NewDrives,
            remembers_success: true,
        },
        Outcome::ApplyOk => Effects {
            retunes: false,
            restores_source: false,
            module_success: true,
            module_failure: false,
            records_failure: false,
            learning: Learning::NewDrives,
            remembers_success: true,
        },
        Outcome::ValidationFail => Effects {
            retunes: false,
            restores_source: true,
            module_success: false,
            module_failure: true,
            records_failure: true,
            learning: Learning::OldDrives,
            remembers_success: false,
        },
        Outcome::ApplyFail => Effects {
            retunes: false,
            restores_source: false,
            module_success: false,
            module_failure: true,
            records_failure: true,
            learning: Learning::Nothing,
            remembers_success: false,
        },
        Outcome::SandboxReject => Effects {
            retunes: false,
            restores_source: false,
            module_success: false,
            module_failure: true,
            records_failure: true,
            learning: Learning::OldDrives,
            remembers_success: false,
        },
        Outcome::DiffErr => Effects {
            retunes: false,
            restores_source: false,
            module_success: false,
            module_failure: false,
            records_failure: true,
            learning: Learning::Nothing,
            remembers_success: false,
        },
    }
}

/// Successes and failures exclude each other: a remembered success records no
/// failure, learns the new drives and leaves the source as the attempt left it.
pub proof fn law_success_and_failure_exclusive(o: Outcome)
    ensures
        effects_of(o).remembers_success ==> !effects_of(o).records_failure
            && !effects_of(o).module_failure && !effects_of(o).restores_source
            && effects_of(o).learning == Learning::NewDrives,
        effects_of(o).module_success ==> effects_of(o).remembers_success,
        effects_of(o).restores_source ==> effects_of(o).records_failure,
{
}

/// Only an attempt that copied the source tree aside, wrote the change and
/// then found the drives unhealthy restores the source: whenever the outcome
/// an attempt concludes with restores the source, the attempt went through
/// the backup and the write, and failed validation.
pub proof fn law_restore_only_after_backup(rs: Seq<Report>, o: Outcome)
    requires
        is_attempt(rs),
        command_for(rs.last()) == Command::Conclude(o),
        effects_of(o).restores_source,
    ensures
        o == Outcome::ValidationFail,
        rs.len() == 6,
        rs[3] == Report::BackedUp,
        rs[4] == Report::Applied,
        rs[5] == (Report::Validated { healthy: false }),
{
    lemma_depths(rs, rs.len() - 1);
    let n = rs.len() as int;
    assert(depth(rs[n - 1]) == n - 1);
    assert(rs[n - 1] == Report::Validated { healthy: false });
    assert(n == 6);
    assert(answers(command_for(rs[2]), rs[3]));
    assert(answers(command_for(rs[3]), rs[4]));
    assert(depth(rs[3]) == 3 && depth(rs[4]) == 4);
}

/// A sandbox rejection, a failed write, a diff that could not be made, or a
/// success never restores the source.
pub proof fn law_only_validation_failure_restores(o: Outcome)
    ensures
        effects_of(o).restores_source == (o == Outcome::ValidationFail),
{
}

/// An applied and validated `create_operator` action adds its target to the
/// operator pool.
pub open spec fn registers_operator_spec(o: Outcome, operation: Seq<char>) -> bool {
    o == Outcome::ApplyOk && operation == "create_operator"@
}

/// The outcome adds the action's target to the operator pool.
pub fn registers_operator(o: Outcome, action: &Action) -> (b: bool)
    ensures
        b == registers_operator_spec(o, action.operation@),
{
    match o {
        Outcome::ApplyOk => str_eq(action.operation.as_str(), "create_operator"),
        _ => false,
    }
}

} // verus!
