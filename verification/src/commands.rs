//! What the command line does about a denied access.

use vstd::prelude::*;

use crate::casing::ascii_lower;
use crate::text::{
    chars_of, concat, decimal, find_text, find_text_from, lines, lines_of, same, show_number,
    texts, trim, trimmed,
};

verus! {

/// Why an access was denied.
#[derive(Debug, Clone, Copy, PartialEq, Eq, Structural)]
pub enum DenialType {
    /// No policy of the identity allows it.
    ImplicitIdentity,
    /// The policy of the resource does not allow it.
    ResourcePolicy,
    /// A policy of the identity denies it.
    ExplicitIdentity,
    Other,
}

/// How the program ends.
#[derive(Debug, Clone, Copy, PartialEq, Eq, Structural)]
pub enum ExitCode {
    Success,
    Error,
    /// What was to be added is there already.
    Duplicate,
}

/// What to do about a denied access.
#[derive(Debug, Clone, Copy, PartialEq, Eq, Structural)]
pub enum FixStep {
    /// Refuse to apply a policy, since nobody can be asked.
    RefuseWithoutTerminal,
    /// Ask whether a policy is to be applied.
    Ask,
    /// Apply a policy.
    Apply,
    /// Show what the policy of the resource would have to say.
    ShowResourcePolicy,
    /// Explain that access is denied by a policy.
    ExplainDeny,
    /// Say that nothing can be done.
    Unsupported,
}

/// What to do first. A policy is only applied where the identity lacks one, and only if that was
/// agreed to, beforehand or at a terminal.
pub fn first_step(denial: DenialType, is_terminal: bool, yes: bool) -> (r: FixStep)
    ensures
        r == (match denial {
            DenialType::ImplicitIdentity => if yes {
                FixStep::Apply
            } else if is_terminal {
                FixStep::Ask
            } else {
                FixStep::RefuseWithoutTerminal
            },
            DenialType::ResourcePolicy => FixStep::ShowResourcePolicy,
            DenialType::ExplicitIdentity => FixStep::ExplainDeny,
            DenialType::Other => FixStep::Unsupported,
        }),
{
    match denial {
        DenialType::ImplicitIdentity => if yes {
            FixStep::Apply
        } else if is_terminal {
            FixStep::Ask
        } else {
            FixStep::RefuseWithoutTerminal
        },
        DenialType::ResourcePolicy => FixStep::ShowResourcePolicy,
        DenialType::ExplicitIdentity => FixStep::ExplainDeny,
        DenialType::Other => FixStep::Unsupported,
    }
}

/// The first line of a text.
pub open spec fn first_line(s: Seq<char>) -> Seq<char> {
    if lines_of(s).len() == 0 {
        Seq::empty()
    } else {
        lines_of(s)[0]
    }
}

pub open spec fn ascii_lowered(s: Seq<char>) -> Seq<char> {
    s.map_values(|c: char| ascii_lower(c))
}

/// Whether an answer is a yes.
pub open spec fn is_yes(s: Seq<char>) -> bool {
    let answer = ascii_lowered(trimmed(first_line(s)));
    answer == "y"@ || answer == "yes"@
}

fn lower_char(c: char) -> (r: char)
    ensures
        r == ascii_lower(c),
{
    if 'A' <= c && c <= 'Z' {
        let n: u8 = c as u8;
        (n + 32) as char
    } else {
        c
    }
}

/// Whether an answer is a yes: `y` or `yes` in whatever case, on its first line.
pub fn parse_answer(text: &str) -> (r: bool)
    ensures
        r == is_yes(text@),
{
    let ls = lines(text);
    let ghost s = texts(ls@);
    let line = if ls.len() == 0 {
        String::new()
    } else {
        assert(s[0] == ls@[0]@);
        ls[0].clone()
    };
    assert(s.len() == ls@.len());
    assert(line@ =~= first_line(text@));
    let v = chars_of(trim(line.as_str()).as_str());
    let mut answer = String::new();
    let mut i: usize = 0;
    assert(answer@ =~= ascii_lowered(v@.subrange(0, 0)));
    while i < v.len()
        invariant
            i <= v@.len(),
            answer@ == ascii_lowered(v@.subrange(0, i as int)),
        decreases v@.len() - i,
    {
        answer.push(lower_char(v[i]));
        assert(answer@ =~= ascii_lowered(v@.subrange(0, i + 1)));
        i = i + 1;
    }
    assert(v@.subrange(0, v@.len() as int) =~= v@);
    same(answer.as_str(), "y") || same(answer.as_str(), "yes")
}

/// What a reader is told about an attempt to apply a policy.
#[derive(Debug)]
pub enum Report {
    /// A policy was made.
    PolicyCreated { policy_name: String, principal_kind: String, principal_name: String },
    /// A statement was added to a policy that was there.
    StatementAdded {
        policy_name: String,
        principal_kind: String,
        principal_name: String,
        statement_count: usize,
    },
    /// Nothing was applied, for this reason.
    Refused { reason: String, message: String },
    /// The statement is there already.
    DuplicateStatement { action: String, resource: String },
}

/// Whether the report says that nothing was applied, for this reason.
pub open spec fn is_refusal(r: Report, why: Seq<char>, what: Seq<char>) -> bool {
    r matches Report::Refused { reason, message } && reason@ == why && message@ == what
}

fn refuse(why: &str, what: &str) -> (r: Report)
    ensures
        is_refusal(r, why@, what@),
{
    Report::Refused { reason: why.to_string(), message: what.to_string() }
}

/// The report where nobody can be asked and nothing was agreed to beforehand.
pub fn refusal_without_terminal() -> (r: Report)
    ensures
        is_refusal(
            r,
            "refused_non_tty"@,
            "run interactively in a TTY to apply changes, or use --yes flag"@,
        ),
{
    refuse("refused_non_tty", "run interactively in a TTY to apply changes, or use --yes flag")
}

/// The report if the answer to the question is not a yes, and how the program ends. Without a
/// terminal there is no answer.
pub fn refusal_after_question(answer: Option<bool>) -> (r: Option<(Report, ExitCode)>)
    ensures
        match answer {
            Some(true) => r is None,
            Some(false) => r matches Some((x, code)) && is_refusal(
                x,
                "aborted_by_user"@,
                "apply aborted by user"@,
            ) && code == ExitCode::Success,
            None => r matches Some((x, code)) && is_refusal(
                x,
                "refused_non_tty"@,
                "run interactively in a TTY to apply changes"@,
            ) && code == ExitCode::Success,
        },
{
    match answer {
        Some(true) => None,
        Some(false) => Some(
            (refuse("aborted_by_user", "apply aborted by user"), ExitCode::Success),
        ),
        None => Some(
            (
                refuse("refused_non_tty", "run interactively in a TTY to apply changes"),
                ExitCode::Success,
            ),
        ),
    }
}

/// What came of an attempt to apply a policy.
#[derive(Debug)]
pub struct ApplyResult {
    pub is_new_policy: bool,
    pub policy_name: String,
    pub principal_kind: String,
    pub principal_name: String,
    pub statement_count: usize,
}

/// Why a policy could not be applied.
#[derive(Debug)]
pub enum ApplyError {
    UnsupportedDenialType,
    UnsupportedPrincipal(String),
    AccountMismatch { principal_account: String, caller_account: String },
    DuplicateStatement { action: String, resource: String },
    MultiActionError(usize),
    /// What AWS said.
    Aws(String),
}

/// The report on a policy that was applied.
pub fn report_success(a: ApplyResult) -> (r: Report)
    ensures
        r == (if a.is_new_policy {
            Report::PolicyCreated {
                policy_name: a.policy_name,
                principal_kind: a.principal_kind,
                principal_name: a.principal_name,
            }
        } else {
            Report::StatementAdded {
                policy_name: a.policy_name,
                principal_kind: a.principal_kind,
                principal_name: a.principal_name,
                statement_count: a.statement_count,
            }
        }),
{
    if a.is_new_policy {
        Report::PolicyCreated {
            policy_name: a.policy_name,
            principal_kind: a.principal_kind,
            principal_name: a.principal_name,
        }
    } else {
        Report::StatementAdded {
            policy_name: a.policy_name,
            principal_kind: a.principal_kind,
            principal_name: a.principal_name,
            statement_count: a.statement_count,
        }
    }
}

/// Whether the report is the one on the error.
pub open spec fn reports_error(r: Report, e: ApplyError) -> bool {
    match e {
        ApplyError::UnsupportedDenialType => is_refusal(
            r,
            "explain_only"@,
            "this denial type is not fixable with an inline identity policy"@,
        ),
        ApplyError::UnsupportedPrincipal(m) => is_refusal(r, "unsupported_principal"@, m@),
        ApplyError::AccountMismatch { principal_account, caller_account } => is_refusal(
            r,
            "account_mismatch"@,
            "principal account ("@ + principal_account@ + ") differs from caller account ("@
                + caller_account@ + ")"@,
        ),
        ApplyError::DuplicateStatement { action, resource } => r == (Report::DuplicateStatement {
            action,
            resource,
        }),
        ApplyError::MultiActionError(n) => is_refusal(
            r,
            "multi_action_error"@,
            "Expected exactly 1 action for canonical policy, got "@ + decimal(n as nat)
                + ". This is a bug."@,
        ),
        ApplyError::Aws(m) => if find_text_from(m@, "NoSuchEntity"@, 0) is Some {
            is_refusal(
                r,
                "principal_not_found"@,
                "the IAM principal no longer exists or is not visible"@,
            )
        } else {
            is_refusal(r, "mutation_error"@, m@)
        },
    }
}

/// The report on a policy that could not be applied, and how the program ends.
pub fn handle_apply_error(apply_error: ApplyError) -> (r: (Report, ExitCode))
    ensures
        reports_error(r.0, apply_error),
        r.1 == (if apply_error is DuplicateStatement {
            ExitCode::Duplicate
        } else {
            ExitCode::Error
        }),
{
    match apply_error {
        ApplyError::UnsupportedDenialType => (
            refuse(
                "explain_only",
                "this denial type is not fixable with an inline identity policy",
            ),
            ExitCode::Error,
        ),
        ApplyError::UnsupportedPrincipal(m) => (
            refuse("unsupported_principal", m.as_str()),
            ExitCode::Error,
        ),
        ApplyError::AccountMismatch { principal_account, caller_account } => {
            let mut m = concat("principal account (", principal_account.as_str());
            m.append(") differs from caller account (");
            m.append(caller_account.as_str());
            m.append(")");
            (refuse("account_mismatch", m.as_str()), ExitCode::Error)
        },
        ApplyError::DuplicateStatement { action, resource } => (
            Report::DuplicateStatement { action, resource },
            ExitCode::Duplicate,
        ),
        ApplyError::MultiActionError(n) => {
            let mut m = concat(
                "Expected exactly 1 action for canonical policy, got ",
                show_number(n as u64).as_str(),
            );
            m.append(". This is a bug.");
            (refuse("multi_action_error", m.as_str()), ExitCode::Error)
        },
        ApplyError::Aws(m) => {
            let found = find_text(&chars_of(m.as_str()), &chars_of("NoSuchEntity"), 0);
            let report = match found {
                Some(_) => refuse(
                    "principal_not_found",
                    "the IAM principal no longer exists or is not visible",
                ),
                None => refuse("mutation_error", m.as_str()),
            };
            (report, ExitCode::Error)
        },
    }
}

/// The report on an attempt to apply a policy, and how the program ends.
pub fn report_apply(outcome: Result<ApplyResult, ApplyError>) -> (r: (Report, ExitCode))
    ensures
        match outcome {
            Ok(a) => r.1 == ExitCode::Success && r.0 == (if a.is_new_policy {
                Report::PolicyCreated {
                    policy_name: a.policy_name,
                    principal_kind: a.principal_kind,
                    principal_name: a.principal_name,
                }
            } else {
                Report::StatementAdded {
                    policy_name: a.policy_name,
                    principal_kind: a.principal_kind,
                    principal_name: a.principal_name,
                    statement_count: a.statement_count,
                }
            }),
            Err(e) => reports_error(r.0, e) && r.1 == (if e is DuplicateStatement {
                ExitCode::Duplicate
            } else {
                ExitCode::Error
            }),
        },
{
    match outcome {
        Ok(a) => (report_success(a), ExitCode::Success),
        Err(e) => handle_apply_error(e),
    }
}

/// How the program ends after a step that applies nothing: refusing is no error, but a denial that
/// cannot be fixed is.
pub fn exit_after(step: FixStep) -> (r: Option<ExitCode>)
    ensures
        r == (match step {
            FixStep::RefuseWithoutTerminal => Some(ExitCode::Success),
            FixStep::Ask => None,
            FixStep::Apply => None,
            FixStep::ShowResourcePolicy => Some(ExitCode::Error),
            FixStep::ExplainDeny => Some(ExitCode::Error),
            FixStep::Unsupported => Some(ExitCode::Error),
        }),
{
    match step {
        FixStep::RefuseWithoutTerminal => Some(ExitCode::Success),
        FixStep::Ask => None,
        FixStep::Apply => None,
        FixStep::ShowResourcePolicy => Some(ExitCode::Error),
        FixStep::ExplainDeny => Some(ExitCode::Error),
        FixStep::Unsupported => Some(ExitCode::Error),
    }
}

/// Why there is no plan for an error text.
#[derive(Debug)]
pub enum PlanFailure {
    /// The service could not be started, for this reason.
    NoService(String),
    /// The text tells of no denied access.
    NothingDenied,
    /// Another reason.
    Other(String),
}

/// What a reader is told if there is no plan.
pub fn plan_failure_note(f: &PlanFailure) -> (r: String)
    ensures
        r@ == (match f {
            PlanFailure::NoService(e) => "Failed to initialize service: "@ + e@,
            PlanFailure::NothingDenied => "No AccessDenied found in provided text"@,
            PlanFailure::Other(e) => "Failed to create plan: "@ + e@,
        }),
{
    match f {
        PlanFailure::NoService(e) => concat("Failed to initialize service: ", e.as_str()),
        PlanFailure::NothingDenied => "No AccessDenied found in provided text".to_string(),
        PlanFailure::Other(e) => concat("Failed to create plan: ", e.as_str()),
    }
}

} // verus!
