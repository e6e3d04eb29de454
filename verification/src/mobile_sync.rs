//! Offline mobile actions replayed in a batch: which command an action
//! names, what it is logged as, its timestamp, and the tally of outcomes.

use vstd::prelude::*;
use crate::text::{text_eq, trim, trimmed, concat_views, join_texts};
use crate::model::DispatchError;
use crate::rules::DispatchService;
use crate::generation::{rfc3339_seconds, parse_rfc3339_seconds};

verus! {

/// The commands a mobile client can replay.
#[derive(Clone, Copy, Debug, PartialEq, Eq, Structural)]
pub enum MobileCommand {
    Accept,
    Start,
    Complete,
    Checkin,
    Checkout,
    EtaReport,
    ReportIssue,
}

/// The command an action type names, if any.
pub open spec fn command_of(t: Seq<char>) -> Option<MobileCommand> {
    if t == "accept"@ {
        Some(MobileCommand::Accept)
    } else if t == "start"@ {
        Some(MobileCommand::Start)
    } else if t == "complete"@ {
        Some(MobileCommand::Complete)
    } else if t == "checkin"@ {
        Some(MobileCommand::Checkin)
    } else if t == "checkout"@ {
        Some(MobileCommand::Checkout)
    } else if t == "eta_report"@ {
        Some(MobileCommand::EtaReport)
    } else if t == "report_issue"@ {
        Some(MobileCommand::ReportIssue)
    } else {
        None
    }
}

/// The action-log name an action type is recorded under: the past form of
/// a known command, else the type itself.
pub open spec fn action_log_of(t: Seq<char>) -> Seq<char> {
    if t == "accept"@ {
        "accepted"@
    } else if t == "checkin"@ {
        "checkin"@
    } else if t == "checkout"@ {
        "checkout"@
    } else if t == "start"@ {
        "started"@
    } else if t == "complete"@ {
        "completed"@
    } else if t == "eta_report"@ {
        "estimated_completion_reported"@
    } else if t == "report_issue"@ {
        "issue_reported"@
    } else {
        t
    }
}

/// The outcome of one replayed action.
pub struct MobileSyncOutcome {
    pub client_action_id: String,
    pub dispatch_order_id: String,
    pub action_type: String,
    /// `applied`, `duplicate` or `failed`.
    pub status: String,
    pub message: String,
}

/// The outcomes of a batch of replayed actions, counted.
pub struct MobileSyncTally {
    pub total: i64,
    pub applied: i64,
    pub duplicates: i64,
    pub failed: i64,
    pub results: Vec<MobileSyncOutcome>,
}

/// How many outcomes in `r` have status `s`.
pub open spec fn status_count(r: Seq<MobileSyncOutcome>, s: Seq<char>) -> nat
    decreases r.len(),
{
    if r.len() == 0 {
        0
    } else {
        status_count(r.drop_last(), s) + if r.last().status@ == s {
            1nat
        } else {
            0nat
        }
    }
}

/// Each counter counts the outcomes with its status, and every outcome
/// has one of the three statuses.
pub open spec fn tally_consistent(t: MobileSyncTally) -> bool {
    &&& t.applied == status_count(t.results@, "applied"@)
    &&& t.duplicates == status_count(t.results@, "duplicate"@)
    &&& t.failed == status_count(t.results@, "failed"@)
    &&& t.applied + t.duplicates + t.failed == t.results@.len()
    &&& t.results@.len() <= t.total
}

/// An outcome as plain values.
pub open spec fn outcome_view(o: MobileSyncOutcome) -> (Seq<char>, Seq<char>, Seq<char>, Seq<char>, Seq<char>) {
    (o.client_action_id@, o.dispatch_order_id@, o.action_type@, o.status@, o.message@)
}

/// The message of an action type the service does not know.
pub open spec fn unsupported_action_message(t: Seq<char>) -> Seq<char> {
    "不支持的动作类型: "@ + t
}

proof fn lemma_count_push(r: Seq<MobileSyncOutcome>, o: MobileSyncOutcome, s: Seq<char>)
    ensures
        status_count(r.push(o), s) == status_count(r, s) + if o.status@ == s {
            1nat
        } else {
            0nat
        },
{
    assert(r.push(o).drop_last() =~= r);
}

impl MobileSyncTally {
    /// An empty tally for a batch of `total` actions.
    pub fn new(total: i64) -> (r: Self)
        requires
            total >= 0,
        ensures
            r.total == total,
            r.results@.len() == 0,
            tally_consistent(r),
    {
        MobileSyncTally { total, applied: 0, duplicates: 0, failed: 0, results: Vec::new() }
    }

    fn record(&mut self, client_action_id: &str, order_id: &str, action_type: &str, status: &str, message: String)
        requires
            tally_consistent(*old(self)),
            old(self).results@.len() < old(self).total,
            status@ == "applied"@ || status@ == "duplicate"@ || status@ == "failed"@,
        ensures
            tally_consistent(*final(self)),
            final(self).total == old(self).total,
            final(self).applied == old(self).applied + if status@ == "applied"@ { 1int } else { 0int },
            final(self).duplicates == old(self).duplicates + if status@ == "duplicate"@ { 1int } else { 0int },
            final(self).failed == old(self).failed + if status@ == "failed"@ { 1int } else { 0int },
            final(self).results@ == old(self).results@.push(final(self).results@.last()),
            outcome_view(final(self).results@.last()) == (
                client_action_id@,
                order_id@,
                action_type@,
                status@,
                message@,
            ),
    {
        proof {
            reveal_strlit("applied");
            reveal_strlit("duplicate");
            reveal_strlit("failed");
            assert("applied"@.len() == 7 && "duplicate"@.len() == 9 && "failed"@.len() == 6);
        }
        let o = MobileSyncOutcome {
            client_action_id: client_action_id.to_string(),
            dispatch_order_id: order_id.to_string(),
            action_type: action_type.to_string(),
            status: status.to_string(),
            message,
        };
        let ghost r0 = self.results@;
        let ghost o0 = o;
        if text_eq(status, "applied") {
            self.applied = self.applied + 1;
        } else if text_eq(status, "duplicate") {
            self.duplicates = self.duplicates + 1;
        } else {
            self.failed = self.failed + 1;
        }
        self.results.push(o);
        proof {
            lemma_count_push(r0, o0, "applied"@);
            lemma_count_push(r0, o0, "duplicate"@);
            lemma_count_push(r0, o0, "failed"@);
        }
    }

    /// Records an action already logged: ignored as a duplicate.
    pub fn record_duplicate(&mut self, client_action_id: &str, order_id: &str, action_type: &str)
        requires
            tally_consistent(*old(self)),
            old(self).results@.len() < old(self).total,
        ensures
            tally_consistent(*final(self)),
            final(self).total == old(self).total,
            final(self).duplicates == old(self).duplicates + 1,
            final(self).applied == old(self).applied,
            final(self).failed == old(self).failed,
            final(self).results@ == old(self).results@.push(final(self).results@.last()),
            outcome_view(final(self).results@.last()) == (
                client_action_id@,
                order_id@,
                action_type@,
                "duplicate"@,
                "重复动作已忽略"@,
            ),
    {
        proof {
            reveal_strlit("duplicate");
            reveal_strlit("重复动作已忽略");
        }
        self.record(client_action_id, order_id, action_type, "duplicate", "重复动作已忽略".to_string());
        proof {
            reveal_strlit("applied");
            reveal_strlit("failed");
        }
    }

    /// Records an action that was applied.
    pub fn record_applied(&mut self, client_action_id: &str, order_id: &str, action_type: &str)
        requires
            tally_consistent(*old(self)),
            old(self).results@.len() < old(self).total,
        ensures
            tally_consistent(*final(self)),
            final(self).total == old(self).total,
            final(self).applied == old(self).applied + 1,
            final(self).duplicates == old(self).duplicates,
            final(self).failed == old(self).failed,
            final(self).results@ == old(self).results@.push(final(self).results@.last()),
            outcome_view(final(self).results@.last()) == (
                client_action_id@,
                order_id@,
                action_type@,
                "applied"@,
                "补传成功"@,
            ),
    {
        proof {
            reveal_strlit("applied");
            reveal_strlit("补传成功");
        }
        self.record(client_action_id, order_id, action_type, "applied", "补传成功".to_string());
        proof {
            reveal_strlit("duplicate");
            reveal_strlit("failed");
        }
    }

    /// Records an action that failed, with the error's message.
    pub fn record_failed(&mut self, client_action_id: &str, order_id: &str, action_type: &str, message: String)
        requires
            tally_consistent(*old(self)),
            old(self).results@.len() < old(self).total,
        ensures
            tally_consistent(*final(self)),
            final(self).total == old(self).total,
            final(self).failed == old(self).failed + 1,
            final(self).applied == old(self).applied,
            final(self).duplicates == old(self).duplicates,
            final(self).results@ == old(self).results@.push(final(self).results@.last()),
            outcome_view(final(self).results@.last()) == (
                client_action_id@,
                order_id@,
                action_type@,
                "failed"@,
                message@,
            ),
    {
        proof {
            reveal_strlit("failed");
        }
        self.record(client_action_id, order_id, action_type, "failed", message);
        proof {
            reveal_strlit("duplicate");
            reveal_strlit("applied");
        }
    }
}

/// Whatever the outcomes recorded, the counters account for every
/// outcome, each once: a tally kept consistent stays consistent.
pub proof fn law_tally_accounts_for_every_action(t: MobileSyncTally)
    requires
        tally_consistent(t),
    ensures
        t.applied + t.duplicates + t.failed == t.results@.len(),
        t.applied >= 0 && t.duplicates >= 0 && t.failed >= 0,
        t.applied + t.duplicates + t.failed <= t.total,
{
}

impl DispatchService {
    /// The command an action type names (`None` for one the service does
    /// not support).
    pub fn mobile_command(action_type: &str) -> (r: Option<MobileCommand>)
        ensures
            r == command_of(action_type@),
            action_type@ == "accept"@ ==> r == Some(MobileCommand::Accept),
            action_type@ == "start"@ ==> r == Some(MobileCommand::Start),
            action_type@ == "complete"@ ==> r == Some(MobileCommand::Complete),
            action_type@ == "checkin"@ ==> r == Some(MobileCommand::Checkin),
            action_type@ == "checkout"@ ==> r == Some(MobileCommand::Checkout),
            action_type@ == "eta_report"@ ==> r == Some(MobileCommand::EtaReport),
            action_type@ == "report_issue"@ ==> r == Some(MobileCommand::ReportIssue),
    {
        proof {
            reveal_strlit("accept");
            reveal_strlit("start");
            reveal_strlit("complete");
            reveal_strlit("checkin");
            reveal_strlit("checkout");
            reveal_strlit("eta_report");
            reveal_strlit("report_issue");
        }
        proof {
            lemma_command_names_distinct();
        }
        if text_eq(action_type, "accept") {
            Some(MobileCommand::Accept)
        } else if text_eq(action_type, "start") {
            Some(MobileCommand::Start)
        } else if text_eq(action_type, "complete") {
            Some(MobileCommand::Complete)
        } else if text_eq(action_type, "checkin") {
            Some(MobileCommand::Checkin)
        } else if text_eq(action_type, "checkout") {
            Some(MobileCommand::Checkout)
        } else if text_eq(action_type, "eta_report") {
            Some(MobileCommand::EtaReport)
        } else if text_eq(action_type, "report_issue") {
            Some(MobileCommand::ReportIssue)
        } else {
            None
        }
    }

    /// The action-log name an action type is recorded under.
    pub fn mobile_action_log(action_type: &str) -> (r: String)
        ensures
            r@ == action_log_of(action_type@),
    {
        proof {
            reveal_strlit("accept");
            reveal_strlit("start");
            reveal_strlit("complete");
            reveal_strlit("checkin");
            reveal_strlit("checkout");
            reveal_strlit("eta_report");
            reveal_strlit("report_issue");
            reveal_strlit("accepted");
            reveal_strlit("started");
            reveal_strlit("completed");
            reveal_strlit("estimated_completion_reported");
            reveal_strlit("issue_reported");
        }
        let r: &str = if text_eq(action_type, "accept") {
            "accepted"
        } else if text_eq(action_type, "checkin") {
            "checkin"
        } else if text_eq(action_type, "checkout") {
            "checkout"
        } else if text_eq(action_type, "start") {
            "started"
        } else if text_eq(action_type, "complete") {
            "completed"
        } else if text_eq(action_type, "eta_report") {
            "estimated_completion_reported"
        } else if text_eq(action_type, "report_issue") {
            "issue_reported"
        } else {
            action_type
        };
        r.to_string()
    }

    /// The error for an action type the service does not support.
    pub fn unsupported_mobile_action(action_type: &str) -> (e: DispatchError)
        ensures
            e matches DispatchError::BusinessRuleViolation(m) && m@ == unsupported_action_message(action_type@),
    {
        proof {
            reveal_strlit("不支持的动作类型: ");
            reveal_with_fuel(concat_views, 3);
        }
        let m = join_texts(&["不支持的动作类型: ", action_type]);
        assert(concat_views(seq!["不支持的动作类型: ", action_type]) =~= "不支持的动作类型: "@ + action_type@);
        DispatchError::BusinessRuleViolation(m)
    }

    /// The time an action carries: its own field when that parses as RFC
    /// 3339, else the action's timestamp when that does.
    pub fn parse_action_timestamp(primary: Option<&str>, fallback: Option<&str>) -> (r: Option<i64>)
        ensures
            r == match match primary {
                Some(p) => rfc3339_seconds(p@),
                None => None,
            } {
                Some(t) => Some(t),
                None => match fallback {
                    Some(f) => rfc3339_seconds(f@),
                    None => None,
                },
            },
    {
        let first = match primary {
            Some(p) => parse_rfc3339_seconds(p),
            None => None,
        };
        match first {
            Some(t) => Some(t),
            None => match fallback {
                Some(f) => parse_rfc3339_seconds(f),
                None => None,
            },
        }
    }
}

/// What replaying one offline action comes to before it runs.
#[derive(Clone, Copy, Debug, PartialEq, Eq, Structural)]
pub enum MobileSyncStep {
    /// The action was already logged: it is counted as a duplicate.
    Duplicate,
    /// The action runs as this command.
    Run(MobileCommand),
    /// The action type is not supported: it is counted as failed.
    Unsupported,
}

/// The step of replaying an action of type `t` (trimmed) given whether its
/// log entry was found (`None` when the lookup failed, which does not stop
/// the action).
pub open spec fn sync_step_of(t: Seq<char>, logged: Option<bool>) -> MobileSyncStep {
    if logged == Some(true) {
        MobileSyncStep::Duplicate
    } else {
        match command_of(trimmed(t)) {
            Some(c) => MobileSyncStep::Run(c),
            None => MobileSyncStep::Unsupported,
        }
    }
}

impl DispatchService {
    /// Decides the step of replaying one offline action: a duplicate when
    /// its log entry (under `mobile_action_log` of the trimmed type and
    /// its client action) is already there, else the command its trimmed
    /// type names, else unsupported.
    pub fn mobile_sync_step(action_type: &str, logged: Option<bool>) -> (r: MobileSyncStep)
        ensures
            r == sync_step_of(action_type@, logged),
    {
        if logged == Some(true) {
            return MobileSyncStep::Duplicate;
        }
        match Self::mobile_command(trim(action_type)) {
            Some(c) => MobileSyncStep::Run(c),
            None => MobileSyncStep::Unsupported,
        }
    }
}

/// The seven supported action types are distinct texts.
proof fn lemma_command_names_distinct()
    ensures
        "accept"@.len() == 6,
        "start"@.len() == 5,
        "complete"@.len() == 8,
        "checkin"@.len() == 7,
        "checkout"@.len() == 8,
        "eta_report"@.len() == 10,
        "report_issue"@.len() == 12,
        "complete"@ != "checkout"@,
{
    reveal_strlit("accept");
    reveal_strlit("start");
    reveal_strlit("complete");
    reveal_strlit("checkin");
    reveal_strlit("checkout");
    reveal_strlit("eta_report");
    reveal_strlit("report_issue");
    assert("complete"@[1] != "checkout"@[1]);
}

/// Each of the seven supported action types names its command, and a
/// replayed action of that type that was not logged yet runs as it.
pub proof fn law_supported_mobile_commands(logged: Option<bool>)
    ensures
        command_of("accept"@) == Some(MobileCommand::Accept),
        command_of("start"@) == Some(MobileCommand::Start),
        command_of("complete"@) == Some(MobileCommand::Complete),
        command_of("checkin"@) == Some(MobileCommand::Checkin),
        command_of("checkout"@) == Some(MobileCommand::Checkout),
        command_of("eta_report"@) == Some(MobileCommand::EtaReport),
        command_of("report_issue"@) == Some(MobileCommand::ReportIssue),
        logged != Some(true) ==> sync_step_of("eta_report"@, logged) == MobileSyncStep::Run(MobileCommand::EtaReport),
        logged == Some(true) ==> sync_step_of("eta_report"@, logged) == MobileSyncStep::Duplicate,
{
    reveal_strlit("accept");
    reveal_strlit("start");
    reveal_strlit("complete");
    reveal_strlit("checkin");
    reveal_strlit("checkout");
    reveal_strlit("eta_report");
    reveal_strlit("report_issue");
    crate::text::lemma_trimmed_idempotent("eta_report"@);
    lemma_command_names_distinct();
}

/// A replayed action of a supported type that was not logged yet runs as
/// its command, whatever blanks surround the type; an unsupported type is
/// refused; an action already logged is a duplicate. Each type is logged
/// under its past form.
pub proof fn law_mobile_replay_steps(t: Seq<char>, logged: Option<bool>)
    ensures
        logged == Some(true) ==> sync_step_of(t, logged) == MobileSyncStep::Duplicate,
        logged != Some(true) && trimmed(t) == "accept"@ ==> sync_step_of(t, logged) == MobileSyncStep::Run(MobileCommand::Accept),
        logged != Some(true) && trimmed(t) == "start"@ ==> sync_step_of(t, logged) == MobileSyncStep::Run(MobileCommand::Start),
        logged != Some(true) && trimmed(t) == "complete"@ ==> sync_step_of(t, logged) == MobileSyncStep::Run(
            MobileCommand::Complete,
        ),
        logged != Some(true) && trimmed(t) == "checkin"@ ==> sync_step_of(t, logged) == MobileSyncStep::Run(
            MobileCommand::Checkin,
        ),
        logged != Some(true) && trimmed(t) == "checkout"@ ==> sync_step_of(t, logged) == MobileSyncStep::Run(
            MobileCommand::Checkout,
        ),
        logged != Some(true) && trimmed(t) == "eta_report"@ ==> sync_step_of(t, logged) == MobileSyncStep::Run(
            MobileCommand::EtaReport,
        ),
        logged != Some(true) && trimmed(t) == "report_issue"@ ==> sync_step_of(t, logged) == MobileSyncStep::Run(
            MobileCommand::ReportIssue,
        ),
        logged != Some(true) && trimmed(t) != "accept"@ && trimmed(t) != "start"@ && trimmed(t) != "complete"@
            && trimmed(t) != "checkin"@ && trimmed(t) != "checkout"@ && trimmed(t) != "eta_report"@ && trimmed(t)
            != "report_issue"@ ==> sync_step_of(t, logged) == MobileSyncStep::Unsupported,
        action_log_of("accept"@) == "accepted"@,
        action_log_of("checkin"@) == "checkin"@,
        action_log_of("checkout"@) == "checkout"@,
        action_log_of("start"@) == "started"@,
        action_log_of("complete"@) == "completed"@,
        action_log_of("eta_report"@) == "estimated_completion_reported"@,
        action_log_of("report_issue"@) == "issue_reported"@,
{
    lemma_command_names_distinct();
    law_supported_mobile_commands(logged);
}

} // verus!
