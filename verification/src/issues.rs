//! Field reports: what a first issue report must contain, the title it
//! gets, how urgent its notification is, and the checks of an ETA report.

use vstd::prelude::*;
use crate::text::{trim, trimmed, is_blank, text_eq, lower_ascii, to_ascii_lowercase, concat_views, join_texts};
use crate::model::{DispatchError, OrderStatus, status_debug, status_debug_text};
use crate::rules::{DispatchService, IssueSeverity, normalized_opt};
use crate::ids::{anomaly_seed, deterministic_issue_anomaly_id, hex_text, is_ulid_char, new_dispatch_id, sha256_bytes};

verus! {

/// The message of an unknown input mode.
pub open spec fn input_mode_message() -> Seq<char> {
    "input_mode 必须是 text/photo/voice 之一"@
}

/// The message of an empty first report.
pub open spec fn empty_report_message() -> Seq<char> {
    "至少提供文本、附件或语音首报之一"@
}

/// The input mode of a report: trimmed and ASCII lower-cased.
pub open spec fn input_mode_of(mode: Seq<char>) -> Seq<char> {
    lower_ascii(trimmed(mode))
}

/// Whether an optional text has a non-blank value.
pub open spec fn has_text(o: Option<&str>) -> bool {
    match o {
        Some(t) => !is_blank(t@),
        None => false,
    }
}

/// The title a report gets: its own (already validated), else its
/// description, else its note (trimmed), else a default by input mode.
pub open spec fn issue_title(title: Seq<char>, description: Option<&str>, note: Option<&str>, mode: Seq<char>) -> Seq<char> {
    if title.len() > 0 {
        title
    } else if has_text(description) {
        trimmed(description.unwrap()@)
    } else if has_text(note) {
        trimmed(note.unwrap()@)
    } else if mode == "photo"@ {
        "现场图片异常首报"@
    } else if mode == "voice"@ {
        "现场语音异常首报"@
    } else {
        "现场异常首报"@
    }
}

/// The text of a severity.
pub open spec fn severity_text(s: IssueSeverity) -> Seq<char> {
    match s {
        IssueSeverity::Critical => "critical"@,
        IssueSeverity::High => "high"@,
        IssueSeverity::Medium => "medium"@,
        IssueSeverity::Low => "low"@,
    }
}

/// The message of an ETA report on an order that is not running.
pub open spec fn eta_status_message(s: OrderStatus) -> Seq<char> {
    "仅作业中派工单可回报预计完成时间，当前状态: "@ + status_debug_text(s)
}

/// The message of an ETA before the actual start.
pub open spec fn eta_before_start_message() -> Seq<char> {
    "estimated_completion_time 不能早于 actual_start_time"@
}

impl DispatchService {
    /// What a first issue report must contain: a known input mode (text,
    /// photo or voice, any case, trimmed), and some text (title,
    /// description or note), an attachment or a voice recording.
    pub fn validate_issue_request(
        input_mode: &str,
        title: Option<&str>,
        description: Option<&str>,
        note: Option<&str>,
        attachment_count: Option<usize>,
        voice_attachment_id: Option<&str>,
    ) -> (r: Result<(), DispatchError>)
        ensures
            ({
                let mode = input_mode_of(input_mode@);
                if !(mode == "text"@ || mode == "photo"@ || mode == "voice"@) {
                    r matches Err(DispatchError::ValidationError(m)) && m@ == input_mode_message()
                } else if !(has_text(title) || has_text(description) || has_text(note) || (match attachment_count {
                    Some(n) => n > 0,
                    None => false,
                }) || has_text(voice_attachment_id)) {
                    r matches Err(DispatchError::ValidationError(m)) && m@ == empty_report_message()
                } else {
                    r is Ok
                }
            }),
    {
        let mode = to_ascii_lowercase(trim(input_mode));
        if !(text_eq(mode.as_str(), "text") || text_eq(mode.as_str(), "photo") || text_eq(mode.as_str(), "voice")) {
            return Err(DispatchError::ValidationError(String::from_str("input_mode 必须是 text/photo/voice 之一")));
        }
        let some_text = Self::normalize_optional_ref(title).is_some() || Self::normalize_optional_ref(description).is_some()
            || Self::normalize_optional_ref(note).is_some();
        let some_attachment = match attachment_count {
            Some(n) => n > 0,
            None => false,
        } || Self::normalize_optional_ref(voice_attachment_id).is_some();
        if !some_text && !some_attachment {
            return Err(DispatchError::ValidationError(String::from_str("至少提供文本、附件或语音首报之一")));
        }
        Ok(())
    }

    /// The input mode of a report, trimmed and lower-cased.
    pub fn issue_input_mode(input_mode: &str) -> (r: String)
        ensures
            r@ == input_mode_of(input_mode@),
    {
        to_ascii_lowercase(trim(input_mode))
    }

    /// The title of a report (see `issue_title`).
    pub fn resolve_issue_title(title: String, description: Option<&str>, note: Option<&str>, input_mode: &str) -> (r: String)
        ensures
            r@ == issue_title(title@, description, note, input_mode@),
    {
        if title.as_str().unicode_len() > 0 {
            return title;
        }
        match Self::normalize_optional_ref(description) {
            Some(d) => {
                return d.to_string();
            },
            None => {},
        }
        match Self::normalize_optional_ref(note) {
            Some(n) => {
                return n.to_string();
            },
            None => {},
        }
        proof {
            reveal_strlit("photo");
            reveal_strlit("voice");
        }
        if text_eq(input_mode, "photo") {
            String::from_str("现场图片异常首报")
        } else if text_eq(input_mode, "voice") {
            String::from_str("现场语音异常首报")
        } else {
            String::from_str("现场异常首报")
        }
    }

    /// The text of a severity.
    pub fn issue_severity_value(severity: IssueSeverity) -> (r: &'static str)
        ensures
            r@ == severity_text(severity),
    {
        match severity {
            IssueSeverity::Critical => "critical",
            IssueSeverity::High => "high",
            IssueSeverity::Medium => "medium",
            IssueSeverity::Low => "low",
        }
    }

    /// Who is told of a report: high and critical issues notify the order's
    /// people, a critical one urgently (`critical` level), a high one as a
    /// warning; lower ones notify no one.
    pub fn issue_notification_level(severity: IssueSeverity) -> (r: Option<(&'static str, bool)>)
        ensures
            match severity {
                IssueSeverity::Critical => r matches Some((l, u)) && l@ == "critical"@ && u,
                IssueSeverity::High => r matches Some((l, u)) && l@ == "warning"@ && !u,
                _ => r is None,
            },
    {
        match severity {
            IssueSeverity::Critical => Some(("critical", true)),
            IssueSeverity::High => Some(("warning", false)),
            _ => None,
        }
    }

    /// The text of the notification of a reported issue.
    pub fn issue_notification_message(order_id: &str, title: &str, severity: &str) -> (r: String)
        ensures
            r@ == "Dispatch order "@ + order_id@ + " reported issue: "@ + title@ + ". Severity: "@ + severity@ + "."@,
    {
        proof {
            reveal_with_fuel(concat_views, 8);
        }
        let r = join_texts(&["Dispatch order ", order_id, " reported issue: ", title, ". Severity: ", severity, "."]);
        assert(concat_views(seq!["Dispatch order ", order_id, " reported issue: ", title, ". Severity: ", severity, "."])
            =~= "Dispatch order "@ + order_id@ + " reported issue: "@ + title@ + ". Severity: "@ + severity@ + "."@);
        r
    }

    /// Only a running order takes an ETA report.
    pub fn eta_report_status_check(status: OrderStatus) -> (r: Result<(), DispatchError>)
        ensures
            r is Err <==> status != OrderStatus::InProgress,
            r matches Err(e) ==> e matches DispatchError::BusinessRuleViolation(m) && m@ == eta_status_message(status),
    {
        if status != OrderStatus::InProgress {
            let s = status_debug(status);
            proof {
                reveal_strlit("仅作业中派工单可回报预计完成时间，当前状态: ");
                reveal_with_fuel(concat_views, 3);
            }
            let m = join_texts(&["仅作业中派工单可回报预计完成时间，当前状态: ", s]);
            assert(concat_views(seq!["仅作业中派工单可回报预计完成时间，当前状态: ", s]) =~= eta_status_message(status));
            return Err(DispatchError::BusinessRuleViolation(m));
        }
        Ok(())
    }

    /// An ETA cannot be before the order's actual start.
    pub fn eta_not_before_start(actual_start: Option<i64>, eta: i64) -> (r: Result<(), DispatchError>)
        ensures
            r is Err <==> (actual_start is Some && eta < actual_start.unwrap()),
            r matches Err(e) ==> e matches DispatchError::BusinessRuleViolation(m) && m@ == eta_before_start_message(),
    {
        match actual_start {
            Some(s) => {
                if eta < s {
                    return Err(
                        DispatchError::BusinessRuleViolation(
                            String::from_str("estimated_completion_time 不能早于 actual_start_time"),
                        ),
                    );
                }
                Ok(())
            },
            None => Ok(()),
        }
    }
}

/// The client action of a report, trimmed; none when missing or blank.
pub open spec fn client_action_of(client_action_id: Option<&str>) -> Option<Seq<char>> {
    normalized_opt(
        match client_action_id {
            Some(c) => Some(c@),
            None => None,
        },
    )
}

/// Whether an issue report is a repeat: its client action's anomaly is
/// already on record, or its log entry was already written.
pub open spec fn issue_report_repeated(client_action_id: Option<&str>, anomaly_found: bool, log_inserted: bool) -> bool {
    (client_action_of(client_action_id) is Some && anomaly_found) || !log_inserted
}

impl DispatchService {
    /// The anomaly an issue report is filed under: for a report with a
    /// client action, the one derived from the order and the action (so that
    /// a repeat lands on it; the flag is then true); else a fresh ULID.
    pub fn issue_anomaly_id(order_id: &str, client_action_id: Option<&str>) -> (r: (String, bool))
        ensures
            match client_action_of(client_action_id) {
                Some(c) => r.1 && exists|cs: &str|
                    cs@ == c && r.0@ == "AI"@ + hex_text(sha256_bytes(anomaly_seed(order_id, cs))).take(24),
                None => !r.1 && r.0@.len() == 26 && forall|i: int| 0 <= i < 26 ==> is_ulid_char(#[trigger] r.0@[i]),
            },
    {
        match Self::normalize_optional_ref(client_action_id) {
            Some(c) => (deterministic_issue_anomaly_id(order_id, c), true),
            None => (new_dispatch_id(), false),
        }
    }

    /// Whether an issue report is answered as a repeat: a report with a
    /// client action whose anomaly is already on record (`anomaly_found`, read
    /// only then), or one whose log entry was already written
    /// (`log_inserted` false); a repeat is ignored.
    pub fn issue_report_is_duplicate(client_action_id: Option<&str>, anomaly_found: bool, log_inserted: bool) -> (r: bool)
        ensures
            r == issue_report_repeated(client_action_id, anomaly_found, log_inserted),
    {
        (Self::normalize_optional_ref(client_action_id).is_some() && anomaly_found) || !log_inserted
    }
}

} // verus!
