//! Automatic dispatch of a single task: its default end, and the alert
//! raised when the order could not be prepared.

use vstd::prelude::*;
use crate::text::{text_eq, concat_views, join_texts};
use crate::model::{is_instant, AlertSeverity};
use crate::rules::DispatchService;

verus! {

/// Whether `t` occurs in `s` as a run of consecutive characters.
pub open spec fn contains_seq(s: Seq<char>, t: Seq<char>) -> bool {
    exists|i: int| 0 <= i && i + t.len() <= s.len() && #[trigger] s.subrange(i, i + t.len()) == t
}

/// Whether `t` occurs in `s`.
pub fn contains_text(s: &str, t: &str) -> (r: bool)
    ensures
        r == contains_seq(s@, t@),
{
    let n = s.unicode_len();
    let m = t.unicode_len();
    if m > n {
        proof {
            assert forall|i: int| 0 <= i && i + t@.len() <= s@.len() implies #[trigger] s@.subrange(i, i + t@.len())
                != t@ by {
            }
        }
        return false;
    }
    let mut i: usize = 0;
    while i <= n - m
        invariant
            n == s@.len(),
            m == t@.len(),
            m <= n,
            i <= n - m + 1,
            forall|k: int| 0 <= k < i ==> #[trigger] s@.subrange(k, k + m) != t@,
        decreases n - m + 1 - i,
    {
        let mut j: usize = 0;
        let mut same = true;
        while j < m
            invariant
                n == s@.len(),
                m == t@.len(),
                i + m <= n,
                j <= m,
                same == forall|x: int| 0 <= x < j ==> s@[i + x] == t@[x],
            decreases m - j,
        {
            if s.get_char(i + j) != t.get_char(j) {
                same = false;
            }
            j = j + 1;
        }
        if same {
            assert(s@.subrange(i as int, i + m) =~= t@);
            return true;
        }
        proof {
            if s@.subrange(i as int, i + m) == t@ {
                assert forall|x: int| 0 <= x < m implies s@[i + x] == t@[x] by {
                    assert(s@.subrange(i as int, i + m)[x] == s@[i + x]);
                }
            }
        }
        i = i + 1;
    }
    false
}

/// Whether a gap's reason is `t`.
pub open spec fn is_reason(o: Option<String>, t: Seq<char>) -> bool {
    match o {
        Some(x) => x@ == t,
        None => false,
    }
}

/// The alert raised when an automatic dispatch could not prepare its order:
/// type and message.
pub open spec fn failure_alert(
    flight_id: Seq<char>,
    task_type: Seq<char>,
    qualification_gap_reasons: Seq<Option<String>>,
    equipment_gap_count: int,
    reason: Seq<char>,
) -> (Seq<char>, Seq<char>) {
    if exists|k: int|
        0 <= k < qualification_gap_reasons.len() && is_reason(
            #[trigger] qualification_gap_reasons[k],
            "missing_department_rule_context"@,
        ) {
        (
            "missing_department_rule_context"@,
            "航班 "@ + flight_id + " 作业类型 "@ + task_type + " 缺少科室归属，无法执行个人级派工"@,
        )
    } else if contains_seq(reason, "缺少已发布资质规则"@) {
        ("missing_published_rule"@, "航班 "@ + flight_id + " 作业类型 "@ + task_type + " 缺少已发布资质规则，无法执行个人级派工"@)
    } else if qualification_gap_reasons.len() > 0 {
        (
            "qualification_crew_unavailable"@,
            "航班 "@ + flight_id + " 作业类型 "@ + task_type + " 无法组出满足资质要求的执行编组"@,
        )
    } else if equipment_gap_count > 0 {
        ("equipment_unavailable"@, "航班 "@ + flight_id + " 作业类型 "@ + task_type + " 无法补齐设备分配"@)
    } else {
        ("dispatch_error"@, "航班 "@ + flight_id + " 作业类型 "@ + task_type + " 自动派工失败: "@ + reason)
    }
}

/// The reason given when preparation says nothing.
pub open spec fn default_failure_reason() -> Seq<char> {
    "当前无法自动分派"@
}

impl DispatchService {
    /// The planned end of an automatically dispatched task: the one given,
    /// else the task type's default duration (fifteen minutes when it has
    /// none) after the start.
    pub fn auto_dispatch_planned_end(start: i64, planned_end: Option<i64>, default_duration_minutes: Option<i32>) -> (r: i64)
        requires
            planned_end is None ==> is_instant(
                start + 60 * match default_duration_minutes {
                    Some(m) => m as int,
                    None => 15,
                },
            ),
        ensures
            r == match planned_end {
                Some(e) => e as int,
                None => start + 60 * match default_duration_minutes {
                    Some(m) => m as int,
                    None => 15,
                },
            },
    {
        match planned_end {
            Some(e) => e,
            None => {
                let minutes: i64 = match default_duration_minutes {
                    Some(m) => m as i64,
                    None => 15,
                };
                start + 60 * minutes
            },
        }
    }

    /// The alert of an automatic dispatch whose order could not be
    /// prepared: a missing department, a missing published rule (as the
    /// reason says), a crew that cannot be formed, missing equipment, or
    /// else a dispatch error quoting the reason. The reason defaults to
    /// the generic one when preparation gave none.
    pub fn auto_dispatch_failure_alert(
        flight_id: &str,
        task_type: &str,
        qualification_gap_reasons: &Vec<Option<String>>,
        equipment_gap_count: usize,
        reason: Option<&str>,
    ) -> (r: (String, String))
        ensures
            (r.0@, r.1@) == failure_alert(
                flight_id@,
                task_type@,
                qualification_gap_reasons@,
                equipment_gap_count as int,
                match reason {
                    Some(x) => x@,
                    None => default_failure_reason(),
                },
            ),
    {
        proof {
            reveal_strlit("当前无法自动分派");
            reveal_strlit("missing_department_rule_context");
            reveal_strlit("缺少已发布资质规则");
            reveal_strlit("missing_published_rule");
            reveal_strlit("qualification_crew_unavailable");
            reveal_strlit("equipment_unavailable");
            reveal_strlit("dispatch_error");
        }
        let reason: &str = match reason {
            Some(x) => x,
            None => "当前无法自动分派",
        };
        let mut missing_department = false;
        let mut k: usize = 0;
        while k < qualification_gap_reasons.len()
            invariant
                k <= qualification_gap_reasons@.len(),
                missing_department == exists|x: int|
                    0 <= x < k && is_reason(
                        #[trigger] qualification_gap_reasons@[x],
                        "missing_department_rule_context"@,
                    ),
            decreases qualification_gap_reasons@.len() - k,
        {
            match &qualification_gap_reasons[k] {
                Some(x) => {
                    if text_eq(x.as_str(), "missing_department_rule_context") {
                        missing_department = true;
                    }
                },
                None => {
                },
            }
            k = k + 1;
        }
        let (kind, tail): (&str, &str) = if missing_department {
            ("missing_department_rule_context", " 缺少科室归属，无法执行个人级派工")
        } else if contains_text(reason, "缺少已发布资质规则") {
            ("missing_published_rule", " 缺少已发布资质规则，无法执行个人级派工")
        } else if qualification_gap_reasons.len() > 0 {
            ("qualification_crew_unavailable", " 无法组出满足资质要求的执行编组")
        } else if equipment_gap_count > 0 {
            ("equipment_unavailable", " 无法补齐设备分配")
        } else {
            ("dispatch_error", " 自动派工失败: ")
        };
        let parts = if !missing_department && !contains_text(reason, "缺少已发布资质规则")
            && qualification_gap_reasons.len() == 0 && equipment_gap_count == 0 {
            join_texts(&["航班 ", flight_id, " 作业类型 ", task_type, tail, reason])
        } else {
            join_texts(&["航班 ", flight_id, " 作业类型 ", task_type, tail])
        };
        proof {
            reveal_strlit("航班 ");
            reveal_strlit(" 作业类型 ");
            reveal_strlit(" 缺少科室归属，无法执行个人级派工");
            reveal_strlit(" 缺少已发布资质规则，无法执行个人级派工");
            reveal_strlit(" 无法组出满足资质要求的执行编组");
            reveal_strlit(" 无法补齐设备分配");
            reveal_strlit(" 自动派工失败: ");
            reveal_with_fuel(concat_views, 7);
            assert(concat_views(seq!["航班 ", flight_id, " 作业类型 ", task_type, tail, reason]) =~= "航班 "@ + flight_id@
                + " 作业类型 "@ + task_type@ + tail@ + reason@);
            assert(concat_views(seq!["航班 ", flight_id, " 作业类型 ", task_type, tail]) =~= "航班 "@ + flight_id@
                + " 作业类型 "@ + task_type@ + tail@);
        }
        (kind.to_string(), parts)
    }
}

/// What preparing an automatically dispatched order reported.
pub struct PreparationReport {
    /// Whether the order was prepared (crew and equipment complete).
    pub updated: bool,
    /// The reason of each qualification gap, where it has one.
    pub qualification_gap_reasons: Vec<Option<String>>,
    pub equipment_gap_count: usize,
    pub reason: Option<String>,
}

/// What an automatic dispatch does.
pub enum AutoDispatchDecision {
    /// Nothing is created; the answer carries `message`.
    Skip { message: String },
    /// An alert is raised and the answer carries `message`.
    Alert { alert_type: String, alert_message: String, severity: AlertSeverity, message: String },
    /// The prepared order is saved, dispatched by the system.
    Assign,
}

/// Whether `d` is the decision of an automatic dispatch of `task_type` on
/// `stand_id` for `flight_id`: the stand, then the task type, must exist;
/// a preparation that failed raises a critical system-error alert; one
/// that left gaps raises the warning alert its gaps call for; else the
/// order is assigned.
pub open spec fn auto_dispatch_decided(
    flight_id: Seq<char>,
    stand_id: Seq<char>,
    stand_found: bool,
    task_type: Seq<char>,
    task_type_found: bool,
    preparation: Result<PreparationReport, String>,
    d: AutoDispatchDecision,
) -> bool {
    if !stand_found {
        d matches AutoDispatchDecision::Skip { message } && message@ == "机位不存在: "@ + stand_id
    } else if !task_type_found {
        d matches AutoDispatchDecision::Skip { message } && message@ == "作业类型不存在: "@ + task_type
    } else {
        match preparation {
            Err(error) => d matches AutoDispatchDecision::Alert { alert_type, alert_message, severity, message }
                && alert_type@ == "dispatch_error"@ && alert_message@ == "派工系统错误: "@ + error@ && severity
                == AlertSeverity::Critical && message@ == "派工失败: "@ + error@,
            Ok(p) => if p.updated {
                d is Assign
            } else {
                let reason = match p.reason {
                    Some(x) => x@,
                    None => default_failure_reason(),
                };
                let (kind, text) = failure_alert(
                    flight_id,
                    task_type,
                    p.qualification_gap_reasons@,
                    p.equipment_gap_count as int,
                    reason,
                );
                d matches AutoDispatchDecision::Alert { alert_type, alert_message, severity, message }
                    && alert_type@ == kind && alert_message@ == text && severity == AlertSeverity::Warning
                    && message@ == reason
            },
        }
    }
}

fn prefixed(prefix: &str, s: &str) -> (r: String)
    ensures
        r@ == prefix@ + s@,
{
    let r = join_texts(&[prefix, s]);
    assert(concat_views(seq![prefix, s]) =~= prefix@ + s@) by {
        reveal_with_fuel(concat_views, 3);
    }
    r
}

impl DispatchService {
    /// Decides an automatic dispatch once the stand, the task type and the
    /// preparation of its order are known (the preparation is read only
    /// when both exist).
    pub fn auto_dispatch_decision(
        flight_id: &str,
        stand_id: &str,
        stand_found: bool,
        task_type: &str,
        task_type_found: bool,
        preparation: &Result<PreparationReport, String>,
    ) -> (d: AutoDispatchDecision)
        ensures
            auto_dispatch_decided(flight_id@, stand_id@, stand_found, task_type@, task_type_found, *preparation, d),
    {
        proof {
            reveal_strlit("当前无法自动分派");
            reveal_strlit("dispatch_error");
        }
        if !stand_found {
            return AutoDispatchDecision::Skip { message: prefixed("机位不存在: ", stand_id) };
        }
        if !task_type_found {
            return AutoDispatchDecision::Skip { message: prefixed("作业类型不存在: ", task_type) };
        }
        match preparation {
            Err(error) => AutoDispatchDecision::Alert {
                alert_type: "dispatch_error".to_string(),
                alert_message: prefixed("派工系统错误: ", error.as_str()),
                severity: AlertSeverity::Critical,
                message: prefixed("派工失败: ", error.as_str()),
            },
            Ok(p) => {
                if p.updated {
                    return AutoDispatchDecision::Assign;
                }
                let reason: &str = match &p.reason {
                    Some(x) => x.as_str(),
                    None => "当前无法自动分派",
                };
                let given: Option<&str> = match &p.reason {
                    Some(x) => Some(x.as_str()),
                    None => None,
                };
                let (alert_type, alert_message) = Self::auto_dispatch_failure_alert(
                    flight_id,
                    task_type,
                    &p.qualification_gap_reasons,
                    p.equipment_gap_count,
                    given,
                );
                AutoDispatchDecision::Alert {
                    alert_type,
                    alert_message,
                    severity: AlertSeverity::Warning,
                    message: reason.to_string(),
                }
            },
        }
    }
}

} // verus!
