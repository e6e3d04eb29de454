//! What preparing an order for publication does to it once its crew and
//! equipment have been selected.

use vstd::prelude::*;
use crate::model::{DispatchOrder, LockLevel, OrderStatus};
use crate::text::{concat_views, join_texts, trim, trimmed};

verus! {

/// The order `o` once its preparation went through at `now`: no equipment
/// gap left, open to optimisation, a pending order assigned, and dispatched
/// when it was, else now.
pub open spec fn prepared(o: DispatchOrder, now: i64) -> DispatchOrder {
    DispatchOrder {
        status: if o.status == OrderStatus::Pending {
            OrderStatus::Assigned
        } else {
            o.status
        },
        lock_level: LockLevel::Optimizable,
        dispatched_at: match o.dispatched_at {
            Some(t) => Some(t),
            None => Some(now),
        },
        equipment_gap_count: 0,
        ..o
    }
}

/// Applies the outcome of preparing `order` at `now`: it is updated only
/// when both its crew and its equipment could be completed, and is left as
/// it was otherwise.
pub fn apply_preparation(order: &mut DispatchOrder, crew_complete: bool, equipment_complete: bool, now: i64) -> (updated: bool)
    ensures
        updated == (crew_complete && equipment_complete),
        updated ==> *final(order) == prepared(*old(order), now),
        !updated ==> *final(order) == *old(order),
{
    if !(crew_complete && equipment_complete) {
        return false;
    }
    if order.status == OrderStatus::Pending {
        order.status = OrderStatus::Assigned;
    }
    order.lock_level = LockLevel::Optimizable;
    if order.dispatched_at.is_none() {
        order.dispatched_at = Some(now);
    }
    order.equipment_gap_count = 0;
    true
}

/// Why preparing an order stopped short.
#[derive(Clone, Copy, Debug, PartialEq, Eq, Structural)]
pub enum PreparationStop {
    /// The order has no identifier.
    MissingId,
    /// The order's stand is not known.
    MissingStand,
    /// No department (and so no rule context) could be resolved; reported
    /// as a `missing_department_rule_context` qualification gap.
    MissingDepartment,
    /// The task type has no published crew rule; reported as a
    /// `missing_published_rule` qualification gap.
    MissingRule,
    /// No crew could be formed.
    CrewGap,
    /// The equipment could not be completed.
    EquipmentGap,
}

/// Where preparing order `order_id` stops, in the order the steps run, with
/// the reason reported; none when it goes through. Each fact is read only
/// once the steps before it passed.
pub open spec fn preparation_stop_of(
    order_id: Seq<char>,
    stand_known: bool,
    department_known: bool,
    crew_rule_present: bool,
    qualification_gap_count: usize,
    availability_reason: Option<Seq<char>>,
    equipment_gap_count: usize,
) -> Option<(PreparationStop, Seq<char>)> {
    if trimmed(order_id).len() == 0 {
        Some((PreparationStop::MissingId, "工单缺少ID"@))
    } else if !stand_known {
        Some((PreparationStop::MissingStand, "工单 "@ + trimmed(order_id) + " 缺少机位信息"@))
    } else if !department_known {
        Some((PreparationStop::MissingDepartment, "当前无法补齐执行编组"@))
    } else if !crew_rule_present {
        Some((PreparationStop::MissingRule, "作业类型缺少已发布资质规则"@))
    } else if qualification_gap_count > 0 {
        Some(
            (
                PreparationStop::CrewGap,
                match availability_reason {
                    Some(r) => r,
                    None => "当前无法补齐执行编组"@,
                },
            ),
        )
    } else if equipment_gap_count > 0 {
        Some((PreparationStop::EquipmentGap, "当前无法补齐设备分配"@))
    } else {
        None
    }
}

/// Decides where preparing an order stops, if it does: a missing
/// identifier, stand, department or published crew rule, a crew that
/// cannot be formed (with the selection's reason, else the generic one), or
/// equipment that cannot be completed.
pub fn preparation_stop(
    order_id: &str,
    stand_known: bool,
    department_known: bool,
    crew_rule_present: bool,
    qualification_gap_count: usize,
    availability_reason: Option<&str>,
    equipment_gap_count: usize,
) -> (r: Option<(PreparationStop, String)>)
    ensures
        match r {
            Some((stop, reason)) => preparation_stop_of(
                order_id@,
                stand_known,
                department_known,
                crew_rule_present,
                qualification_gap_count,
                match availability_reason {
                    Some(x) => Some(x@),
                    None => None,
                },
                equipment_gap_count,
            ) == Some((stop, reason@)),
            None => preparation_stop_of(
                order_id@,
                stand_known,
                department_known,
                crew_rule_present,
                qualification_gap_count,
                match availability_reason {
                    Some(x) => Some(x@),
                    None => None,
                },
                equipment_gap_count,
            ) is None,
        },
{
    proof {
        reveal_strlit("工单缺少ID");
        reveal_strlit("当前无法补齐执行编组");
        reveal_strlit("作业类型缺少已发布资质规则");
        reveal_strlit("当前无法补齐设备分配");
    }
    let id = trim(order_id);
    if id.unicode_len() == 0 {
        return Some((PreparationStop::MissingId, "工单缺少ID".to_string()));
    }
    if !stand_known {
        let m = join_texts(&["工单 ", id, " 缺少机位信息"]);
        assert(concat_views(seq!["工单 ", id, " 缺少机位信息"]) =~= "工单 "@ + id@ + " 缺少机位信息"@) by {
            reveal_with_fuel(concat_views, 4);
        }
        return Some((PreparationStop::MissingStand, m));
    }
    if !department_known {
        return Some((PreparationStop::MissingDepartment, "当前无法补齐执行编组".to_string()));
    }
    if !crew_rule_present {
        return Some((PreparationStop::MissingRule, "作业类型缺少已发布资质规则".to_string()));
    }
    if qualification_gap_count > 0 {
        let reason = match availability_reason {
            Some(x) => x.to_string(),
            None => "当前无法补齐执行编组".to_string(),
        };
        return Some((PreparationStop::CrewGap, reason));
    }
    if equipment_gap_count > 0 {
        return Some((PreparationStop::EquipmentGap, "当前无法补齐设备分配".to_string()));
    }
    None
}

} // verus!
