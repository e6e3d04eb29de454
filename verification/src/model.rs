//! The dispatch order as the verified logic reads it: statuses, assignees,
//! members and instants (whole seconds since the Unix epoch, UTC).

use vstd::prelude::*;

verus! {

/// Earliest instant the service can represent (`-262143-01-01T00:00:00Z`).
pub const MIN_TIMESTAMP: i64 = -8334601315200;

/// Latest instant the service can represent (`+262142-12-31T23:59:59Z`).
pub const MAX_TIMESTAMP: i64 = 8210266876799;

/// Whether `t` seconds since the epoch is a representable instant.
pub open spec fn is_instant(t: int) -> bool {
    MIN_TIMESTAMP <= t <= MAX_TIMESTAMP
}

/// Lifecycle status of a dispatch order.
#[derive(Clone, Copy, Debug, PartialEq, Eq, Structural)]
pub enum OrderStatus {
    Pending,
    Assigned,
    InProgress,
    Completed,
    Cancelled,
}

/// Who an order is dispatched to.
#[derive(Clone, Copy, Debug, PartialEq, Eq, Structural)]
pub enum AssigneeType {
    Team,
    Individual,
}

/// Role of a crew member on an order.
#[derive(Clone, Copy, Debug, PartialEq, Eq, Structural)]
pub enum MemberRole {
    Leader,
    Driver,
    Member,
}

/// How far the optimiser may move an order.
#[derive(Clone, Copy, Debug, PartialEq, Eq, Structural)]
pub enum LockLevel {
    Optimizable,
    Active,
    Frozen,
    ManualLock,
}

/// Flight leg an order or rule belongs to.
#[derive(Clone, Copy, Debug, PartialEq, Eq, Structural)]
pub enum LegScope {
    Inbound,
    Outbound,
    Neither,
}

/// Severity of a dispatch alert.
#[derive(Clone, Copy, Debug, PartialEq, Eq, Structural)]
pub enum AlertSeverity {
    Info,
    Warning,
    Critical,
}

/// Where the effective completion-warning lead time came from.
#[derive(Clone, Copy, Debug, PartialEq, Eq, Structural)]
pub enum LeadSource {
    Order,
    Department,
    System,
}

/// A person on an order's crew.
pub struct OrderMember {
    pub user_id: String,
    pub is_active: bool,
    pub role: MemberRole,
    pub slot_code: Option<String>,
    pub check_in_time: Option<i64>,
    pub check_out_time: Option<i64>,
}

/// A dispatch order, with the fields that the dispatch rules read.
pub struct DispatchOrder {
    pub id: String,
    pub flight_id: String,
    pub task_type: String,
    pub status: OrderStatus,
    pub publication_state: String,
    pub assignee_type: AssigneeType,
    pub individual_user_id: Option<String>,
    pub team_id: Option<String>,
    /// Display names of the assignees and the stand, where known.
    pub team_name: Option<String>,
    pub individual_username: Option<String>,
    pub stand_id: Option<String>,
    pub stand_code: Option<String>,
    pub department_id: Option<String>,
    pub leg_scope: String,
    pub lock_level: LockLevel,
    pub planned_start_time: Option<i64>,
    pub planned_end_time: Option<i64>,
    pub actual_start_time: Option<i64>,
    pub actual_end_time: Option<i64>,
    pub estimated_completion_time: Option<i64>,
    pub dispatched_at: Option<i64>,
    pub created_at: Option<i64>,
    pub assignment_deadline: Option<i64>,
    pub completion_warning_lead_minutes: Option<i32>,
    pub members: Vec<OrderMember>,
    /// The crew payload the order was prepared with.
    pub task_crew: TaskCrew,
    /// Who dispatched the order.
    pub dispatched_by: Option<String>,
    /// Identifiers of the equipment listed on the order.
    pub equipment_ids: Vec<String>,
    /// The equipment assigned to the order's equipment slots.
    pub equipment_assignment: Vec<EquipmentAssignment>,
    /// The crew slots the order requires.
    pub crew_requirement_snapshot: Vec<SlotRequirement>,
    /// The equipment slots the order requires.
    pub equipment_requirement_snapshot: Vec<SlotRequirement>,
    /// How many equipment requirements the planner could not cover.
    pub equipment_gap_count: usize,
}

/// One person in an order's crew payload; a field that is missing or not a
/// string is `None`.
pub struct CrewMemberPayload {
    pub user_id: Option<String>,
    pub slot_code: Option<String>,
    pub source_team_id: Option<String>,
    pub qualification_code: Option<String>,
    pub qualification_level_code: Option<String>,
    pub username: Option<String>,
}

/// An order's crew payload (`task_crew`).
pub struct TaskCrew {
    /// The crew members, or `None` when the payload has no member list.
    pub members: Option<Vec<CrewMemberPayload>>,
    /// The first source team listed, when it is a string.
    pub first_source_team_id: Option<String>,
}

/// One equipment assignment payload; a field that is missing or not a
/// string is `None`.
pub struct EquipmentAssignment {
    /// The payload itself, when it is a plain string.
    pub text: Option<String>,
    /// Whether the payload has an `equipment_id` field at all.
    pub has_equipment_id: bool,
    pub equipment_id: Option<String>,
    pub id: Option<String>,
    pub slot_code: Option<String>,
    pub driver_user_id: Option<String>,
}

/// One required slot of a crew or equipment requirement snapshot.
pub struct SlotRequirement {
    /// Whether the requirement is an object at all (anything else is ignored).
    pub is_object: bool,
    pub slot_code: Option<String>,
    /// The required count, when it is an integer.
    pub required_count: Option<i64>,
    pub requires_driver: Option<bool>,
    /// The qualification a crew slot asks for, and its minimum level.
    pub qualification_code: Option<String>,
    pub min_level_code: Option<String>,
    /// The equipment type an equipment slot asks for, by id or by code.
    pub equipment_type_id: Option<String>,
    pub equipment_type_code: Option<String>,
}

/// The text the service stores for a status.
pub open spec fn status_text(s: OrderStatus) -> Seq<char> {
    match s {
        OrderStatus::Pending => "pending"@,
        OrderStatus::Assigned => "assigned"@,
        OrderStatus::InProgress => "in_progress"@,
        OrderStatus::Completed => "completed"@,
        OrderStatus::Cancelled => "cancelled"@,
    }
}

/// The text the service stores for a status.
pub fn status_value(s: OrderStatus) -> (r: &'static str)
    ensures
        r@ == status_text(s),
{
    match s {
        OrderStatus::Pending => "pending",
        OrderStatus::Assigned => "assigned",
        OrderStatus::InProgress => "in_progress",
        OrderStatus::Completed => "completed",
        OrderStatus::Cancelled => "cancelled",
    }
}

/// The text the service stores for a leg scope.
pub open spec fn leg_scope_text(s: LegScope) -> Seq<char> {
    match s {
        LegScope::Inbound => "inbound"@,
        LegScope::Outbound => "outbound"@,
        LegScope::Neither => "none"@,
    }
}

/// The text the service stores for a leg scope.
pub fn leg_scope_value(s: LegScope) -> (r: &'static str)
    ensures
        r@ == leg_scope_text(s),
{
    match s {
        LegScope::Inbound => "inbound",
        LegScope::Outbound => "outbound",
        LegScope::Neither => "none",
    }
}

} // verus!

verus! {

/// Publication status of a department rule.
#[derive(Clone, Copy, Debug, PartialEq, Eq, Structural)]
pub enum RuleStatus {
    Draft,
    Published,
    Archived,
}

/// Errors of the dispatch rules.
#[derive(Debug)]
pub enum DispatchError {
    NotFound { entity_type: String, id: String },
    Unauthorized(String),
    PermissionDenied(String),
    ValidationError(String),
    BusinessRuleViolation(String),
    InvalidStateTransition { from: String, to: String },
    Internal(String),
}

/// The `{:?}` text of a status.
pub open spec fn status_debug_text(s: OrderStatus) -> Seq<char> {
    match s {
        OrderStatus::Pending => "Pending"@,
        OrderStatus::Assigned => "Assigned"@,
        OrderStatus::InProgress => "InProgress"@,
        OrderStatus::Completed => "Completed"@,
        OrderStatus::Cancelled => "Cancelled"@,
    }
}

/// The `{:?}` text of a status.
pub fn status_debug(s: OrderStatus) -> (r: &'static str)
    ensures
        r@ == status_debug_text(s),
{
    match s {
        OrderStatus::Pending => "Pending",
        OrderStatus::Assigned => "Assigned",
        OrderStatus::InProgress => "InProgress",
        OrderStatus::Completed => "Completed",
        OrderStatus::Cancelled => "Cancelled",
    }
}

} // verus!
