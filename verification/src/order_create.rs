//! Creating a dispatch order by hand: its planned window, who it goes to,
//! its defaults and its first status.

use vstd::prelude::*;
use crate::text::{trim, trimmed, is_blank, text_eq};
use crate::model::{AssigneeType, DispatchError, LockLevel, OrderStatus, SlotRequirement};
use crate::text::{concat_views, join_texts};
use crate::rules::{DispatchService, normalized_opt};
use crate::publication::opt_chars;

verus! {

/// The message of a planned window that does not end after it starts.
pub open spec fn planned_window_message() -> Seq<char> {
    "planned_end_time 必须晚于 planned_start_time"@
}

/// The message of a request that names neither a task type nor a template.
pub open spec fn task_type_missing_message() -> Seq<char> {
    "task_type 与 temporary_task_template_code 至少提供一个"@
}

/// The status a new order ends up with once the service has tried to
/// prepare it: assigned when it was to be prepared and the preparation
/// went through, else its first status.
pub open spec fn created_status(a: NewOrderAssignment, preparation_updated: bool) -> OrderStatus {
    if a.prepare_for_optimization && preparation_updated {
        OrderStatus::Assigned
    } else {
        a.status
    }
}

/// The message of a team assignment without a team.
pub open spec fn team_missing_message() -> Seq<char> {
    "班组派工必须提供 team_id"@
}

/// The message of an individual assignment without a person.
pub open spec fn individual_missing_message() -> Seq<char> {
    "个人派工必须提供 individual_user_id"@
}

/// Who a new order goes to: as requested (`individual` or `team`, trimmed),
/// else an individual when only a person is named, else a team.
pub open spec fn requested_assignee(requested: Option<Seq<char>>, individual: Option<Seq<char>>) -> AssigneeType {
    match requested {
        Some(t) => if trimmed(t) == "individual"@ {
            AssigneeType::Individual
        } else {
            AssigneeType::Team
        },
        None => if individual is Some {
            AssigneeType::Individual
        } else {
            AssigneeType::Team
        },
    }
}

/// A text trimmed, or `default` when blank.
pub open spec fn or_default(s: Seq<char>, default: Seq<char>) -> Seq<char> {
    if is_blank(s) {
        default
    } else {
        trimmed(s)
    }
}

/// How a new order is set up.
pub struct NewOrderAssignment {
    pub assignee_type: AssigneeType,
    /// The team, trimmed; none when blank.
    pub team_id: Option<String>,
    /// The person, trimmed; none when blank.
    pub individual_user_id: Option<String>,
    /// Trimmed, `published` when blank.
    pub publication_state: String,
    /// Trimmed, `manual` when blank.
    pub source_type: String,
    /// Trimmed, `none` when blank.
    pub leg_scope: String,
    /// Assigned when it is published and someone or something is assigned.
    pub status: OrderStatus,
    pub lock_level: LockLevel,
    /// Who dispatched it: the creator, when it starts assigned.
    pub dispatched_by: Option<String>,
    /// Whether the service prepares a crew for it: nobody named, nothing
    /// assigned inline, not locked by hand, and published.
    pub prepare_for_optimization: bool,
}

/// `a` is how a new order with these requests is set up.
pub open spec fn new_order_set_up(
    requested: Option<Seq<char>>,
    team: Option<Seq<char>>,
    individual: Option<Seq<char>>,
    inline: bool,
    manual_lock: bool,
    publication_state: Seq<char>,
    source_type: Seq<char>,
    leg_scope: Seq<char>,
    actor: Seq<char>,
    a: NewOrderAssignment,
) -> bool {
    let t = normalized_opt(team);
    let i = normalized_opt(individual);
    let explicit = t is Some || i is Some;
    let state = or_default(publication_state, "published"@);
    let assigned = state == "published"@ && (explicit || inline);
    &&& a.assignee_type == requested_assignee(requested, i)
    &&& opt_chars(a.team_id) == t
    &&& opt_chars(a.individual_user_id) == i
    &&& a.publication_state@ == state
    &&& a.source_type@ == or_default(source_type, "manual"@)
    &&& a.leg_scope@ == or_default(leg_scope, "none"@)
    &&& a.status == if assigned {
        OrderStatus::Assigned
    } else {
        OrderStatus::Pending
    }
    &&& a.lock_level == if manual_lock {
        LockLevel::ManualLock
    } else {
        LockLevel::Optimizable
    }
    &&& opt_chars(a.dispatched_by) == if assigned {
        Some(actor)
    } else {
        None
    }
    &&& a.prepare_for_optimization == (!explicit && !inline && !manual_lock && state == "published"@)
}

fn text_or(s: &str, default: &str) -> (r: String)
    ensures
        r@ == or_default(s@, default@),
{
    let t = trim(s);
    if t.unicode_len() == 0 {
        default.to_string()
    } else {
        t.to_string()
    }
}

impl DispatchService {
    /// A planned window must end after it starts when both ends are given.
    pub fn check_planned_window(start: Option<i64>, end: Option<i64>) -> (r: Result<(), DispatchError>)
        ensures
            r is Err <==> (start is Some && end is Some && end.unwrap() <= start.unwrap()),
            r matches Err(e) ==> e matches DispatchError::ValidationError(m) && m@ == planned_window_message(),
    {
        match (start, end) {
            (Some(s), Some(e)) => {
                if e <= s {
                    proof {
                        reveal_strlit("planned_end_time 必须晚于 planned_start_time");
                    }
                    return Err(
                        DispatchError::ValidationError("planned_end_time 必须晚于 planned_start_time".to_string()),
                    );
                }
                Ok(())
            },
            _ => Ok(()),
        }
    }

    /// How a new order is set up from its request: who it goes to (a team
    /// assignment needs a team and an individual one a person, once either
    /// is named), its defaults, its first status, its lock, and whether the
    /// service prepares a crew for it.
    pub fn plan_new_order_assignment(
        assignee_type: Option<&str>,
        team_id: Option<String>,
        individual_user_id: Option<String>,
        has_inline_assignment: bool,
        manual_lock: bool,
        publication_state: &str,
        source_type: &str,
        leg_scope: &str,
        actor_id: &str,
    ) -> (r: Result<NewOrderAssignment, DispatchError>)
        ensures
            ({
                let t = normalized_opt(opt_chars(team_id));
                let i = normalized_opt(opt_chars(individual_user_id));
                let requested = match assignee_type {
                    Some(x) => Some(x@),
                    None => None,
                };
                let kind = requested_assignee(requested, i);
                let explicit = t is Some || i is Some;
                match r {
                    Ok(a) => !(explicit && kind == AssigneeType::Team && t is None) && !(explicit && kind
                        == AssigneeType::Individual && i is None) && new_order_set_up(
                        requested,
                        opt_chars(team_id),
                        opt_chars(individual_user_id),
                        has_inline_assignment,
                        manual_lock,
                        publication_state@,
                        source_type@,
                        leg_scope@,
                        actor_id@,
                        a,
                    ),
                    Err(e) => if explicit && kind == AssigneeType::Team && t is None {
                        e matches DispatchError::ValidationError(m) && m@ == team_missing_message()
                    } else {
                        explicit && kind == AssigneeType::Individual && i is None && (e matches DispatchError::ValidationError(
                            m,
                        ) && m@ == individual_missing_message())
                    },
                }
            }),
    {
        proof {
            reveal_strlit("individual");
            reveal_strlit("team");
            reveal_strlit("published");
            reveal_strlit("manual");
            reveal_strlit("none");
        }
        let ghost tv = opt_chars(team_id);
        let ghost iv = opt_chars(individual_user_id);
        let team = Self::normalize_optional_string(team_id);
        let individual = Self::normalize_optional_string(individual_user_id);
        let explicit = team.is_some() || individual.is_some();
        let kind = match assignee_type {
            Some(t) => if text_eq(trim(t), "individual") {
                AssigneeType::Individual
            } else {
                AssigneeType::Team
            },
            None => if individual.is_some() {
                AssigneeType::Individual
            } else {
                AssigneeType::Team
            },
        };
        if explicit && kind == AssigneeType::Team && team.is_none() {
            proof {
                reveal_strlit("班组派工必须提供 team_id");
            }
            return Err(DispatchError::ValidationError("班组派工必须提供 team_id".to_string()));
        }
        if explicit && kind == AssigneeType::Individual && individual.is_none() {
            proof {
                reveal_strlit("个人派工必须提供 individual_user_id");
            }
            return Err(DispatchError::ValidationError("个人派工必须提供 individual_user_id".to_string()));
        }
        let state = text_or(publication_state, "published");
        let assigned = text_eq(state.as_str(), "published") && (explicit || has_inline_assignment);
        let prepare = !explicit && !has_inline_assignment && !manual_lock && text_eq(state.as_str(), "published");
        Ok(NewOrderAssignment {
            assignee_type: kind,
            team_id: team,
            individual_user_id: individual,
            publication_state: state,
            source_type: text_or(source_type, "manual"),
            leg_scope: text_or(leg_scope, "none"),
            status: if assigned {
                OrderStatus::Assigned
            } else {
                OrderStatus::Pending
            },
            lock_level: if manual_lock {
                LockLevel::ManualLock
            } else {
                LockLevel::Optimizable
            },
            dispatched_by: if assigned {
                Some(actor_id.to_string())
            } else {
                None
            },
            prepare_for_optimization: prepare,
        })
    }
}

impl DispatchService {
    /// The task type of a new order: the one requested, trimmed, else that
    /// of the temporary task template the request names (`None` when it
    /// names none); one of them is required.
    pub fn resolve_task_type(task_type: Option<String>, template_task_type: Option<String>) -> (r: Result<
        String,
        DispatchError,
    >)
        ensures
            match normalized_opt(opt_chars(task_type)) {
                Some(t) => r matches Ok(x) && x@ == t,
                None => match normalized_opt(opt_chars(template_task_type)) {
                    Some(t) => r matches Ok(x) && x@ == t,
                    None => r matches Err(DispatchError::ValidationError(m)) && m@ == task_type_missing_message(),
                },
            },
    {
        match Self::normalize_optional_string(task_type) {
            Some(t) => Ok(t),
            None => match Self::normalize_optional_string(template_task_type) {
                Some(t) => Ok(t),
                None => {
                    proof {
                        reveal_strlit("task_type 与 temporary_task_template_code 至少提供一个");
                    }
                    Err(DispatchError::ValidationError("task_type 与 temporary_task_template_code 至少提供一个".to_string()))
                },
            },
        }
    }

    /// The status of a new order set up as `plan` once the service has
    /// tried to prepare it (`preparation_updated` says whether that went
    /// through; it is read only when the order was to be prepared).
    pub fn created_order_status(plan: &NewOrderAssignment, preparation_updated: bool) -> (r: OrderStatus)
        ensures
            r == created_status(*plan, preparation_updated),
    {
        if plan.prepare_for_optimization && preparation_updated {
            OrderStatus::Assigned
        } else {
            plan.status
        }
    }
}

/// A new order starts assigned exactly when it is published and someone or
/// something is assigned to it, or, with nothing assigned and no lock by
/// hand, its automatic preparation went through; otherwise it is pending.
pub proof fn law_created_order_status(
    requested: Option<Seq<char>>,
    team: Option<Seq<char>>,
    individual: Option<Seq<char>>,
    inline: bool,
    manual_lock: bool,
    publication_state: Seq<char>,
    source_type: Seq<char>,
    leg_scope: Seq<char>,
    actor: Seq<char>,
    a: NewOrderAssignment,
    preparation_updated: bool,
)
    requires
        new_order_set_up(
            requested,
            team,
            individual,
            inline,
            manual_lock,
            publication_state,
            source_type,
            leg_scope,
            actor,
            a,
        ),
    ensures
        ({
            let explicit = normalized_opt(team) is Some || normalized_opt(individual) is Some;
            let published = or_default(publication_state, "published"@) == "published"@;
            &&& (created_status(a, preparation_updated) == OrderStatus::Assigned) <==> (published && (explicit || inline
                || (!manual_lock && preparation_updated)))
            &&& created_status(a, preparation_updated) != OrderStatus::Assigned ==> created_status(a, preparation_updated)
                == OrderStatus::Pending
        }),
{
}

/// Where a new order's requirements can come from: a temporary task
/// template or a published task-type rule.
pub struct RequirementSource {
    pub id: String,
    /// Whether it may be used (a template can be switched off).
    pub is_active: bool,
    /// The task type a template stands for (unused for a rule).
    pub task_type: Option<String>,
    pub crew: Vec<SlotRequirement>,
    pub equipment: Vec<SlotRequirement>,
}

/// The requirements a new order is created with.
pub struct ResolvedRequirements {
    pub task_type: String,
    pub crew: Vec<SlotRequirement>,
    pub equipment: Vec<SlotRequirement>,
    /// The template (`temporary-template:<id>`) or rule version they came from.
    pub rule_version: Option<String>,
}

/// `given` when it is not empty, else `fallback`.
pub open spec fn or_fallback(given: Seq<SlotRequirement>, fallback: Seq<SlotRequirement>) -> Seq<SlotRequirement> {
    if given.len() == 0 {
        fallback
    } else {
        given
    }
}

/// What resolving a new order's requirements gives once a template is
/// applied: the task type, crew, equipment and version so far, or the
/// message of the first fault.
pub open spec fn after_template(
    task_type: Option<Seq<char>>,
    template_code: Option<Seq<char>>,
    department: Option<Seq<char>>,
    crew: Seq<SlotRequirement>,
    equipment: Seq<SlotRequirement>,
    template: Option<RequirementSource>,
) -> Result<(Option<Seq<char>>, Seq<SlotRequirement>, Seq<SlotRequirement>, Option<Seq<char>>), Seq<char>> {
    match template_code {
        None => Ok((task_type, crew, equipment, None)),
        Some(c) => if department is None {
            Err("temporary_task_template_code 提供时必须指定 department_id"@)
        } else {
            match template {
                None => Err("临时任务模板 "@ + c + " 不存在"@),
                Some(t) => if !t.is_active {
                    Err("临时任务模板 "@ + c + " 未启用"@)
                } else {
                    let tt = match task_type {
                        Some(x) => Some(x),
                        None => normalized_opt(opt_chars(t.task_type)),
                    };
                    let cr = or_fallback(crew, t.crew@);
                    let eq = or_fallback(equipment, t.equipment@);
                    if cr.len() == 0 {
                        Err("临时任务模板 "@ + c + " 缺少人员资质要求"@)
                    } else if eq.len() == 0 {
                        Err("临时任务模板 "@ + c + " 缺少设备类型要求"@)
                    } else {
                        Ok((tt, cr, eq, Some("temporary-template:"@ + t.id@)))
                    }
                },
            }
        },
    }
}

/// What resolving a new order's requirements gives: its task type, crew
/// and equipment requirements and their version, or the message of the
/// first fault. A template named (with a department) fills what the
/// request left out; a task type is then required; requirements still
/// missing come from the task type's published rule in the department.
pub open spec fn requirements_outcome(
    task_type: Option<Seq<char>>,
    template_code: Option<Seq<char>>,
    department: Option<Seq<char>>,
    crew: Seq<SlotRequirement>,
    equipment: Seq<SlotRequirement>,
    template: Option<RequirementSource>,
    rule: Option<RequirementSource>,
) -> Result<(Seq<char>, Seq<SlotRequirement>, Seq<SlotRequirement>, Option<Seq<char>>), Seq<char>> {
    match after_template(task_type, template_code, department, crew, equipment, template) {
        Err(m) => Err(m),
        Ok((tt, cr, eq, version)) => match tt {
            None => Err(task_type_missing_message()),
            Some(t) => if cr.len() > 0 && eq.len() > 0 {
                Ok((t, cr, eq, version))
            } else if department is None {
                Err("必须指定 task_type 或 temporary_task_template_code"@)
            } else {
                match rule {
                    None => Err("作业类型 "@ + t + " 缺少已发布作业类型规则"@),
                    Some(r) => {
                        let cr2 = or_fallback(cr, r.crew@);
                        let eq2 = or_fallback(eq, r.equipment@);
                        if cr2.len() == 0 {
                            Err("作业类型 "@ + t + " 缺少人员资质要求"@)
                        } else if eq2.len() == 0 {
                            Err("作业类型 "@ + t + " 缺少设备类型要求"@)
                        } else {
                            Ok(
                                (
                                    t,
                                    cr2,
                                    eq2,
                                    match version {
                                        Some(v) => Some(v),
                                        None => Some(r.id@),
                                    },
                                ),
                            )
                        }
                    },
                }
            },
        },
    }
}

fn wrap(prefix: &str, s: &str, suffix: &str) -> (r: String)
    ensures
        r@ == prefix@ + s@ + suffix@,
{
    let r = join_texts(&[prefix, s, suffix]);
    assert(concat_views(seq![prefix, s, suffix]) =~= prefix@ + s@ + suffix@) by {
        reveal_with_fuel(concat_views, 4);
    }
    r
}

fn invalid(m: String) -> (e: DispatchError)
    ensures
        e matches DispatchError::ValidationError(x) && x == m,
{
    DispatchError::ValidationError(m)
}

impl DispatchService {
    /// Resolves the task type and the requirements of a new order from its
    /// request (`crew`, `equipment`: the snapshots it carries), the template
    /// it names (`template`, read when it names one and a department), and
    /// the task type's published rule (`rule`, read when requirements are
    /// still missing).
    pub fn resolve_order_requirements(
        task_type: Option<String>,
        template_code: Option<String>,
        department_id: Option<String>,
        crew: Vec<SlotRequirement>,
        equipment: Vec<SlotRequirement>,
        template: Option<RequirementSource>,
        rule: Option<RequirementSource>,
    ) -> (r: Result<ResolvedRequirements, DispatchError>)
        ensures
            match requirements_outcome(
                normalized_opt(opt_chars(task_type)),
                normalized_opt(opt_chars(template_code)),
                normalized_opt(opt_chars(department_id)),
                crew@,
                equipment@,
                template,
                rule,
            ) {
                Err(m) => r matches Err(DispatchError::ValidationError(x)) && x@ == m,
                Ok((t, c, e, v)) => r matches Ok(q) && q.task_type@ == t && q.crew@ == c && q.equipment@ == e
                    && opt_chars(q.rule_version) == v,
            },
    {
        proof {
            reveal_strlit("temporary_task_template_code 提供时必须指定 department_id");
            reveal_strlit("必须指定 task_type 或 temporary_task_template_code");
        }
        let mut tt = Self::normalize_optional_string(task_type);
        let code = Self::normalize_optional_string(template_code);
        let department = Self::normalize_optional_string(department_id);
        let mut cr = crew;
        let mut eq = equipment;
        let mut version: Option<String> = None;
        if let Some(c) = code {
            if department.is_none() {
                return Err(invalid("temporary_task_template_code 提供时必须指定 department_id".to_string()));
            }
            let t = match template {
                None => {
                    return Err(invalid(wrap("临时任务模板 ", c.as_str(), " 不存在")));
                },
                Some(t) => t,
            };
            if !t.is_active {
                return Err(invalid(wrap("临时任务模板 ", c.as_str(), " 未启用")));
            }
            if tt.is_none() {
                tt = Self::normalize_optional_string(t.task_type);
            }
            if cr.len() == 0 {
                cr = t.crew;
            }
            if eq.len() == 0 {
                eq = t.equipment;
            }
            version = Some(wrap("temporary-template:", t.id.as_str(), ""));
            proof {
                reveal_strlit("");
                assert("temporary-template:"@ + t.id@ + ""@ =~= "temporary-template:"@ + t.id@);
            }
            if cr.len() == 0 {
                return Err(invalid(wrap("临时任务模板 ", c.as_str(), " 缺少人员资质要求")));
            }
            if eq.len() == 0 {
                return Err(invalid(wrap("临时任务模板 ", c.as_str(), " 缺少设备类型要求")));
            }
        }
        let t = match tt {
            Some(t) => t,
            None => {
                proof {
                    reveal_strlit("task_type 与 temporary_task_template_code 至少提供一个");
                }
                return Err(invalid("task_type 与 temporary_task_template_code 至少提供一个".to_string()));
            },
        };
        if cr.len() > 0 && eq.len() > 0 {
            return Ok(ResolvedRequirements { task_type: t, crew: cr, equipment: eq, rule_version: version });
        }
        if department.is_none() {
            return Err(invalid("必须指定 task_type 或 temporary_task_template_code".to_string()));
        }
        let rl = match rule {
            None => {
                return Err(invalid(wrap("作业类型 ", t.as_str(), " 缺少已发布作业类型规则")));
            },
            Some(rl) => rl,
        };
        if cr.len() == 0 {
            cr = rl.crew;
            if cr.len() == 0 {
                return Err(invalid(wrap("作业类型 ", t.as_str(), " 缺少人员资质要求")));
            }
        }
        if eq.len() == 0 {
            eq = rl.equipment;
            if eq.len() == 0 {
                return Err(invalid(wrap("作业类型 ", t.as_str(), " 缺少设备类型要求")));
            }
        }
        if version.is_none() {
            version = Some(rl.id);
        }
        Ok(ResolvedRequirements { task_type: t, crew: cr, equipment: eq, rule_version: version })
    }
}

} // verus!
