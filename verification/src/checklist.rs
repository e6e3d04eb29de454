//! Safety checklists: normalising templates and results, and the
//! completion gate built from a template and the recorded results.

use vstd::prelude::*;
use crate::idset::{has_id, insert_sorted, sorted_ids};
use crate::model::DispatchError;
use crate::publication::opt_chars;
use crate::rules::DispatchService;
use crate::text::{concat_views, is_blank, join_texts, text_eq, trim, trimmed};

verus! {

/// One item of a checklist template; a field that is missing or of another
/// type is `None`.
pub struct ChecklistTemplateItem {
    pub item_code: Option<String>,
    pub title: Option<String>,
    pub required: Option<bool>,
    pub allow_na: Option<bool>,
    pub order: Option<i64>,
    pub level: Option<String>,
}

/// A checklist template of a task type.
pub struct ChecklistTemplate {
    pub template_id: Option<String>,
    pub checklist_version: Option<String>,
    pub items: Vec<ChecklistTemplateItem>,
}

/// A recorded result of a checklist item.
pub struct ChecklistRecord {
    pub item_code: Option<String>,
    pub result: Option<String>,
    pub checked_by: Option<String>,
    pub checked_by_username: Option<String>,
    pub checked_at: Option<String>,
    pub note: Option<String>,
}

/// The state of one checklist item.
pub struct ChecklistItemStatus {
    pub item_code: String,
    pub title: String,
    pub required: bool,
    pub allow_na: bool,
    pub order: i64,
    pub level: String,
    pub result: Option<String>,
    pub checked_by: Option<String>,
    pub checked_by_username: Option<String>,
    pub checked_at: Option<String>,
    pub note: Option<String>,
    /// `pass`, `fail`, `na` or `pending`.
    pub status: String,
}

/// The completion gate of an order's safety checklist.
pub struct ChecklistStatus {
    pub dispatch_order_id: String,
    pub task_type: String,
    pub template_id: Option<String>,
    pub template_version: Option<String>,
    /// Some critical item is required.
    pub enforced: bool,
    /// No required critical item is pending or failed.
    pub ready: bool,
    pub required_total: usize,
    pub completed_required: usize,
    pub pending_required_items: Vec<String>,
    pub failed_required_items: Vec<String>,
    pub blocking_issues: Vec<String>,
    /// Required routine items pending or failed.
    pub soft_missing_count: usize,
    /// Nothing blocks completion.
    pub can_soft_complete: bool,
    pub routine_total: usize,
    pub completed_routine: usize,
    pub pending_routine_items: Vec<String>,
    pub failed_routine_items: Vec<String>,
    pub items: Vec<ChecklistItemStatus>,
}

/// Where a required item stands.
#[derive(Clone, Copy, Debug, PartialEq, Eq, Structural)]
pub enum CheckOutcome {
    Done,
    Pending,
    Failed,
}

/// The last record of item `code`.
pub open spec fn record_of(records: Seq<ChecklistRecord>, code: Seq<char>) -> Option<ChecklistRecord>
    decreases records.len(),
{
    if records.len() == 0 {
        None
    } else if records.last().item_code matches Some(c) && c@ == code {
        Some(records.last())
    } else {
        record_of(records.drop_last(), code)
    }
}

/// The recorded result of item `code`.
pub open spec fn record_result(records: Seq<ChecklistRecord>, code: Seq<char>) -> Option<Seq<char>> {
    match record_of(records, code) {
        Some(r) => opt_chars(r.result),
        None => None,
    }
}

/// A passed item, or a not-applicable one where that is allowed, is done;
/// one without a result is pending; anything else failed.
pub open spec fn outcome_of(result: Option<Seq<char>>, allow_na: bool) -> CheckOutcome {
    match result {
        None => CheckOutcome::Pending,
        Some(r) => if r == "pass"@ || (r == "na"@ && allow_na) {
            CheckOutcome::Done
        } else {
            CheckOutcome::Failed
        },
    }
}

/// The status text of a result.
pub open spec fn status_of(result: Option<Seq<char>>) -> Seq<char> {
    match result {
        Some(r) => if r == "pass"@ || r == "fail"@ || r == "na"@ {
            r
        } else {
            "pending"@
        },
        None => "pending"@,
    }
}

pub open spec fn item_code_of(it: ChecklistTemplateItem) -> Seq<char> {
    match it.item_code {
        Some(c) => c@,
        None => Seq::empty(),
    }
}

pub open spec fn item_title(it: ChecklistTemplateItem) -> Seq<char> {
    match it.title {
        Some(t) => t@,
        None => item_code_of(it),
    }
}

pub open spec fn item_required(it: ChecklistTemplateItem) -> bool {
    match it.required {
        Some(b) => b,
        None => true,
    }
}

pub open spec fn item_allow_na(it: ChecklistTemplateItem) -> bool {
    match it.allow_na {
        Some(b) => b,
        None => false,
    }
}

pub open spec fn item_level(it: ChecklistTemplateItem) -> Seq<char> {
    match it.level {
        Some(l) => l@,
        None => "critical"@,
    }
}

pub open spec fn item_routine(it: ChecklistTemplateItem) -> bool {
    item_level(it) == "routine"@
}

/// Where a template item stands given the records.
pub open spec fn item_outcome(records: Seq<ChecklistRecord>, it: ChecklistTemplateItem) -> CheckOutcome {
    outcome_of(record_result(records, item_code_of(it)), item_allow_na(it))
}

/// The titles of the required items of the given kind (routine or
/// critical) that stand at `o`, in template order.
pub open spec fn listed(items: Seq<ChecklistTemplateItem>, records: Seq<ChecklistRecord>, routine: bool, o: CheckOutcome) -> Seq<
    Seq<char>,
>
    decreases items.len(),
{
    if items.len() == 0 {
        Seq::empty()
    } else {
        let rest = listed(items.drop_last(), records, routine, o);
        let it = items.last();
        if item_required(it) && item_routine(it) == routine && item_outcome(records, it) == o {
            rest.push(item_title(it))
        } else {
            rest
        }
    }
}

/// How many required items of the given kind there are (or, with
/// `done_only`, how many of them are done).
pub open spec fn counted(items: Seq<ChecklistTemplateItem>, records: Seq<ChecklistRecord>, routine: bool, done_only: bool) -> nat
    decreases items.len(),
{
    if items.len() == 0 {
        0
    } else {
        let it = items.last();
        counted(items.drop_last(), records, routine, done_only) + if item_required(it) && item_routine(it) == routine && (
        !done_only || item_outcome(records, it) == CheckOutcome::Done) {
            1nat
        } else {
            0nat
        }
    }
}

/// What blocks completion: each required critical item not checked or not
/// passed, in template order.
pub open spec fn blocking(items: Seq<ChecklistTemplateItem>, records: Seq<ChecklistRecord>) -> Seq<Seq<char>>
    decreases items.len(),
{
    if items.len() == 0 {
        Seq::empty()
    } else {
        let rest = blocking(items.drop_last(), records);
        let it = items.last();
        if item_required(it) && !item_routine(it) {
            match item_outcome(records, it) {
                CheckOutcome::Pending => rest.push("未检查: "@ + item_title(it)),
                CheckOutcome::Failed => rest.push("未通过: "@ + item_title(it)),
                CheckOutcome::Done => rest,
            }
        } else {
            rest
        }
    }
}

/// `st` is the state of template item `it` at position `index`.
pub open spec fn item_state(st: ChecklistItemStatus, it: ChecklistTemplateItem, index: int, records: Seq<ChecklistRecord>) -> bool {
    let rec = record_of(records, item_code_of(it));
    &&& st.item_code@ == item_code_of(it)
    &&& st.title@ == item_title(it)
    &&& st.required == item_required(it)
    &&& st.allow_na == item_allow_na(it)
    &&& st.order == match it.order {
        Some(o) => o,
        None => (index + 1) as i64,
    }
    &&& st.level@ == item_level(it)
    &&& opt_chars(st.result) == record_result(records, item_code_of(it))
    &&& st.status@ == status_of(record_result(records, item_code_of(it)))
    &&& opt_chars(st.checked_by) == match rec {
        Some(r) => opt_chars(r.checked_by),
        None => None,
    }
    &&& opt_chars(st.note) == match rec {
        Some(r) => opt_chars(r.note),
        None => None,
    }
}

/// The string views of a list.
pub open spec fn views_of(v: Seq<String>) -> Seq<Seq<char>> {
    v.map_values(|s: String| s@)
}

/// `st` is the checklist status for the items `items` given `records`.
pub open spec fn gate_with_items(st: ChecklistStatus, items: Seq<ChecklistTemplateItem>, records: Seq<ChecklistRecord>) -> bool {
    &&& st.enforced == (counted(items, records, false, false) > 0)
    &&& st.ready == (listed(items, records, false, CheckOutcome::Pending).len() == 0 && listed(
        items,
        records,
        false,
        CheckOutcome::Failed,
    ).len() == 0)
    &&& st.required_total == counted(items, records, false, false)
    &&& st.completed_required == counted(items, records, false, true)
    &&& views_of(st.pending_required_items@) == listed(items, records, false, CheckOutcome::Pending)
    &&& views_of(st.failed_required_items@) == listed(items, records, false, CheckOutcome::Failed)
    &&& views_of(st.blocking_issues@) == blocking(items, records)
    &&& st.soft_missing_count == listed(items, records, true, CheckOutcome::Pending).len() + listed(
        items,
        records,
        true,
        CheckOutcome::Failed,
    ).len()
    &&& st.can_soft_complete == (blocking(items, records).len() == 0)
    &&& st.routine_total == counted(items, records, true, false)
    &&& st.completed_routine == counted(items, records, true, true)
    &&& views_of(st.pending_routine_items@) == listed(items, records, true, CheckOutcome::Pending)
    &&& views_of(st.failed_routine_items@) == listed(items, records, true, CheckOutcome::Failed)
    &&& st.items@.len() == items.len()
    &&& forall|k: int| 0 <= k < items.len() ==> item_state(#[trigger] st.items@[k], items[k], k, records)
}

} // verus!

verus! {

fn find_record(records: &Vec<ChecklistRecord>, code: &str) -> (r: Option<usize>)
    ensures
        match r {
            Some(i) => i < records@.len() && record_of(records@, code@) == Some(records@[i as int]),
            None => record_of(records@, code@) is None,
        },
{
    let mut j: usize = records.len();
    assert(records@.take(records@.len() as int) =~= records@);
    while j > 0
        invariant
            j <= records@.len(),
            record_of(records@, code@) == record_of(records@.take(j as int), code@),
        decreases j,
    {
        proof {
            assert(records@.take(j as int).drop_last() =~= records@.take(j - 1));
            assert(records@.take(j as int).last() == records@[j - 1]);
        }
        let hit = match &records[j - 1].item_code {
            Some(c) => text_eq(c.as_str(), code),
            None => false,
        };
        if hit {
            return Some(j - 1);
        }
        j = j - 1;
    }
    assert(records@.take(0) =~= Seq::<ChecklistRecord>::empty());
    None
}

fn copy_text(o: &Option<String>) -> (r: Option<String>)
    ensures
        opt_chars(r) == opt_chars(*o),
{
    match o {
        Some(s) => Some(s.clone()),
        None => None,
    }
}

fn outcome_exec(result: &Option<String>, allow_na: bool) -> (r: CheckOutcome)
    ensures
        r == outcome_of(opt_chars(*result), allow_na),
{
    match result {
        None => CheckOutcome::Pending,
        Some(x) => if text_eq(x.as_str(), "pass") || (text_eq(x.as_str(), "na") && allow_na) {
            CheckOutcome::Done
        } else {
            CheckOutcome::Failed
        },
    }
}

fn status_exec(result: &Option<String>) -> (r: &str)
    ensures
        r@ == status_of(opt_chars(*result)),
{
    match result {
        Some(x) => if text_eq(x.as_str(), "pass") || text_eq(x.as_str(), "fail") || text_eq(x.as_str(), "na") {
            x.as_str()
        } else {
            "pending"
        },
        None => "pending",
    }
}

fn prefixed(prefix: &str, title: &str) -> (r: String)
    ensures
        r@ == prefix@ + title@,
{
    let r = join_texts(&[prefix, title]);
    assert(concat_views(seq![prefix, title]) =~= prefix@ + title@) by {
        reveal_with_fuel(concat_views, 3);
    }
    r
}

/// The checklist status of an order whose task type has no checklist: every recorded item, in
/// increasing code order, as an optional routine item.
pub open spec fn gate_of_records(st: ChecklistStatus, records: Seq<ChecklistRecord>) -> bool {
    &&& !st.enforced
    &&& st.ready
    &&& st.required_total == 0
    &&& st.completed_required == 0
    &&& st.pending_required_items@.len() == 0
    &&& st.failed_required_items@.len() == 0
    &&& st.blocking_issues@.len() == 0
    &&& st.soft_missing_count == 0
    &&& st.can_soft_complete
    &&& st.pending_routine_items@.len() == 0
    &&& st.failed_routine_items@.len() == 0
    &&& st.template_id is None
    &&& st.template_version is None
    &&& sorted_ids(Seq::new(st.items@.len(), |k: int| st.items@[k].item_code))
    &&& forall|x: Seq<char>|
        #![trigger lists_item(st.items@, x)]
        #![trigger recorded_item(records, x)]
        lists_item(st.items@, x) <==> recorded_item(records, x)
    &&& forall|k: int|
        0 <= k < st.items@.len() ==> {
            let it = #[trigger] st.items@[k];
            &&& it.title@ == it.item_code@
            &&& !it.required
            &&& it.allow_na
            &&& it.order == 0
            &&& it.level@ == "routine"@
            &&& opt_chars(it.result) == record_result(records, it.item_code@)
            &&& it.status@ == match record_result(records, it.item_code@) {
                Some(r) => r,
                None => "pending"@,
            }
        }
    &&& st.routine_total == st.items@.len()
    &&& st.completed_routine == done_count(st.items@)
}

/// Whether some item has code `x`.
pub open spec fn lists_item(items: Seq<ChecklistItemStatus>, x: Seq<char>) -> bool {
    exists|k: int| 0 <= k < items.len() && (#[trigger] items[k]).item_code@ == x
}

/// Whether some record is of item `x`.
pub open spec fn recorded_item(records: Seq<ChecklistRecord>, x: Seq<char>) -> bool {
    exists|i: int| 0 <= i < records.len() && opt_chars((#[trigger] records[i]).item_code) == Some(x)
}

/// How many items have passed or are not applicable.
pub open spec fn done_count(items: Seq<ChecklistItemStatus>) -> nat
    decreases items.len(),
{
    if items.len() == 0 {
        0
    } else {
        done_count(items.drop_last()) + if items.last().status@ == "pass"@ || items.last().status@ == "na"@ {
            1nat
        } else {
            0nat
        }
    }
}

impl DispatchService {
    /// The completion gate of an order's safety checklist, from its
    /// template (if any) and the recorded results (the last record of an
    /// item counts). A template item without a code is an internal error.
    pub fn build_checklist_status(
        dispatch_order_id: &str,
        task_type: &str,
        template: Option<&ChecklistTemplate>,
        records: &Vec<ChecklistRecord>,
    ) -> (r: Result<ChecklistStatus, DispatchError>)
        ensures
            r matches Ok(st) ==> st.dispatch_order_id@ == dispatch_order_id@ && st.task_type@ == task_type@,
            match template {
                None => r matches Ok(st) && gate_of_records(st, records@),
                Some(t) => if exists|k: int| 0 <= k < t.items@.len() && (#[trigger] t.items@[k]).item_code is None {
                    r matches Err(DispatchError::Internal(m)) && m@ == "安全检查模板缺少 item_code"@
                } else {
                    r matches Ok(st) && gate_with_items(st, t.items@, records@) && opt_chars(st.template_id)
                        == opt_chars(t.template_id) && opt_chars(st.template_version) == opt_chars(t.checklist_version)
                },
            },
    {
        match template {
            None => Self::gate_of_records_exec(dispatch_order_id, task_type, records),
            Some(t) => Self::gate_with_items_exec(dispatch_order_id, task_type, t, records),
        }
    }

    fn gate_of_records_exec(dispatch_order_id: &str, task_type: &str, records: &Vec<ChecklistRecord>) -> (r: Result<
        ChecklistStatus,
        DispatchError,
    >)
        ensures
            r matches Ok(st) && st.dispatch_order_id@ == dispatch_order_id@ && st.task_type@ == task_type@
                && gate_of_records(st, records@),
    {
        let mut codes: Vec<String> = Vec::new();
        let mut j: usize = 0;
        while j < records.len()
            invariant
                j <= records@.len(),
                sorted_ids(codes@),
                forall|x: Seq<char>|
                    has_id(codes@, x) <==> exists|i: int|
                        0 <= i < j && opt_chars((#[trigger] records@[i]).item_code) == Some(x),
            decreases records@.len() - j,
        {
            let ghost before = codes@;
            match &records[j].item_code {
                Some(c) => {
                    insert_sorted(&mut codes, c.clone());
                },
                None => {},
            }
            j = j + 1;
            proof {
                assert forall|x: Seq<char>|
                    has_id(codes@, x) <==> exists|i: int|
                        0 <= i < j && opt_chars((#[trigger] records@[i]).item_code) == Some(x) by {
                    if exists|i: int| 0 <= i < j && opt_chars((#[trigger] records@[i]).item_code) == Some(x) {
                        let i = choose|i: int| 0 <= i < j && opt_chars((#[trigger] records@[i]).item_code) == Some(x);
                        if i < j - 1 {
                            assert(exists|i2: int|
                                0 <= i2 < j - 1 && opt_chars((#[trigger] records@[i2]).item_code) == Some(x));
                        }
                    }
                    if has_id(codes@, x) && !has_id(before, x) {
                        assert(opt_chars(records@[j - 1].item_code) == Some(x));
                    }
                }
            }
        }
        let mut states: Vec<ChecklistItemStatus> = Vec::new();
        let mut done: usize = 0;
        let mut k: usize = 0;
        while k < codes.len()
            invariant
                k <= codes@.len(),
                states@.len() == k,
                done == done_count(states@),
                done <= k,
                forall|q: int| 0 <= q < k ==> (#[trigger] states@[q]).item_code == codes@[q],
                forall|q: int|
                    0 <= q < k ==> {
                        let it = #[trigger] states@[q];
                        &&& it.title@ == it.item_code@
                        &&& !it.required
                        &&& it.allow_na
                        &&& it.order == 0
                        &&& it.level@ == "routine"@
                        &&& opt_chars(it.result) == record_result(records@, it.item_code@)
                        &&& it.status@ == match record_result(records@, it.item_code@) {
                            Some(r) => r,
                            None => "pending"@,
                        }
                    },
            decreases codes@.len() - k,
        {
            let code = codes[k].as_str();
            let rec = find_record(records, code);
            let (result, checked_by, checked_by_username, checked_at, note): (
                Option<String>,
                Option<String>,
                Option<String>,
                Option<String>,
                Option<String>,
            ) = match rec {
                Some(q) => (
                    copy_text(&records[q].result),
                    copy_text(&records[q].checked_by),
                    copy_text(&records[q].checked_by_username),
                    copy_text(&records[q].checked_at),
                    copy_text(&records[q].note),
                ),
                None => (None, None, None, None, None),
            };
            let status: String = match &result {
                Some(x) => x.clone(),
                None => String::from_str("pending"),
            };
            let is_done = text_eq(status.as_str(), "pass") || text_eq(status.as_str(), "na");
            let ghost before = states@;
            states.push(
                ChecklistItemStatus {
                    item_code: codes[k].clone(),
                    title: codes[k].clone(),
                    required: false,
                    allow_na: true,
                    order: 0,
                    level: String::from_str("routine"),
                    result,
                    checked_by,
                    checked_by_username,
                    checked_at,
                    note,
                    status,
                },
            );
            proof {
                assert(states@.drop_last() =~= before);
            }
            if is_done {
                done = done + 1;
            }
            k = k + 1;
        }
        proof {
            let sv = Seq::new(states@.len(), |q: int| states@[q].item_code);
            assert(sv =~= codes@);
            assert forall|x: Seq<char>| lists_item(states@, x) <==> recorded_item(records@, x) by {
                assert(has_id(codes@, x) <==> recorded_item(records@, x));
                if exists|q: int| 0 <= q < states@.len() && (#[trigger] states@[q]).item_code@ == x {
                    let q = choose|q: int| 0 <= q < states@.len() && (#[trigger] states@[q]).item_code@ == x;
                    assert(codes@[q]@ == x);
                }
                if has_id(codes@, x) {
                    let q = choose|q: int| 0 <= q < codes@.len() && #[trigger] codes@[q]@ == x;
                    assert(states@[q].item_code@ == x);
                }
            }
        }
        let n = states.len();
        Ok(
            ChecklistStatus {
                dispatch_order_id: String::from_str(dispatch_order_id),
                task_type: String::from_str(task_type),
                template_id: None,
                template_version: None,
                enforced: false,
                ready: true,
                required_total: 0,
                completed_required: 0,
                pending_required_items: Vec::new(),
                failed_required_items: Vec::new(),
                blocking_issues: Vec::new(),
                soft_missing_count: 0,
                can_soft_complete: true,
                routine_total: n,
                completed_routine: done,
                pending_routine_items: Vec::new(),
                failed_routine_items: Vec::new(),
                items: states,
            },
        )
    }

    fn gate_with_items_exec(
        dispatch_order_id: &str,
        task_type: &str,
        t: &ChecklistTemplate,
        records: &Vec<ChecklistRecord>,
    ) -> (r: Result<ChecklistStatus, DispatchError>)
        ensures
            r matches Ok(st) ==> st.dispatch_order_id@ == dispatch_order_id@ && st.task_type@ == task_type@,
            if exists|k: int| 0 <= k < t.items@.len() && (#[trigger] t.items@[k]).item_code is None {
                r matches Err(DispatchError::Internal(m)) && m@ == "安全检查模板缺少 item_code"@
            } else {
                r matches Ok(st) && gate_with_items(st, t.items@, records@) && opt_chars(st.template_id) == opt_chars(
                    t.template_id,
                ) && opt_chars(st.template_version) == opt_chars(t.checklist_version)
            },
    {
        let items = &t.items;
        let mut j: usize = 0;
        while j < items.len()
            invariant
                j <= items@.len(),
                items@ == t.items@,
                forall|k: int| 0 <= k < j ==> (#[trigger] items@[k]).item_code is Some,
            decreases items@.len() - j,
        {
            if items[j].item_code.is_none() {
                return Err(DispatchError::Internal(String::from_str("安全检查模板缺少 item_code")));
            }
            j = j + 1;
        }
        let mut pending_required: Vec<String> = Vec::new();
        let mut failed_required: Vec<String> = Vec::new();
        let mut blocking_issues: Vec<String> = Vec::new();
        let mut pending_routine: Vec<String> = Vec::new();
        let mut failed_routine: Vec<String> = Vec::new();
        let mut states: Vec<ChecklistItemStatus> = Vec::new();
        let mut required_total: usize = 0;
        let mut completed_required: usize = 0;
        let mut routine_total: usize = 0;
        let mut completed_routine: usize = 0;
        let mut i: usize = 0;
        while i < items.len()
            invariant
                i <= items@.len(),
                items@ == t.items@,
                pending_routine@.len() + failed_routine@.len() <= i,
                forall|k: int| 0 <= k < items@.len() ==> (#[trigger] items@[k]).item_code is Some,
                views_of(pending_required@) == listed(items@.take(i as int), records@, false, CheckOutcome::Pending),
                views_of(failed_required@) == listed(items@.take(i as int), records@, false, CheckOutcome::Failed),
                views_of(pending_routine@) == listed(items@.take(i as int), records@, true, CheckOutcome::Pending),
                views_of(failed_routine@) == listed(items@.take(i as int), records@, true, CheckOutcome::Failed),
                views_of(blocking_issues@) == blocking(items@.take(i as int), records@),
                required_total == counted(items@.take(i as int), records@, false, false),
                completed_required == counted(items@.take(i as int), records@, false, true),
                routine_total == counted(items@.take(i as int), records@, true, false),
                completed_routine == counted(items@.take(i as int), records@, true, true),
                required_total <= i,
                completed_required <= i,
                routine_total <= i,
                completed_routine <= i,
                states@.len() == i,
                forall|k: int| 0 <= k < i ==> item_state(#[trigger] states@[k], items@[k], k, records@),
            decreases items@.len() - i,
        {
            let ghost pre = items@.take(i as int);
            let ghost post = items@.take(i + 1);
            proof {
                assert(post.drop_last() =~= pre);
                assert(post.last() == items@[i as int]);
            }
            let it = &items[i];
            let code: &str = match &it.item_code {
                Some(c) => c.as_str(),
                None => "",
            };
            let title: &str = match &it.title {
                Some(x) => x.as_str(),
                None => code,
            };
            let required = match it.required {
                Some(b) => b,
                None => true,
            };
            let allow_na = match it.allow_na {
                Some(b) => b,
                None => false,
            };
            let order: i64 = match it.order {
                Some(o) => o,
                None => #[verifier::truncate] ((i + 1) as i64),
            };
            let level: &str = match &it.level {
                Some(l) => l.as_str(),
                None => "critical",
            };
            let routine = text_eq(level, "routine");
            let rec = find_record(records, code);
            let result: Option<String> = match rec {
                Some(k) => copy_text(&records[k].result),
                None => None,
            };
            let outcome = outcome_exec(&result, allow_na);
            let ghost pr = pending_required@;
            let ghost fr = failed_required@;
            let ghost po = pending_routine@;
            let ghost fo = failed_routine@;
            let ghost bl = blocking_issues@;
            if required {
                if routine {
                    routine_total = routine_total + 1;
                    match outcome {
                        CheckOutcome::Done => {
                            completed_routine = completed_routine + 1;
                        },
                        CheckOutcome::Pending => {
                            pending_routine.push(String::from_str(title));
                        },
                        CheckOutcome::Failed => {
                            failed_routine.push(String::from_str(title));
                        },
                    }
                } else {
                    required_total = required_total + 1;
                    match outcome {
                        CheckOutcome::Done => {
                            completed_required = completed_required + 1;
                        },
                        CheckOutcome::Pending => {
                            pending_required.push(String::from_str(title));
                            blocking_issues.push(prefixed("未检查: ", title));
                        },
                        CheckOutcome::Failed => {
                            failed_required.push(String::from_str(title));
                            blocking_issues.push(prefixed("未通过: ", title));
                        },
                    }
                }
            }
            proof {
                assert(views_of(pending_required@) =~= listed(post, records@, false, CheckOutcome::Pending));
                assert(views_of(failed_required@) =~= listed(post, records@, false, CheckOutcome::Failed));
                assert(views_of(pending_routine@) =~= listed(post, records@, true, CheckOutcome::Pending));
                assert(views_of(failed_routine@) =~= listed(post, records@, true, CheckOutcome::Failed));
                assert(views_of(blocking_issues@) =~= blocking(post, records@));
            }
            let (checked_by, checked_by_username, checked_at, note): (
                Option<String>,
                Option<String>,
                Option<String>,
                Option<String>,
            ) = match rec {
                Some(k) => (
                    copy_text(&records[k].checked_by),
                    copy_text(&records[k].checked_by_username),
                    copy_text(&records[k].checked_at),
                    copy_text(&records[k].note),
                ),
                None => (None, None, None, None),
            };
            let status = String::from_str(status_exec(&result));
            states.push(
                ChecklistItemStatus {
                    item_code: String::from_str(code),
                    title: String::from_str(title),
                    required,
                    allow_na,
                    order,
                    level: String::from_str(level),
                    result,
                    checked_by,
                    checked_by_username,
                    checked_at,
                    note,
                    status,
                },
            );
            i = i + 1;
        }
        assert(items@.take(items@.len() as int) =~= items@);
        let soft = pending_routine.len() + failed_routine.len();
        let st = ChecklistStatus {
            dispatch_order_id: String::from_str(dispatch_order_id),
            task_type: String::from_str(task_type),
            template_id: copy_text(&t.template_id),
            template_version: copy_text(&t.checklist_version),
            enforced: required_total > 0,
            ready: pending_required.len() == 0 && failed_required.len() == 0,
            required_total,
            completed_required,
            pending_required_items: pending_required,
            failed_required_items: failed_required,
            can_soft_complete: blocking_issues.len() == 0,
            blocking_issues,
            soft_missing_count: soft,
            routine_total,
            completed_routine,
            pending_routine_items: pending_routine,
            failed_routine_items: failed_routine,
            items: states,
        };
        Ok(st)
    }
}

} // verus!

verus! {

/// The error of a malformed safety checklist template request.
pub open spec fn invalid_template_message() -> Seq<char> {
    "invalid safety checklist template request"@
}

/// The result `result` stands for once trimmed: `pass`, `fail` or `na`.
pub open spec fn checklist_result(result: Option<&str>) -> Option<Seq<char>> {
    match result {
        Some(r) => if trimmed(r@) == "pass"@ || trimmed(r@) == "fail"@ || trimmed(r@) == "na"@ {
            Some(trimmed(r@))
        } else {
            None
        },
        None => None,
    }
}

/// The level an item gets: a required item without a level, or with
/// `critical`, is critical; `routine`, or no level on an optional item, is
/// routine; anything else is refused.
pub open spec fn checklist_level(level: Option<Seq<char>>, required: bool) -> Option<Seq<char>> {
    let l = match level {
        Some(x) => if is_blank(x) {
            None
        } else {
            Some(trimmed(x))
        },
        None => None,
    };
    match l {
        None => if required {
            Some("critical"@)
        } else {
            Some("routine"@)
        },
        Some(t) => if t == "critical"@ && required {
            Some("critical"@)
        } else if t == "routine"@ {
            Some("routine"@)
        } else {
            None
        },
    }
}

impl DispatchService {
    /// The error of a malformed safety checklist template request.
    pub fn invalid_safety_template_request() -> (e: DispatchError)
        ensures
            e matches DispatchError::BusinessRuleViolation(m) && m@ == invalid_template_message(),
    {
        DispatchError::BusinessRuleViolation(String::from_str("invalid safety checklist template request"))
    }

    /// A checklist result trimmed: only `pass`, `fail` and `na` are accepted.
    pub fn normalize_checklist_result(result: Option<&str>) -> (r: Result<&str, DispatchError>)
        ensures
            match checklist_result(result) {
                Some(x) => r matches Ok(s) && s@ == x,
                None => r matches Err(DispatchError::BusinessRuleViolation(m)) && m@
                    == "invalid safety checklist item result"@,
            },
    {
        match result {
            Some(x) => {
                let t = trim(x);
                if text_eq(t, "pass") || text_eq(t, "fail") || text_eq(t, "na") {
                    return Ok(t);
                }
            },
            None => {},
        }
        Err(DispatchError::BusinessRuleViolation(String::from_str("invalid safety checklist item result")))
    }

    /// The level of a template item.
    pub fn normalize_checklist_level(level: Option<&str>, required: bool) -> (r: Result<String, DispatchError>)
        ensures
            match checklist_level(
                match level {
                    Some(x) => Some(x@),
                    None => None,
                },
                required,
            ) {
                Some(x) => r matches Ok(s) && s@ == x,
                None => r matches Err(DispatchError::BusinessRuleViolation(m)) && m@ == invalid_template_message(),
            },
    {
        let l: Option<&str> = match level {
            Some(x) => {
                let t = trim(x);
                if t.unicode_len() == 0 {
                    None
                } else {
                    Some(t)
                }
            },
            None => None,
        };
        match l {
            None => if required {
                Ok(String::from_str("critical"))
            } else {
                Ok(String::from_str("routine"))
            },
            Some(t) => if text_eq(t, "critical") && required {
                Ok(String::from_str("critical"))
            } else if text_eq(t, "routine") {
                Ok(String::from_str("routine"))
            } else {
                Err(Self::invalid_safety_template_request())
            },
        }
    }

    /// A template version trimmed; a blank one is refused.
    pub fn normalize_safety_template_version(value: &str) -> (r: Result<String, DispatchError>)
        ensures
            is_blank(value@) ==> (r matches Err(DispatchError::BusinessRuleViolation(m)) && m@ == invalid_template_message()),
            !is_blank(value@) ==> (r matches Ok(s) && s@ == trimmed(value@)),
    {
        let t = trim(value);
        if t.unicode_len() == 0 {
            return Err(Self::invalid_safety_template_request());
        }
        Ok(String::from_str(t))
    }
}

/// The order field of a template item as submitted.
pub enum ItemOrderInput {
    Missing,
    Null,
    Int(i64),
    /// A number that is not an integer in range, or another value.
    Other,
}

/// One item of a submitted checklist template; a field that is missing or
/// of another type is `None`.
pub struct TemplateItemInput {
    pub is_object: bool,
    pub item_code: Option<String>,
    pub title: Option<String>,
    pub required: Option<bool>,
    pub allow_na: Option<bool>,
    pub order: ItemOrderInput,
    pub level: Option<String>,
}

/// A normalised template item.
pub struct NormalizedTemplateItem {
    pub item_code: String,
    pub title: String,
    pub required: bool,
    pub allow_na: bool,
    pub order: i64,
    pub level: String,
}

/// The normalised form of the item submitted at position `index`, or
/// nothing when it is refused.
pub open spec fn normalized_item(it: TemplateItemInput, index: int) -> Option<(Seq<char>, Seq<char>, bool, bool, i64, Seq<char>)> {
    if !it.is_object {
        None
    } else {
        match it.item_code {
            None => None,
            Some(c) => if is_blank(c@) {
                None
            } else {
                let code = trimmed(c@);
                let title = match it.title {
                    Some(t) => if is_blank(t@) {
                        code
                    } else {
                        trimmed(t@)
                    },
                    None => code,
                };
                let required = match it.required {
                    Some(b) => b,
                    None => true,
                };
                let allow_na = match it.allow_na {
                    Some(b) => b,
                    None => false,
                };
                let order: Option<i64> = match it.order {
                    ItemOrderInput::Missing => Some((index + 1) as i64),
                    ItemOrderInput::Null => Some((index + 1) as i64),
                    ItemOrderInput::Int(v) => if v >= 0 {
                        Some(v)
                    } else {
                        None
                    },
                    ItemOrderInput::Other => None,
                };
                let level = checklist_level(opt_chars(it.level), required);
                match (order, level) {
                    (Some(o), Some(l)) => Some((code, title, required, allow_na, o, l)),
                    _ => None,
                }
            },
        }
    }
}

/// The views of a normalised item.
pub open spec fn item_view(n: NormalizedTemplateItem) -> (Seq<char>, Seq<char>, bool, bool, i64, Seq<char>) {
    (n.item_code@, n.title@, n.required, n.allow_na, n.order, n.level@)
}

/// `a` comes before `b`: lower order, then lower code.
pub open spec fn item_before(a: NormalizedTemplateItem, b: NormalizedTemplateItem) -> bool {
    a.order < b.order || (a.order == b.order && crate::idset::seq_lt(a.item_code@, b.item_code@))
}

/// Whether a submitted template is accepted: it has items, every item is
/// well formed, and no code appears twice.
pub open spec fn template_accepted(items: Seq<TemplateItemInput>) -> bool {
    &&& items.len() > 0
    &&& forall|k: int| 0 <= k < items.len() ==> (#[trigger] normalized_item(items[k], k)) is Some
    &&& forall|i: int, j: int|
        0 <= i < j < items.len() ==> #[trigger] submitted_code(items[i]) != #[trigger] submitted_code(items[j])
}

/// The code of a submitted item, trimmed.
pub open spec fn submitted_code(it: TemplateItemInput) -> Seq<char> {
    match it.item_code {
        Some(c) => trimmed(c@),
        None => Seq::empty(),
    }
}

} // verus!

verus! {

proof fn lemma_before_transitive(a: NormalizedTemplateItem, b: NormalizedTemplateItem, c: NormalizedTemplateItem)
    requires
        item_before(a, b),
        item_before(b, c),
    ensures
        item_before(a, c),
{
    if a.order == b.order && b.order == c.order {
        crate::idset::lemma_lt_transitive(a.item_code@, b.item_code@, c.item_code@);
    }
}

proof fn lemma_before_total(a: NormalizedTemplateItem, b: NormalizedTemplateItem)
    requires
        a.item_code@ != b.item_code@,
        !item_before(a, b),
    ensures
        item_before(b, a),
{
    if a.order == b.order {
        crate::idset::lemma_lt_total(a.item_code@, b.item_code@);
    }
}

fn item_before_exec(a: &NormalizedTemplateItem, b: &NormalizedTemplateItem) -> (r: bool)
    ensures
        r == item_before(*a, *b),
{
    a.order < b.order || (a.order == b.order && crate::idset::text_lt(a.item_code.as_str(), b.item_code.as_str()))
}

fn normalize_item_exec(it: &TemplateItemInput, index: usize) -> (r: Option<NormalizedTemplateItem>)
    requires
        index < usize::MAX,
    ensures
        match r {
            Some(n) => normalized_item(*it, index as int) == Some(item_view(n)),
            None => normalized_item(*it, index as int) is None,
        },
{
    if !it.is_object {
        return None;
    }
    let code = match &it.item_code {
        Some(c) => {
            let t = trim(c.as_str());
            if t.unicode_len() == 0 {
                return None;
            }
            t
        },
        None => {
            return None;
        },
    };
    let title: &str = match &it.title {
        Some(t) => {
            let x = trim(t.as_str());
            if x.unicode_len() == 0 {
                code
            } else {
                x
            }
        },
        None => code,
    };
    let required = match it.required {
        Some(b) => b,
        None => true,
    };
    let allow_na = match it.allow_na {
        Some(b) => b,
        None => false,
    };
    let order: i64 = match it.order {
        ItemOrderInput::Missing => #[verifier::truncate] ((index + 1) as i64),
        ItemOrderInput::Null => #[verifier::truncate] ((index + 1) as i64),
        ItemOrderInput::Int(v) => {
            if v < 0 {
                return None;
            }
            v
        },
        ItemOrderInput::Other => {
            return None;
        },
    };
    let level_in: Option<&str> = match &it.level {
        Some(l) => Some(l.as_str()),
        None => None,
    };
    let level = match DispatchService::normalize_checklist_level(level_in, required) {
        Ok(l) => l,
        Err(_) => {
            return None;
        },
    };
    Some(
        NormalizedTemplateItem {
            item_code: String::from_str(code),
            title: String::from_str(title),
            required,
            allow_na,
            order,
            level,
        },
    )
}

/// `v` lists the normalised submitted items strictly ordered by order, then code.
pub open spec fn template_items_normalized(v: Seq<NormalizedTemplateItem>, items: Seq<TemplateItemInput>) -> bool {
    &&& v.len() == items.len()
    &&& strictly_ordered(v)
    &&& outputs_covered(v, items, items.len() as int)
    &&& inputs_covered(v, items, items.len() as int)
}

/// Every item of `sorted` is the normalised form of one of the first `i`
/// submitted items.
#[verifier::opaque]
pub open spec fn outputs_covered(sorted: Seq<NormalizedTemplateItem>, items: Seq<TemplateItemInput>, i: int) -> bool {
    forall|k: int|
        0 <= k < sorted.len() ==> exists|j: int|
            0 <= j < i && normalized_item(items[j], j) == Some(item_view(#[trigger] sorted[k]))
}

/// Each of the first `i` submitted items is normalised somewhere in `sorted`.
#[verifier::opaque]
pub open spec fn inputs_covered(sorted: Seq<NormalizedTemplateItem>, items: Seq<TemplateItemInput>, i: int) -> bool {
    forall|j: int|
        0 <= j < i ==> exists|k: int| 0 <= k < sorted.len() && normalized_item(#[trigger] items[j], j) == Some(item_view(sorted[k]))
}

/// `s` is strictly ordered.
#[verifier::opaque]
pub open spec fn strictly_ordered(s: Seq<NormalizedTemplateItem>) -> bool {
    forall|a: int, b: int| 0 <= a < b < s.len() ==> item_before(#[trigger] s[a], #[trigger] s[b])
}

/// The first `i` submitted items are well formed with distinct codes.
#[verifier::opaque]
pub open spec fn prefix_accepted(items: Seq<TemplateItemInput>, i: int) -> bool {
    &&& forall|k: int| 0 <= k < i ==> (#[trigger] normalized_item(items[k], k)) is Some
    &&& forall|a: int, b: int| 0 <= a < b < i ==> #[trigger] submitted_code(items[a]) != #[trigger] submitted_code(items[b])
}

proof fn lemma_insert_ordered(old_s: Seq<NormalizedTemplateItem>, p: int, n: NormalizedTemplateItem)
    requires
        strictly_ordered(old_s),
        0 <= p <= old_s.len(),
        forall|k: int| 0 <= k < p ==> item_before(#[trigger] old_s[k], n),
        forall|k: int| p <= k < old_s.len() ==> item_before(n, #[trigger] old_s[k]),
    ensures
        strictly_ordered(old_s.insert(p, n)),
{
    reveal(strictly_ordered);
    let w = old_s.insert(p, n);
    assert forall|a: int, b: int| 0 <= a < b < w.len() implies item_before(#[trigger] w[a], #[trigger] w[b]) by {
        if b < p {
            assert(w[a] == old_s[a] && w[b] == old_s[b]);
        } else if b == p {
            assert(w[a] == old_s[a]);
        } else if a == p {
            assert(w[b] == old_s[b - 1]);
        } else if a < p {
            assert(w[a] == old_s[a] && w[b] == old_s[b - 1]);
        } else {
            assert(w[a] == old_s[a - 1] && w[b] == old_s[b - 1]);
        }
    }
}

proof fn lemma_insert_covered(
    old_s: Seq<NormalizedTemplateItem>,
    p: int,
    n: NormalizedTemplateItem,
    items: Seq<TemplateItemInput>,
    i: int,
)
    requires
        0 <= p <= old_s.len(),
        0 <= i < items.len(),
        normalized_item(items[i], i) == Some(item_view(n)),
        outputs_covered(old_s, items, i),
        inputs_covered(old_s, items, i),
        prefix_accepted(items, i),
        forall|k: int| 0 <= k < old_s.len() ==> (#[trigger] old_s[k]).item_code@ != n.item_code@,
        submitted_code(items[i]) == n.item_code@,
    ensures
        outputs_covered(old_s.insert(p, n), items, i + 1),
        inputs_covered(old_s.insert(p, n), items, i + 1),
        prefix_accepted(items, i + 1),
{
    reveal(outputs_covered);
    reveal(inputs_covered);
    reveal(prefix_accepted);
    let w = old_s.insert(p, n);
    assert forall|k: int|
        0 <= k < w.len() implies exists|j: int| 0 <= j < i + 1 && normalized_item(items[j], j) == Some(item_view(#[trigger] w[k])) by {
        if k < p {
            assert(w[k] == old_s[k]);
        } else if k > p {
            assert(w[k] == old_s[k - 1]);
        } else {
            assert(normalized_item(items[i], i) == Some(item_view(w[k])));
        }
    }
    assert forall|j: int|
        0 <= j < i + 1 implies exists|k: int| 0 <= k < w.len() && normalized_item(#[trigger] items[j], j) == Some(item_view(w[k])) by {
        if j < i {
            let k = choose|k: int| 0 <= k < old_s.len() && normalized_item(#[trigger] items[j], j) == Some(item_view(old_s[k]));
            if k < p {
                assert(w[k] == old_s[k]);
            } else {
                assert(w[k + 1] == old_s[k]);
            }
        } else {
            assert(w[p] == n);
        }
    }
    assert forall|a: int, b: int| 0 <= a < b < i + 1 implies #[trigger] submitted_code(items[a]) != #[trigger] submitted_code(items[b]) by {
        if b == i {
            let k = choose|k: int| 0 <= k < old_s.len() && normalized_item(#[trigger] items[a], a) == Some(item_view(old_s[k]));
            assert(submitted_code(items[a]) == old_s[k].item_code@);
        }
    }
}

impl DispatchService {
    /// A submitted template normalised: each item gets its trimmed code,
    /// its title (the code when it has none), `required` (default true),
    /// `allow_na` (default false), its order (default its position from
    /// one) and its level; the items come out by order, then code. An empty
    /// template, a malformed item or a repeated code is refused.
    pub fn normalize_safety_template_items(items: &Vec<TemplateItemInput>) -> (r: Result<
        Vec<NormalizedTemplateItem>,
        DispatchError,
    >)
        ensures
            !template_accepted(items@) ==> (r matches Err(DispatchError::BusinessRuleViolation(m)) && m@
                == invalid_template_message()),
            template_accepted(items@) ==> (r matches Ok(v) && template_items_normalized(v@, items@)),
    {
        if items.len() == 0 {
            return Err(Self::invalid_safety_template_request());
        }
        let mut sorted: Vec<NormalizedTemplateItem> = Vec::new();
        proof {
            reveal(strictly_ordered);
            reveal(outputs_covered);
            reveal(inputs_covered);
            reveal(prefix_accepted);
        }
        let mut i: usize = 0;
        while i < items.len()
            invariant
                i <= items@.len(),
                items@.len() > 0,
                prefix_accepted(items@, i as int),
                sorted@.len() == i,
                strictly_ordered(sorted@),
                outputs_covered(sorted@, items@, i as int),
                inputs_covered(sorted@, items@, i as int),
            decreases items@.len() - i,
        {
            let n = match normalize_item_exec(&items[i], i) {
                Some(n) => n,
                None => {
                    proof {
                        assert(normalized_item(items@[i as int], i as int) is None);
                        assert(!template_accepted(items@));
                    }
                    return Err(Self::invalid_safety_template_request());
                },
            };
            proof {
                assert(submitted_code(items@[i as int]) == n.item_code@);
            }
            let mut q: usize = 0;
            while q < sorted.len()
                invariant
                    q <= sorted@.len(),
                    i < items@.len(),
                    outputs_covered(sorted@, items@, i as int),
                    submitted_code(items@[i as int]) == n.item_code@,
                    forall|k: int| 0 <= k < q ==> (#[trigger] sorted@[k]).item_code@ != n.item_code@,
                decreases sorted@.len() - q,
            {
                if text_eq(sorted[q].item_code.as_str(), n.item_code.as_str()) {
                    proof {
                        reveal(outputs_covered);
                        let j = choose|j: int|
                            0 <= j < i && normalized_item(items@[j], j) == Some(item_view(#[trigger] sorted@[q as int]));
                        assert(submitted_code(items@[j]) == sorted@[q as int].item_code@);
                        assert(!template_accepted(items@)) by {
                            assert(submitted_code(items@[j]) == submitted_code(items@[i as int]));
                        }
                    }
                    return Err(Self::invalid_safety_template_request());
                }
                q = q + 1;
            }
            let mut p: usize = 0;
            while p < sorted.len() && item_before_exec(&sorted[p], &n)
                invariant
                    p <= sorted@.len(),
                    forall|k: int| 0 <= k < p ==> item_before(#[trigger] sorted@[k], n),
                decreases sorted@.len() - p,
            {
                p = p + 1;
            }
            let ghost old_s = sorted@;
            proof {
                reveal(strictly_ordered);
                assert forall|k: int| p <= k < old_s.len() implies item_before(n, #[trigger] old_s[k]) by {
                    lemma_before_total(old_s[p as int], n);
                    if k > p {
                        lemma_before_transitive(n, old_s[p as int], old_s[k]);
                    }
                }
                lemma_insert_ordered(old_s, p as int, n);
                lemma_insert_covered(old_s, p as int, n, items@, i as int);
            }
            sorted.insert(p, n);
            i = i + 1;
        }
        proof {
            reveal(prefix_accepted);
        }
        Ok(sorted)
    }
}

/// The message of a checklist item submission the template does not allow.
pub open spec fn invalid_item_message() -> Seq<char> {
    "invalid safety checklist item result"@
}

/// The message of a failed critical item without a note or on-site handling.
pub open spec fn critical_fail_message() -> Seq<char> {
    "critical fail item requires note or handled_on_site flag"@
}

/// The message of a malformed batch of checklist results.
pub open spec fn invalid_batch_message() -> Seq<char> {
    "invalid safety checklist batch submission"@
}

/// The first template item with code `code`.
pub open spec fn template_item_index(items: Seq<ChecklistTemplateItem>, code: Seq<char>, k: int) -> bool {
    &&& 0 <= k < items.len()
    &&& opt_chars(items[k].item_code) == Some(code)
    &&& forall|x: int| 0 <= x < k ==> opt_chars((#[trigger] items[x]).item_code) != Some(code)
}

/// Whether a template item is critical: its level says so, or it has none.
pub open spec fn item_is_critical(it: ChecklistTemplateItem) -> bool {
    match it.level {
        Some(l) => l@ == "critical"@,
        None => true,
    }
}

/// `r` is what submitting the normalised result `res` for template item
/// `it` gives.
pub open spec fn item_result(
    it: ChecklistTemplateItem,
    res: Seq<char>,
    note: Option<&str>,
    handled_on_site: bool,
    r: Result<String, DispatchError>,
) -> bool {
    if res == "na"@ && it.allow_na != Some(true) {
        r matches Err(DispatchError::BusinessRuleViolation(m)) && m@ == invalid_item_message()
    } else if item_is_critical(it) && res == "fail"@ && !handled_on_site && crate::rules::normalized_opt(
        match note {
            Some(n) => Some(n@),
            None => None,
        },
    ) is None {
        r matches Err(DispatchError::BusinessRuleViolation(m)) && m@ == critical_fail_message()
    } else {
        r matches Ok(x) && x@ == res
    }
}

/// `r` is what submitting `result` for item `code` gives under `template`.
pub open spec fn item_submission(
    template: Option<ChecklistTemplate>,
    code: Seq<char>,
    result: Option<&str>,
    note: Option<&str>,
    handled_on_site: bool,
    r: Result<String, DispatchError>,
) -> bool {
    match template {
        None => r matches Err(DispatchError::BusinessRuleViolation(m)) && m@ == invalid_item_message(),
        Some(t) => match checklist_result(result) {
            None => r matches Err(DispatchError::BusinessRuleViolation(m)) && m@ == invalid_item_message(),
            Some(res) => if forall|x: int|
                0 <= x < t.items@.len() ==> opt_chars((#[trigger] t.items@[x]).item_code) != Some(code) {
                r matches Err(DispatchError::BusinessRuleViolation(m)) && m@ == invalid_item_message()
            } else {
                exists|k: int|
                    template_item_index(t.items@, code, k) && item_result(
                        #[trigger] t.items@[k],
                        res,
                        note,
                        handled_on_site,
                        r,
                    )
            },
        },
    }
}

fn invalid_item() -> (e: DispatchError)
    ensures
        e matches DispatchError::BusinessRuleViolation(m) && m@ == invalid_item_message(),
{
    DispatchError::BusinessRuleViolation(String::from_str("invalid safety checklist item result"))
}

impl DispatchService {
    /// Checks a checklist result for one item against the order's template:
    /// the template must exist, the result be `pass`, `fail` or `na`, the
    /// item be in the template, `na` be allowed for it, and a failed
    /// critical item carry a note or be handled on site. Gives the
    /// normalised result.
    pub fn validate_checklist_item_submission(
        template: Option<&ChecklistTemplate>,
        item_code: &str,
        result: Option<&str>,
        note: Option<&str>,
        handled_on_site: bool,
    ) -> (r: Result<String, DispatchError>)
        ensures
            item_submission(
                match template {
                    Some(t) => Some(*t),
                    None => None,
                },
                item_code@,
                result,
                note,
                handled_on_site,
                r,
            ),
    {
        let t = match template {
            Some(t) => t,
            None => {
                return Err(invalid_item());
            },
        };
        let res = match Self::normalize_checklist_result(result) {
            Ok(x) => x,
            Err(e) => {
                return Err(e);
            },
        };
        let mut k: usize = 0;
        while k < t.items.len()
            invariant
                k <= t.items@.len(),
                checklist_result(result) == Some(res@),
                template == Some(t),
                forall|x: int| 0 <= x < k ==> opt_chars((#[trigger] t.items@[x]).item_code) != Some(item_code@),
            decreases t.items@.len() - k,
        {
            let found = match &t.items[k].item_code {
                Some(c) => text_eq(c.as_str(), item_code),
                None => false,
            };
            if found {
                let it = &t.items[k];
                assert(template_item_index(t.items@, item_code@, k as int));
                proof {
                    reveal_strlit("na");
                    reveal_strlit("fail");
                    reveal_strlit("critical");
                }
                let allow_na = match it.allow_na {
                    Some(b) => b,
                    None => false,
                };
                if text_eq(res, "na") && !allow_na {
                    let out: Result<String, DispatchError> = Err(invalid_item());
                    assert(item_result(t.items@[k as int], res@, note, handled_on_site, out));
                    return out;
                }
                let critical = match &it.level {
                    Some(l) => text_eq(l.as_str(), "critical"),
                    None => true,
                };
                if critical && text_eq(res, "fail") && !handled_on_site && Self::normalize_optional_ref(note).is_none() {
                    let out: Result<String, DispatchError> = Err(
                        DispatchError::BusinessRuleViolation(
                            String::from_str("critical fail item requires note or handled_on_site flag"),
                        ),
                    );
                    assert(item_result(t.items@[k as int], res@, note, handled_on_site, out));
                    return out;
                }
                let out: Result<String, DispatchError> = Ok(res.to_string());
                assert(item_result(t.items@[k as int], res@, note, handled_on_site, out));
                return out;
            }
            k = k + 1;
        }
        Err(invalid_item())
    }

    /// The code of the next item of a batch of checklist results: trimmed,
    /// not blank and not given before in the batch (`seen`).
    pub fn batch_item_code(item_code: &str, seen: &Vec<String>) -> (r: Result<String, DispatchError>)
        ensures
            if is_blank(item_code@) || has_id(seen@, trimmed(item_code@)) {
                r matches Err(DispatchError::BusinessRuleViolation(m)) && m@ == invalid_batch_message()
            } else {
                r matches Ok(c) && c@ == trimmed(item_code@)
            },
    {
        let t = trim(item_code);
        if t.unicode_len() == 0 || crate::idset::list_has(seen, t) {
            return Err(DispatchError::BusinessRuleViolation(String::from_str("invalid safety checklist batch submission")));
        }
        Ok(t.to_string())
    }
}

/// What a recorded result makes of an item: a pass is done, and so is a
/// not-applicable result where the item allows it; no result leaves it
/// pending; any other result (a not-applicable one included, where the item
/// does not allow it) fails.
pub proof fn law_checklist_result_outcome(result: Option<Seq<char>>, allow_na: bool)
    ensures
        result == Some("pass"@) ==> outcome_of(result, allow_na) == CheckOutcome::Done,
        result == Some("na"@) && allow_na ==> outcome_of(result, allow_na) == CheckOutcome::Done,
        result == Some("na"@) && !allow_na ==> outcome_of(result, allow_na) == CheckOutcome::Failed,
        result == Some("fail"@) ==> outcome_of(result, allow_na) == CheckOutcome::Failed,
        result is None ==> outcome_of(result, allow_na) == CheckOutcome::Pending,
        result matches Some(r) && r != "pass"@ && r != "na"@ ==> outcome_of(result, allow_na) == CheckOutcome::Failed,
{
    reveal_strlit("pass");
    reveal_strlit("na");
    reveal_strlit("fail");
    assert("na"@.len() == 2 && "pass"@.len() == 4 && "fail"@.len() == 4);
    assert("fail"@[0] != "pass"@[0]);
    assert("na"@ != "pass"@);
    assert("fail"@ != "pass"@);
    assert("fail"@ != "na"@);
}

/// A required critical item whose last record is a not-applicable result
/// that the item allows is done: it never blocks completion.
pub proof fn law_allowed_na_item_is_done(records: Seq<ChecklistRecord>, it: ChecklistTemplateItem)
    requires
        record_result(records, item_code_of(it)) == Some("na"@),
        item_allow_na(it),
    ensures
        item_outcome(records, it) == CheckOutcome::Done,
{
}

} // verus!
