//! The facts of a flight that generation rules read, laid out per leg:
//! which legs an order can be generated for, and the value of each field
//! the rules' conditions and anchors name.

use vstd::prelude::*;
use crate::model::{is_instant, MIN_TIMESTAMP};
use crate::generation::{ContextEntry, ContextValue, LegContext, context_value, context_wf, rfc3339_seconds};
use crate::text::{owned, trim, trimmed, decimal, append_decimal};
use crate::publication::opt_chars;

verus! {

/// Domestic, international or regional.
#[derive(Clone, Copy, Debug, PartialEq, Eq, Structural)]
pub enum FlightNature {
    Domestic,
    Intl,
    Region,
}

/// Operational status of a flight.
#[derive(Clone, Copy, Debug, PartialEq, Eq, Structural)]
pub enum FlightStatus {
    Scheduled,
    PrevDeparted,
    Arrived,
    CheckInEnd,
    Boarding,
    BoardingUrge,
    BoardingEnd,
    Departed,
    NextArrived,
    Cancelled,
    Delayed,
}

/// One leg of a flight, as generation reads it.
pub struct FlightLegFacts {
    pub stand_type: Option<String>,
    pub flight_type: FlightNature,
    pub is_vip: bool,
    pub scheduled_time: Option<i64>,
}

/// A flight, as generation reads it; instants are whole seconds since the
/// epoch. `is_turnaround` is the flight's own verdict on whether it turns
/// around on the stand.
pub struct FlightFacts {
    pub terminal: Option<String>,
    pub aircraft_type: Option<String>,
    pub registration: Option<String>,
    pub inbound_leg: Option<FlightLegFacts>,
    pub outbound_leg: Option<FlightLegFacts>,
    pub is_turnaround: bool,
    pub scheduled_arrival: Option<i64>,
    pub estimated_arrival: Option<i64>,
    pub actual_arrival: Option<i64>,
    pub scheduled_departure: Option<i64>,
    pub estimated_departure: Option<i64>,
    pub actual_departure: Option<i64>,
    pub status: FlightStatus,
    pub has_boarding_restriction: bool,
    pub is_quick_turnaround: bool,
    pub is_commercial_signed: bool,
}

/// The contexts of the two legs; a leg the flight does not have, and has
/// no time for, has none.
pub struct FlightLegContexts {
    pub inbound: Option<LegContext>,
    pub outbound: Option<LegContext>,
}

/// What chrono's `to_rfc3339_opts(SecondsFormat::AutoSi, true)` writes for
/// the UTC instant `t` whole seconds after the epoch (the form in which a
/// UTC time is written to JSON).
pub uninterp spec fn rfc3339_utc_text(t: int) -> Seq<char>;

/// First instant of year 0: earlier years are written with a sign.
pub const FIRST_FOUR_DIGIT_YEAR_SECOND: i64 = -62167219200;

/// Last instant of year 9999: later years are written with a sign.
pub const LAST_FOUR_DIGIT_YEAR_SECOND: i64 = 253402300799;

/// `chrono::DateTime::from_timestamp(t, 0)` then
/// `to_rfc3339_opts(SecondsFormat::AutoSi, true)`: the text of a
/// representable instant, named, not written out. A time of a four-digit
/// year is written as RFC 3339, so `parse_from_rfc3339` reads it back.
#[verifier::external_body]
pub(crate) fn instant_json_text(t: i64) -> (r: String)
    requires
        is_instant(t as int),
    ensures
        r@ == rfc3339_utc_text(t as int),
        FIRST_FOUR_DIGIT_YEAR_SECOND <= t <= LAST_FOUR_DIGIT_YEAR_SECOND ==> rfc3339_seconds(r@) == Some(t),
{
    match chrono::DateTime::from_timestamp(t, 0) {
        Some(d) => d.to_rfc3339_opts(chrono::SecondsFormat::AutoSi, true),
        None => String::new(),
    }
}

/// A context value by its contents.
pub enum ValueView {
    Null,
    Bool(bool),
    Text(Seq<char>),
    Other(Seq<char>),
}

/// A context value by its contents.
pub open spec fn value_view(v: ContextValue) -> ValueView {
    match v {
        ContextValue::Null => ValueView::Null,
        ContextValue::Bool(b) => ValueView::Bool(b),
        ContextValue::Text(s) => ValueView::Text(s@),
        ContextValue::Other(s) => ValueView::Other(s@),
    }
}

/// The fields of a context and their values.
pub open spec fn context_map(c: Seq<ContextEntry>) -> Map<Seq<char>, ValueView> {
    Map::new(|k: Seq<char>| context_value(c, k) is Some, |k: Seq<char>| value_view(context_value(c, k).unwrap()))
}

/// A text, or null where there is none.
pub open spec fn text_or_null(o: Option<Seq<char>>) -> ValueView {
    match o {
        Some(t) => ValueView::Text(t),
        None => ValueView::Null,
    }
}

/// An instant as text, or null where there is none.
pub open spec fn time_or_null(o: Option<i64>) -> ValueView {
    match o {
        Some(t) => ValueView::Text(rfc3339_utc_text(t as int)),
        None => ValueView::Null,
    }
}

/// A time, or `fallback` where there is none.
pub open spec fn time_or(o: Option<i64>, fallback: i64) -> i64 {
    match o {
        Some(t) => t,
        None => fallback,
    }
}

/// A text trimmed, none where it is blank.
pub open spec fn trimmed_present(o: Option<Seq<char>>) -> Option<Seq<char>> {
    match o {
        Some(t) => if trimmed(t).len() == 0 {
            None
        } else {
            Some(trimmed(t))
        },
        None => None,
    }
}

/// The text the service stores for a flight status.
pub open spec fn flight_status_text(s: FlightStatus) -> Seq<char> {
    match s {
        FlightStatus::Scheduled => "SCHEDULED"@,
        FlightStatus::PrevDeparted => "PREV_DEPARTED"@,
        FlightStatus::Arrived => "ARRIVED"@,
        FlightStatus::CheckInEnd => "CHECK_IN_END"@,
        FlightStatus::Boarding => "BOARDING"@,
        FlightStatus::BoardingUrge => "BOARDING_URGE"@,
        FlightStatus::BoardingEnd => "BOARDING_END"@,
        FlightStatus::Departed => "DEPARTED"@,
        FlightStatus::NextArrived => "NEXT_ARRIVED"@,
        FlightStatus::Cancelled => "CANCELLED"@,
        FlightStatus::Delayed => "DELAYED"@,
    }
}

/// The text the service stores for a flight nature.
pub open spec fn flight_nature_text(n: FlightNature) -> Seq<char> {
    match n {
        FlightNature::Domestic => "domestic"@,
        FlightNature::Intl => "intl"@,
        FlightNature::Region => "region"@,
    }
}

/// The time the flight arrives by: actual, else estimated, else scheduled arrival, else `eta`.
pub open spec fn arrival_anchor(f: Option<FlightFacts>, eta: i64) -> i64 {
    match f {
        Some(x) => time_or(x.actual_arrival, time_or(x.estimated_arrival, time_or(x.scheduled_arrival, eta))),
        None => eta,
    }
}

/// The time the flight departs by: estimated, else scheduled, else actual departure, else `etd`.
pub open spec fn departure_anchor(f: Option<FlightFacts>, etd: i64) -> i64 {
    match f {
        Some(x) => time_or(x.estimated_departure, time_or(x.scheduled_departure, time_or(x.actual_departure, etd))),
        None => etd,
    }
}

/// Seconds as minutes, rounded half away from zero.
pub open spec fn rounded_minutes(s: int) -> int {
    if s >= 0 {
        (s + 30) / 60
    } else {
        -((-s + 30) / 60)
    }
}

/// The terminal of the order: the one given, trimmed, else the flight's.
pub open spec fn resolved_terminal(f: Option<FlightFacts>, terminal: Option<Seq<char>>) -> Option<Seq<char>> {
    match trimmed_present(terminal) {
        Some(t) => Some(t),
        None => match f {
            Some(x) => opt_chars(x.terminal),
            None => None,
        },
    }
}

/// The stand type of the flight: that of its inbound leg, else its outbound leg.
pub open spec fn flight_stand_type(f: Option<FlightFacts>) -> Option<Seq<char>> {
    match f {
        Some(x) => match (match x.inbound_leg {
            Some(l) => opt_chars(l.stand_type),
            None => None,
        }) {
            Some(t) => Some(t),
            None => match x.outbound_leg {
                Some(l) => opt_chars(l.stand_type),
                None => None,
            },
        },
        None => None,
    }
}

/// Whether the flight turns around on the stand; a stand without a flight record does.
pub open spec fn turns_around(f: Option<FlightFacts>) -> bool {
    match f {
        Some(x) => x.is_turnaround,
        None => true,
    }
}

/// The fields both legs share.
pub open spec fn shared_fields(
    f: Option<FlightFacts>,
    flight_id: Seq<char>,
    stand_id: Seq<char>,
    eta: i64,
    etd: i64,
    terminal: Option<Seq<char>>,
) -> Map<Seq<char>, ValueView> {
    let arrival = arrival_anchor(f, eta);
    let departure = departure_anchor(f, etd);
    Map::empty()
        .insert("flight_id"@, ValueView::Text(flight_id))
        .insert("terminal"@, text_or_null(resolved_terminal(f, terminal)))
        .insert("stand_id"@, ValueView::Text(stand_id))
        .insert("stand_type"@, text_or_null(flight_stand_type(f)))
        .insert("stand_area"@, ValueView::Null)
        .insert("aircraft_type"@, text_or_null(match f { Some(x) => trimmed_present(opt_chars(x.aircraft_type)), None => None }))
        .insert("registration"@, text_or_null(match f { Some(x) => trimmed_present(opt_chars(x.registration)), None => None }))
        .insert("is_turnaround"@, ValueView::Bool(turns_around(f)))
        .insert("turnaround_pair_key"@, if turns_around(f) { ValueView::Text(flight_id) } else { ValueView::Null })
        .insert("arrival_anchor_time"@, ValueView::Text(rfc3339_utc_text(arrival as int)))
        .insert("departure_anchor_time"@, ValueView::Text(rfc3339_utc_text(departure as int)))
        .insert("delta_t_minutes"@, ValueView::Other(decimal(rounded_minutes(departure - arrival))))
        .insert("minimum_turnaround_minutes"@, ValueView::Null)
        .insert("slack_minutes"@, ValueView::Null)
        .insert("flight_status"@, text_or_null(match f { Some(x) => Some(flight_status_text(x.status)), None => None }))
        .insert("has_boarding_restriction"@, ValueView::Bool(f matches Some(x) && x.has_boarding_restriction))
        .insert("is_quick_turnaround"@, ValueView::Bool(f matches Some(x) && x.is_quick_turnaround))
        .insert("is_commercial_signed"@, ValueView::Bool(f matches Some(x) && x.is_commercial_signed))
}

/// The fields of a leg the flight has: its nature, VIP flag and scheduled
/// time (else `fallback`), and the flight's times, given ones falling back
/// to `eta` and `etd`.
pub open spec fn leg_fields(
    base: Map<Seq<char>, ValueView>,
    scope: Seq<char>,
    x: FlightFacts,
    leg: FlightLegFacts,
    fallback: i64,
    eta: i64,
    etd: i64,
) -> Map<Seq<char>, ValueView> {
    base.insert("leg_scope"@, ValueView::Text(scope))
        .insert("flight_nature"@, ValueView::Text(flight_nature_text(leg.flight_type)))
        .insert("is_vip"@, ValueView::Bool(leg.is_vip))
        .insert("scheduled_time"@, ValueView::Text(rfc3339_utc_text(time_or(leg.scheduled_time, fallback) as int)))
        .insert("scheduled_arrival"@, ValueView::Text(rfc3339_utc_text(time_or(x.scheduled_arrival, eta) as int)))
        .insert("estimated_arrival"@, ValueView::Text(rfc3339_utc_text(time_or(x.estimated_arrival, eta) as int)))
        .insert("actual_arrival"@, time_or_null(x.actual_arrival))
        .insert("scheduled_departure"@, ValueView::Text(rfc3339_utc_text(time_or(x.scheduled_departure, etd) as int)))
        .insert("estimated_departure"@, ValueView::Text(rfc3339_utc_text(time_or(x.estimated_departure, etd) as int)))
        .insert("actual_departure"@, time_or_null(x.actual_departure))
}

/// The fields of a leg the flight lacks but has a time for: a domestic,
/// non-VIP leg scheduled at `scheduled`, arriving at `eta` and departing at
/// `etd`, with no actual times.
pub open spec fn fallback_leg_fields(
    base: Map<Seq<char>, ValueView>,
    scope: Seq<char>,
    scheduled: i64,
    eta: i64,
    etd: i64,
) -> Map<Seq<char>, ValueView> {
    base.insert("leg_scope"@, ValueView::Text(scope))
        .insert("flight_nature"@, ValueView::Text("domestic"@))
        .insert("is_vip"@, ValueView::Bool(false))
        .insert("scheduled_time"@, ValueView::Text(rfc3339_utc_text(scheduled as int)))
        .insert("scheduled_arrival"@, ValueView::Text(rfc3339_utc_text(eta as int)))
        .insert("estimated_arrival"@, ValueView::Text(rfc3339_utc_text(eta as int)))
        .insert("actual_arrival"@, ValueView::Null)
        .insert("scheduled_departure"@, ValueView::Text(rfc3339_utc_text(etd as int)))
        .insert("estimated_departure"@, ValueView::Text(rfc3339_utc_text(etd as int)))
        .insert("actual_departure"@, ValueView::Null)
}

/// The fields of the inbound leg, where there is one: the flight's inbound
/// leg, else (with a known `eta`) a fallback leg scheduled at `eta`.
pub open spec fn inbound_fields(
    f: Option<FlightFacts>,
    flight_id: Seq<char>,
    stand_id: Seq<char>,
    eta: i64,
    etd: i64,
    terminal: Option<Seq<char>>,
) -> Option<Map<Seq<char>, ValueView>> {
    let base = shared_fields(f, flight_id, stand_id, eta, etd, terminal);
    let fallback = if eta != MIN_TIMESTAMP {
        Some(fallback_leg_fields(base, "inbound"@, eta, eta, etd))
    } else {
        None
    };
    match f {
        Some(x) => match x.inbound_leg {
            Some(l) => Some(leg_fields(base, "inbound"@, x, l, eta, eta, etd)),
            None => fallback,
        },
        None => fallback,
    }
}

/// The fields of the outbound leg, where there is one: the flight's
/// outbound leg, else (with a known `etd`) a fallback leg scheduled at `etd`.
pub open spec fn outbound_fields(
    f: Option<FlightFacts>,
    flight_id: Seq<char>,
    stand_id: Seq<char>,
    eta: i64,
    etd: i64,
    terminal: Option<Seq<char>>,
) -> Option<Map<Seq<char>, ValueView>> {
    let base = shared_fields(f, flight_id, stand_id, eta, etd, terminal);
    let fallback = if etd != MIN_TIMESTAMP {
        Some(fallback_leg_fields(base, "outbound"@, etd, eta, etd))
    } else {
        None
    };
    match f {
        Some(x) => match x.outbound_leg {
            Some(l) => Some(leg_fields(base, "outbound"@, x, l, etd, eta, etd)),
            None => fallback,
        },
        None => fallback,
    }
}

/// A leg context by its fields.
pub open spec fn leg_map(c: Option<LegContext>) -> Option<Map<Seq<char>, ValueView>> {
    match c {
        Some(x) => Some(context_map(x.entries@)),
        None => None,
    }
}

/// Whether every instant of the flight, and `eta` and `etd`, is representable.
pub open spec fn flight_times_representable(f: Option<FlightFacts>, eta: i64, etd: i64) -> bool {
    &&& is_instant(eta as int)
    &&& is_instant(etd as int)
    &&& f matches Some(x) ==> {
        &&& (x.scheduled_arrival matches Some(t) ==> is_instant(t as int))
        &&& (x.estimated_arrival matches Some(t) ==> is_instant(t as int))
        &&& (x.actual_arrival matches Some(t) ==> is_instant(t as int))
        &&& (x.scheduled_departure matches Some(t) ==> is_instant(t as int))
        &&& (x.estimated_departure matches Some(t) ==> is_instant(t as int))
        &&& (x.actual_departure matches Some(t) ==> is_instant(t as int))
        &&& (x.inbound_leg matches Some(l) ==> (l.scheduled_time matches Some(t) ==> is_instant(t as int)))
        &&& (x.outbound_leg matches Some(l) ==> (l.scheduled_time matches Some(t) ==> is_instant(t as int)))
    }
}


/// Whether `t` falls in a year written with four digits (0 to 9999).
pub open spec fn four_digit_year(t: i64) -> bool {
    FIRST_FOUR_DIGIT_YEAR_SECOND <= t <= LAST_FOUR_DIGIT_YEAR_SECOND
}

/// The scheduled time of the inbound leg: the leg's own, else `eta`.
pub open spec fn inbound_scheduled(f: Option<FlightFacts>, eta: i64) -> i64 {
    match f {
        Some(x) => match x.inbound_leg {
            Some(l) => time_or(l.scheduled_time, eta),
            None => eta,
        },
        None => eta,
    }
}

/// The scheduled time of the outbound leg: the leg's own, else `etd`.
pub open spec fn outbound_scheduled(f: Option<FlightFacts>, etd: i64) -> i64 {
    match f {
        Some(x) => match x.outbound_leg {
            Some(l) => time_or(l.scheduled_time, etd),
            None => etd,
        },
        None => etd,
    }
}

/// A borrowed flight, by value.
pub open spec fn facts_of(f: Option<&FlightFacts>) -> Option<FlightFacts> {
    match f {
        Some(x) => Some(*x),
        None => None,
    }
}

fn put(ctx: &mut LegContext, key: &str, value: ContextValue)
    requires
        context_wf(old(ctx).entries@),
    ensures
        context_wf(final(ctx).entries@),
        context_map(final(ctx).entries@) == context_map(old(ctx).entries@).insert(key@, value_view(value)),
{
    let ghost v = value_view(value);
    ctx.insert(owned(key), value);
    assert(context_map(ctx.entries@) =~= context_map(old(ctx).entries@).insert(key@, v));
}

fn text_value(o: Option<String>) -> (r: ContextValue)
    ensures
        value_view(r) == text_or_null(opt_chars(o)),
{
    match o {
        Some(s) => ContextValue::Text(s),
        None => ContextValue::Null,
    }
}

fn time_value(t: i64) -> (r: ContextValue)
    requires
        is_instant(t as int),
    ensures
        value_view(r) == ValueView::Text(rfc3339_utc_text(t as int)),
        four_digit_year(t) ==> rfc3339_seconds(rfc3339_utc_text(t as int)) == Some(t),
{
    ContextValue::Text(instant_json_text(t))
}

fn optional_time_value(o: Option<i64>) -> (r: ContextValue)
    requires
        o matches Some(t) ==> is_instant(t as int),
    ensures
        value_view(r) == time_or_null(o),
{
    match o {
        Some(t) => time_value(t),
        None => ContextValue::Null,
    }
}

fn trimmed_text(o: &Option<String>) -> (r: Option<String>)
    ensures
        opt_chars(r) == trimmed_present(opt_chars(*o)),
{
    match o {
        Some(s) => {
            let t = trim(s.as_str());
            if t.unicode_len() == 0 {
                None
            } else {
                Some(owned(t))
            }
        },
        None => None,
    }
}

fn copy_text(o: &Option<String>) -> (r: Option<String>)
    ensures
        opt_chars(r) == opt_chars(*o),
{
    crate::text::copy_opt(o)
}

fn or_time(o: Option<i64>, fallback: i64) -> (r: i64)
    ensures
        r == time_or(o, fallback),
{
    match o {
        Some(t) => t,
        None => fallback,
    }
}

impl crate::rules::DispatchService {
    /// The status of a flight as the service stores it; none without a flight.
    pub fn flight_status_name(flight: Option<&FlightFacts>) -> (r: Option<String>)
        ensures
            opt_chars(r) == match flight {
                Some(x) => Some(flight_status_text(x.status)),
                None => None,
            },
    {
        let status = match flight {
            Some(x) => x.status,
            None => {
                return None;
            },
        };
        let value = match status {
            FlightStatus::Scheduled => "SCHEDULED",
            FlightStatus::PrevDeparted => "PREV_DEPARTED",
            FlightStatus::Arrived => "ARRIVED",
            FlightStatus::CheckInEnd => "CHECK_IN_END",
            FlightStatus::Boarding => "BOARDING",
            FlightStatus::BoardingUrge => "BOARDING_URGE",
            FlightStatus::BoardingEnd => "BOARDING_END",
            FlightStatus::Departed => "DEPARTED",
            FlightStatus::NextArrived => "NEXT_ARRIVED",
            FlightStatus::Cancelled => "CANCELLED",
            FlightStatus::Delayed => "DELAYED",
        };
        Some(owned(value))
    }

    /// The nature of a flight leg as the service stores it.
    pub fn flight_nature_value(n: FlightNature) -> (r: &'static str)
        ensures
            r@ == flight_nature_text(n),
    {
        match n {
            FlightNature::Domestic => "domestic",
            FlightNature::Intl => "intl",
            FlightNature::Region => "region",
        }
    }
}

fn shared_context(
    flight: Option<&FlightFacts>,
    flight_id: &str,
    stand_id: &str,
    eta: i64,
    etd: i64,
    terminal: Option<&str>,
) -> (c: LegContext)
    requires
        flight_times_representable(facts_of(flight), eta, etd),
    ensures
        context_wf(c.entries@),
        context_map(c.entries@) == shared_fields(facts_of(flight), flight_id@, stand_id@, eta, etd, crate::generation::opt_view(terminal)),
{
    let ghost f = facts_of(flight);
    let given: Option<String> = match terminal {
        Some(t) => {
            let tt = trim(t);
            if tt.unicode_len() == 0 {
                None
            } else {
                Some(owned(tt))
            }
        },
        None => None,
    };
    let resolved: Option<String> = match given {
        Some(t) => Some(t),
        None => match flight {
            Some(x) => copy_text(&x.terminal),
            None => None,
        },
    };
    let stand_type: Option<String> = match flight {
        Some(x) => {
            let inbound: Option<String> = match &x.inbound_leg {
                Some(l) => copy_text(&l.stand_type),
                None => None,
            };
            match inbound {
                Some(t) => Some(t),
                None => match &x.outbound_leg {
                    Some(l) => copy_text(&l.stand_type),
                    None => None,
                },
            }
        },
        None => None,
    };
    let aircraft: Option<String> = match flight {
        Some(x) => trimmed_text(&x.aircraft_type),
        None => None,
    };
    let registration: Option<String> = match flight {
        Some(x) => trimmed_text(&x.registration),
        None => None,
    };
    let is_turnaround = match flight {
        Some(x) => x.is_turnaround,
        None => true,
    };
    let arrival: i64 = match flight {
        Some(x) => or_time(x.actual_arrival, or_time(x.estimated_arrival, or_time(x.scheduled_arrival, eta))),
        None => eta,
    };
    let departure: i64 = match flight {
        Some(x) => or_time(x.estimated_departure, or_time(x.scheduled_departure, or_time(x.actual_departure, etd))),
        None => etd,
    };
    let seconds: i64 = departure - arrival;
    let minutes: i64 = if seconds >= 0 {
        (seconds + 30) / 60
    } else {
        -((-seconds + 30) / 60)
    };
    let mut delta = String::new();
    append_decimal(&mut delta, minutes);
    assert(delta@ =~= decimal(rounded_minutes(departure - arrival)));
    let mut c = LegContext::new();
    assert(context_map(c.entries@) =~= Map::<Seq<char>, ValueView>::empty());
    put(&mut c, "flight_id", ContextValue::Text(owned(flight_id)));
    put(&mut c, "terminal", text_value(resolved));
    put(&mut c, "stand_id", ContextValue::Text(owned(stand_id)));
    put(&mut c, "stand_type", text_value(stand_type));
    put(&mut c, "stand_area", ContextValue::Null);
    put(&mut c, "aircraft_type", text_value(aircraft));
    put(&mut c, "registration", text_value(registration));
    put(&mut c, "is_turnaround", ContextValue::Bool(is_turnaround));
    put(
        &mut c,
        "turnaround_pair_key",
        if is_turnaround {
            ContextValue::Text(owned(flight_id))
        } else {
            ContextValue::Null
        },
    );
    put(&mut c, "arrival_anchor_time", time_value(arrival));
    put(&mut c, "departure_anchor_time", time_value(departure));
    put(&mut c, "delta_t_minutes", ContextValue::Other(delta));
    put(&mut c, "minimum_turnaround_minutes", ContextValue::Null);
    put(&mut c, "slack_minutes", ContextValue::Null);
    put(&mut c, "flight_status", text_value(crate::rules::DispatchService::flight_status_name(flight)));
    put(&mut c, "has_boarding_restriction", ContextValue::Bool(match flight {
        Some(x) => x.has_boarding_restriction,
        None => false,
    }));
    put(&mut c, "is_quick_turnaround", ContextValue::Bool(match flight {
        Some(x) => x.is_quick_turnaround,
        None => false,
    }));
    put(&mut c, "is_commercial_signed", ContextValue::Bool(match flight {
        Some(x) => x.is_commercial_signed,
        None => false,
    }));
    c
}

fn add_leg_fields(
    c: &mut LegContext,
    scope: &str,
    x: &FlightFacts,
    leg: &FlightLegFacts,
    fallback: i64,
    eta: i64,
    etd: i64,
)
    requires
        context_wf(old(c).entries@),
        flight_times_representable(Some(*x), eta, etd),
        is_instant(fallback as int),
        leg.scheduled_time matches Some(t) ==> is_instant(t as int),
    ensures
        context_wf(final(c).entries@),
        context_map(final(c).entries@) == leg_fields(context_map(old(c).entries@), scope@, *x, *leg, fallback, eta, etd),
        four_digit_year(time_or(leg.scheduled_time, fallback)) ==> rfc3339_seconds(
            rfc3339_utc_text(time_or(leg.scheduled_time, fallback) as int),
        ) == Some(time_or(leg.scheduled_time, fallback)),
{
    put(c, "leg_scope", ContextValue::Text(owned(scope)));
    put(c, "flight_nature", ContextValue::Text(owned(crate::rules::DispatchService::flight_nature_value(leg.flight_type))));
    put(c, "is_vip", ContextValue::Bool(leg.is_vip));
    put(c, "scheduled_time", time_value(or_time(leg.scheduled_time, fallback)));
    put(c, "scheduled_arrival", time_value(or_time(x.scheduled_arrival, eta)));
    put(c, "estimated_arrival", time_value(or_time(x.estimated_arrival, eta)));
    put(c, "actual_arrival", optional_time_value(x.actual_arrival));
    put(c, "scheduled_departure", time_value(or_time(x.scheduled_departure, etd)));
    put(c, "estimated_departure", time_value(or_time(x.estimated_departure, etd)));
    put(c, "actual_departure", optional_time_value(x.actual_departure));
}

fn add_fallback_leg_fields(c: &mut LegContext, scope: &str, scheduled: i64, eta: i64, etd: i64)
    requires
        context_wf(old(c).entries@),
        is_instant(scheduled as int),
        is_instant(eta as int),
        is_instant(etd as int),
    ensures
        context_wf(final(c).entries@),
        context_map(final(c).entries@) == fallback_leg_fields(context_map(old(c).entries@), scope@, scheduled, eta, etd),
        four_digit_year(scheduled) ==> rfc3339_seconds(rfc3339_utc_text(scheduled as int)) == Some(scheduled),
{
    put(c, "leg_scope", ContextValue::Text(owned(scope)));
    put(c, "flight_nature", ContextValue::Text(owned("domestic")));
    put(c, "is_vip", ContextValue::Bool(false));
    put(c, "scheduled_time", time_value(scheduled));
    put(c, "scheduled_arrival", time_value(eta));
    put(c, "estimated_arrival", time_value(eta));
    put(c, "actual_arrival", ContextValue::Null);
    put(c, "scheduled_departure", time_value(etd));
    put(c, "estimated_departure", time_value(etd));
    put(c, "actual_departure", ContextValue::Null);
}

proof fn lemma_distinct_time_fields()
    ensures
        "scheduled_time"@ != "scheduled_arrival"@,
        "scheduled_time"@ != "estimated_arrival"@,
        "scheduled_time"@ != "actual_arrival"@,
        "scheduled_time"@ != "scheduled_departure"@,
        "scheduled_time"@ != "estimated_departure"@,
        "scheduled_time"@ != "actual_departure"@,
{
    reveal_strlit("scheduled_time");
    reveal_strlit("scheduled_arrival");
    reveal_strlit("estimated_arrival");
    reveal_strlit("actual_arrival");
    reveal_strlit("scheduled_departure");
    reveal_strlit("estimated_departure");
    reveal_strlit("actual_departure");
    assert("scheduled_time"@.len() == 14);
    assert("scheduled_arrival"@.len() == 17);
    assert("estimated_arrival"@.len() == 17);
    assert("actual_arrival"@[0] == 'a');
    assert("scheduled_time"@[0] == 's');
    assert("scheduled_departure"@.len() == 19);
    assert("estimated_departure"@.len() == 19);
    assert("actual_departure"@.len() == 16);
}

proof fn lemma_scheduled_anchor(c: Seq<ContextEntry>, scheduled: i64)
    requires
        context_map(c).dom().contains("scheduled_time"@),
        context_map(c)["scheduled_time"@] == ValueView::Text(rfc3339_utc_text(scheduled as int)),
        four_digit_year(scheduled) ==> rfc3339_seconds(rfc3339_utc_text(scheduled as int)) == Some(scheduled),
    ensures
        four_digit_year(scheduled) ==> crate::generation::anchor_instant(c, "scheduled_time"@) == Some(scheduled),
{
    lemma_distinct_time_fields();
    assert(context_value(c, "scheduled_time"@) is Some);
    if four_digit_year(scheduled) {
        assert(crate::generation::context_instant(c, "scheduled_time"@) == Some(scheduled));
        assert(crate::generation::anchor_fields("scheduled_time"@) == seq!["scheduled_time"]);
        assert(crate::generation::first_instant(c, seq!["scheduled_time"].drop_first()) is None);
    }
}

impl crate::rules::DispatchService {
    /// The contexts of the legs of a flight at a stand, from which orders are
    /// generated: a leg the flight has, or a leg it lacks but has a time for
    /// (`eta` inbound, `etd` outbound, the earliest instant standing for none).
    pub fn build_flight_leg_contexts(
        flight: Option<&FlightFacts>,
        flight_id: &str,
        stand_id: &str,
        eta: i64,
        etd: i64,
        terminal: Option<&str>,
    ) -> (r: FlightLegContexts)
        requires
            flight_times_representable(facts_of(flight), eta, etd),
        ensures
            leg_map(r.inbound) == inbound_fields(facts_of(flight), flight_id@, stand_id@, eta, etd, crate::generation::opt_view(terminal)),
            leg_map(r.outbound) == outbound_fields(facts_of(flight), flight_id@, stand_id@, eta, etd, crate::generation::opt_view(terminal)),
            r.inbound matches Some(c) ==> context_wf(c.entries@),
            r.outbound matches Some(c) ==> context_wf(c.entries@),
            r.inbound matches Some(c) ==> (four_digit_year(inbound_scheduled(facts_of(flight), eta))
                ==> crate::generation::anchor_instant(c.entries@, "scheduled_time"@) == Some(inbound_scheduled(facts_of(flight), eta))),
            r.outbound matches Some(c) ==> (four_digit_year(outbound_scheduled(facts_of(flight), etd))
                ==> crate::generation::anchor_instant(c.entries@, "scheduled_time"@) == Some(outbound_scheduled(facts_of(flight), etd))),
    {
        let inbound_leg: Option<&FlightLegFacts> = match flight {
            Some(x) => match &x.inbound_leg {
                Some(l) => Some(l),
                None => None,
            },
            None => None,
        };
        let inbound: Option<LegContext> = match inbound_leg {
            Some(l) => {
                let x = flight.unwrap();
                let mut c = shared_context(flight, flight_id, stand_id, eta, etd, terminal);
                add_leg_fields(&mut c, "inbound", x, l, eta, eta, etd);
                proof {
                    lemma_distinct_time_fields();
                    lemma_scheduled_anchor(c.entries@, time_or(l.scheduled_time, eta));
                }
                Some(c)
            },
            None => if eta != MIN_TIMESTAMP {
                let mut c = shared_context(flight, flight_id, stand_id, eta, etd, terminal);
                add_fallback_leg_fields(&mut c, "inbound", eta, eta, etd);
                proof {
                    lemma_distinct_time_fields();
                    lemma_scheduled_anchor(c.entries@, eta);
                }
                Some(c)
            } else {
                None
            },
        };
        let outbound_leg: Option<&FlightLegFacts> = match flight {
            Some(x) => match &x.outbound_leg {
                Some(l) => Some(l),
                None => None,
            },
            None => None,
        };
        let outbound: Option<LegContext> = match outbound_leg {
            Some(l) => {
                let x = flight.unwrap();
                let mut c = shared_context(flight, flight_id, stand_id, eta, etd, terminal);
                add_leg_fields(&mut c, "outbound", x, l, etd, eta, etd);
                proof {
                    lemma_distinct_time_fields();
                    lemma_scheduled_anchor(c.entries@, time_or(l.scheduled_time, etd));
                }
                Some(c)
            },
            None => if etd != MIN_TIMESTAMP {
                let mut c = shared_context(flight, flight_id, stand_id, eta, etd, terminal);
                add_fallback_leg_fields(&mut c, "outbound", etd, eta, etd);
                proof {
                    lemma_distinct_time_fields();
                    lemma_scheduled_anchor(c.entries@, etd);
                }
                Some(c)
            } else {
                None
            },
        };
        FlightLegContexts { inbound, outbound }
    }
}

} // verus!
