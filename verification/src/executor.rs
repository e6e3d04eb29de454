//! Argument handling and error mapping of the domain action executor.

use vstd::prelude::*;
use crate::model::{is_instant, DispatchError};
use crate::text::{blank, concat_views, is_blank, join_texts, text_eq, trim, trimmed};

verus! {

/// Errors of the domain action executor.
#[derive(Debug, Clone)]
pub enum DomainActionError {
    NotFound(String),
    PermissionDenied(String),
    Validation(String),
    Execution(String),
    Internal(String),
}

/// The text an executor error displays.
pub open spec fn action_error_text(e: DomainActionError) -> Seq<char> {
    match e {
        DomainActionError::NotFound(m) => "action not found: "@ + m@,
        DomainActionError::PermissionDenied(m) => "permission denied: "@ + m@,
        DomainActionError::Validation(m) => "validation failed: "@ + m@,
        DomainActionError::Execution(m) => "execution failed: "@ + m@,
        DomainActionError::Internal(m) => m@,
    }
}

impl DomainActionError {
    /// The text the error displays.
    pub fn message(&self) -> (r: String)
        ensures
            r@ == action_error_text(*self),
    {
        let (prefix, m): (&str, &str) = match self {
            DomainActionError::NotFound(m) => ("action not found: ", m.as_str()),
            DomainActionError::PermissionDenied(m) => ("permission denied: ", m.as_str()),
            DomainActionError::Validation(m) => ("validation failed: ", m.as_str()),
            DomainActionError::Execution(m) => ("execution failed: ", m.as_str()),
            DomainActionError::Internal(m) => ("", m.as_str()),
        };
        proof {
            reveal_strlit("");
        }
        let r = join_texts(&[prefix, m]);
        assert(concat_views(seq![prefix, m]) =~= prefix@ + m@) by {
            reveal_with_fuel(concat_views, 3);
        }
        r
    }
}

/// Errors of the ontology service that the executor calls.
#[derive(Debug, Clone)]
pub enum OntologyError {
    Validation(String),
    Forbidden(String),
    NotFound(String),
    Conflict(String),
    Internal(String),
}

/// How the executor reports an ontology error: a refused request is a
/// validation failure, a missing object is not found, and anything else
/// failed execution (a conflict says so).
pub open spec fn ontology_error_mapped(e: OntologyError, r: DomainActionError) -> bool {
    match e {
        OntologyError::Validation(m) => r matches DomainActionError::Validation(x) && x@ == m@,
        OntologyError::Forbidden(m) => r matches DomainActionError::Validation(x) && x@ == m@,
        OntologyError::NotFound(m) => r matches DomainActionError::NotFound(x) && x@ == m@,
        OntologyError::Conflict(m) => r matches DomainActionError::Execution(x) && x@ == "conflict: "@ + m@,
        OntologyError::Internal(m) => r matches DomainActionError::Execution(x) && x@ == m@,
    }
}

/// Maps an ontology error to the executor's error.
pub fn map_ontology_error(error: OntologyError) -> (r: DomainActionError)
    ensures
        ontology_error_mapped(error, r),
{
    match error {
        OntologyError::Validation(msg) => DomainActionError::Validation(msg),
        OntologyError::Forbidden(msg) => DomainActionError::Validation(msg),
        OntologyError::NotFound(msg) => DomainActionError::NotFound(msg),
        OntologyError::Conflict(msg) => {
            let ms = msg.as_str();
            let m = join_texts(&["conflict: ", ms]);
            assert(concat_views(seq!["conflict: ", ms]) =~= "conflict: "@ + msg@) by {
                reveal_with_fuel(concat_views, 3);
            }
            DomainActionError::Execution(m)
        },
        OntologyError::Internal(msg) => DomainActionError::Execution(msg),
    }
}

/// Maps an error of a controlled order-status update to the executor's
/// error: a missing entity is not found (`<type> <id> not found`), a
/// validation error stays one, and any other error fails the execution
/// with `display`, the text the error displays.
pub fn map_status_update_error(error: DispatchError, display: String) -> (r: DomainActionError)
    ensures
        match error {
            DispatchError::NotFound { entity_type, id } => r matches DomainActionError::NotFound(m) && m@
                == entity_type@ + " "@ + id@ + " not found"@,
            DispatchError::ValidationError(msg) => r matches DomainActionError::Validation(m) && m@ == msg@,
            _ => r matches DomainActionError::Execution(m) && m@ == display@,
        },
{
    match error {
        DispatchError::NotFound { entity_type, id } => {
            let t = entity_type.as_str();
            let i = id.as_str();
            let m = join_texts(&[t, " ", i, " not found"]);
            assert(concat_views(seq![t, " ", i, " not found"]) =~= entity_type@ + " "@ + id@ + " not found"@) by {
                reveal_with_fuel(concat_views, 5);
            }
            DomainActionError::NotFound(m)
        },
        DispatchError::ValidationError(msg) => DomainActionError::Validation(msg),
        _ => DomainActionError::Execution(display),
    }
}

/// A value of an action argument.
pub enum ArgValue {
    Null,
    Text(String),
    Bool(bool),
    /// Any other JSON value.
    Other,
}

/// One named argument of an action.
pub struct ActionArgument {
    pub key: String,
    pub value: ArgValue,
}

/// The value of argument `key` (the first with that name).
pub open spec fn arg_value(args: Seq<ActionArgument>, key: Seq<char>) -> Option<ArgValue>
    decreases args.len(),
{
    if args.len() == 0 {
        None
    } else if args[0].key@ == key {
        Some(args[0].value)
    } else {
        arg_value(args.drop_first(), key)
    }
}

/// The first of `keys` whose argument is a string, that string trimmed,
/// and nothing when it is blank.
pub open spec fn first_string(args: Seq<ActionArgument>, keys: Seq<&str>) -> Option<Seq<char>>
    decreases keys.len(),
{
    if keys.len() == 0 {
        None
    } else {
        match arg_value(args, keys[0]@) {
            Some(ArgValue::Text(s)) => if is_blank(s@) {
                None
            } else {
                Some(trimmed(s@))
            },
            _ => first_string(args, keys.drop_first()),
        }
    }
}

pub(crate) fn arg_get<'a>(args: &'a Vec<ActionArgument>, key: &str) -> (r: Option<&'a ArgValue>)
    ensures
        match r {
            Some(v) => arg_value(args@, key@) == Some(*v),
            None => arg_value(args@, key@) is None,
        },
{
    let mut i: usize = 0;
    assert(args@.skip(0) =~= args@);
    while i < args.len()
        invariant
            i <= args@.len(),
            arg_value(args@, key@) == arg_value(args@.skip(i as int), key@),
        decreases args@.len() - i,
    {
        proof {
            assert(args@.skip(i as int).drop_first() =~= args@.skip(i + 1));
            assert(args@.skip(i as int)[0] == args@[i as int]);
        }
        if text_eq(args[i].key.as_str(), key) {
            return Some(&args[i].value);
        }
        i = i + 1;
    }
    None
}

/// The first string argument among `keys`, trimmed, and nothing when it is
/// blank.
pub fn optional_string<'a>(arguments: &'a Vec<ActionArgument>, keys: &[&str]) -> (r: Option<&'a str>)
    ensures
        match r {
            Some(s) => first_string(arguments@, keys@) == Some(s@),
            None => first_string(arguments@, keys@) is None,
        },
{
    let mut i: usize = 0;
    assert(keys@.skip(0) =~= keys@);
    while i < keys.len()
        invariant
            i <= keys@.len(),
            first_string(arguments@, keys@) == first_string(arguments@, keys@.skip(i as int)),
        decreases keys@.len() - i,
    {
        proof {
            assert(keys@.skip(i as int).drop_first() =~= keys@.skip(i + 1));
            assert(keys@.skip(i as int)[0] == keys@[i as int]);
        }
        match arg_get(arguments, keys[i]) {
            Some(ArgValue::Text(s)) => {
                let t = trim(s.as_str());
                if t.unicode_len() == 0 {
                    return None;
                }
                return Some(t);
            },
            _ => {},
        }
        i = i + 1;
    }
    None
}

/// The first string argument among `keys`, trimmed; a missing or blank one
/// is a validation error "`label` is required".
pub fn required_string<'a>(arguments: &'a Vec<ActionArgument>, keys: &[&str], label: &str) -> (r: Result<
    &'a str,
    DomainActionError,
>)
    ensures
        match first_string(arguments@, keys@) {
            Some(s) => r matches Ok(x) && x@ == s,
            None => r matches Err(DomainActionError::Validation(m)) && m@ == label@ + " is required"@,
        },
{
    match optional_string(arguments, keys) {
        Some(s) => Ok(s),
        None => {
            let m = join_texts(&[label, " is required"]);
            assert(concat_views(seq![label, " is required"]) =~= label@ + " is required"@) by {
                reveal_with_fuel(concat_views, 3);
            }
            Err(DomainActionError::Validation(m))
        },
    }
}

/// What `str::parse::<chrono::DateTime<chrono::Utc>>` makes of `s`, in whole
/// seconds since the epoch (`timestamp()`), or `None` when it rejects `s`.
pub uninterp spec fn utc_datetime_seconds(s: Seq<char>) -> Option<i64>;

/// `s.parse::<chrono::DateTime<chrono::Utc>>()` then `timestamp()`. The
/// result is named, not written out; an accepted text names a representable
/// instant.
#[verifier::external_body]
fn parse_utc_datetime(s: &str) -> (r: Option<i64>)
    ensures
        r == utc_datetime_seconds(s@),
        r matches Some(t) ==> is_instant(t as int),
{
    s.parse::<chrono::DateTime<chrono::Utc>>().ok().map(|d| d.timestamp())
}

/// What reading the optional datetime argument `key` gives.
pub open spec fn dt_arg_opt(args: Seq<ActionArgument>, key: Seq<char>) -> Result<Option<i64>, Seq<char>> {
    match arg_value(args, key) {
        None => Ok(None),
        Some(ArgValue::Null) => Ok(None),
        Some(ArgValue::Text(raw)) => match utc_datetime_seconds(raw@) {
            Some(t) => Ok(Some(t)),
            None => Err("`"@ + key + "` is not an RFC3339 datetime"@),
        },
        Some(_) => Err("`"@ + key + "` must be an RFC3339 datetime string"@),
    }
}

/// What reading the required datetime argument `key` gives.
pub open spec fn dt_arg(args: Seq<ActionArgument>, key: Seq<char>) -> Result<i64, Seq<char>> {
    match arg_value(args, key) {
        Some(ArgValue::Text(raw)) => match utc_datetime_seconds(raw@) {
            Some(t) => Ok(t),
            None => Err("`"@ + key + "` is not an RFC3339 datetime"@),
        },
        _ => Err("`"@ + key + "` is required as an RFC3339 datetime"@),
    }
}

/// The error `r` is the validation failure with message `m`.
pub open spec fn validation_with(r: DomainActionError, m: Seq<char>) -> bool {
    r matches DomainActionError::Validation(x) && x@ == m
}

fn quoted_error(key: &str, tail: &str) -> (e: DomainActionError)
    ensures
        validation_with(e, "`"@ + key@ + tail@),
{
    let m = join_texts(&["`", key, tail]);
    assert(concat_views(seq!["`", key, tail]) =~= "`"@ + key@ + tail@) by {
        reveal_with_fuel(concat_views, 4);
    }
    DomainActionError::Validation(m)
}

/// Reads the required RFC 3339 datetime argument `key`.
pub fn parse_dt_arg(arguments: &Vec<ActionArgument>, key: &str) -> (r: Result<i64, DomainActionError>)
    ensures
        match dt_arg(arguments@, key@) {
            Ok(t) => r == Ok::<i64, DomainActionError>(t),
            Err(m) => r matches Err(e) && validation_with(e, m),
        },
{
    match arg_get(arguments, key) {
        Some(ArgValue::Text(raw)) => match parse_utc_datetime(raw.as_str()) {
            Some(t) => Ok(t),
            None => Err(quoted_error(key, "` is not an RFC3339 datetime")),
        },
        _ => Err(quoted_error(key, "` is required as an RFC3339 datetime")),
    }
}

/// Reads the optional RFC 3339 datetime argument `key`: missing or null is
/// nothing.
pub fn parse_dt_arg_opt(arguments: &Vec<ActionArgument>, key: &str) -> (r: Result<Option<i64>, DomainActionError>)
    ensures
        match dt_arg_opt(arguments@, key@) {
            Ok(t) => r == Ok::<Option<i64>, DomainActionError>(t),
            Err(m) => r matches Err(e) && validation_with(e, m),
        },
{
    match arg_get(arguments, key) {
        None => Ok(None),
        Some(ArgValue::Null) => Ok(None),
        Some(ArgValue::Text(raw)) => match parse_utc_datetime(raw.as_str()) {
            Some(t) => Ok(Some(t)),
            None => Err(quoted_error(key, "` is not an RFC3339 datetime")),
        },
        Some(_) => Err(quoted_error(key, "` must be an RFC3339 datetime string")),
    }
}

/// The new estimated departure and arrival of a delay update: at least one
/// of them must be given.
pub fn delay_update_arguments(arguments: &Vec<ActionArgument>) -> (r: Result<(Option<i64>, Option<i64>), DomainActionError>)
    ensures
        match dt_arg_opt(arguments@, "estimated_departure"@) {
            Err(m) => r matches Err(e) && validation_with(e, m),
            Ok(dep) => match dt_arg_opt(arguments@, "estimated_arrival"@) {
                Err(m) => r matches Err(e) && validation_with(e, m),
                Ok(arr) => if dep is None && arr is None {
                    r matches Err(e) && validation_with(
                        e,
                        "at least one of estimated_departure / estimated_arrival is required"@,
                    )
                } else {
                    r matches Ok(x) && x == (dep, arr)
                },
            },
        },
{
    let departure = match parse_dt_arg_opt(arguments, "estimated_departure") {
        Ok(t) => t,
        Err(e) => {
            return Err(e);
        },
    };
    let arrival = match parse_dt_arg_opt(arguments, "estimated_arrival") {
        Ok(t) => t,
        Err(e) => {
            return Err(e);
        },
    };
    if departure.is_none() && arrival.is_none() {
        return Err(
            DomainActionError::Validation(
                String::from_str("at least one of estimated_departure / estimated_arrival is required"),
            ),
        );
    }
    Ok((departure, arrival))
}

/// The key an action is dispatched on: `object_type.action_name`.
pub fn action_key(object_type: &str, action_name: &str) -> (r: String)
    ensures
        r@ == object_type@ + "."@ + action_name@,
{
    let r = join_texts(&[object_type, ".", action_name]);
    assert(concat_views(seq![object_type, ".", action_name]) =~= object_type@ + "."@ + action_name@) by {
        reveal_with_fuel(concat_views, 4);
    }
    r
}

} // verus!
