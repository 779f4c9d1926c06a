//! Change management: change requests from ServiceNow and from external
//! orchestrators (webhooks), normalised into one record, and the devices
//! each change touches.
//!
//! Polling, the graph writes and the webhook endpoint belong to the caller;
//! this module turns what they read into records and links.
use vstd::prelude::*;

use crate::text::{concat, decimal, lowercase, owned, str_eq, to_lowercase, views};

verus! {

/// A change request as stored.
pub struct ChangeRequestRecord {
    pub id: String,
    pub number: String,
    pub source: String,
    pub snow_sys_id: String,
    pub short_description: String,
    pub state: String,
    pub change_type: String,
    pub risk: String,
    pub assigned_to: String,
    pub assignment_group: String,
    pub affected_cis: Vec<String>,
    pub planned_start_ns: i64,
    pub planned_end_ns: i64,
    pub actual_start_ns: i64,
    pub actual_end_ns: i64,
    pub correlation_id: String,
    pub external_ref: String,
}

/// Whether a device is inside an active change window, and which changes.
pub struct ActiveChangeContext {
    pub in_change_window: bool,
    pub change_requests: Vec<ActiveChangeRef>,
}

/// One change a device is inside of.
pub struct ActiveChangeRef {
    pub id: String,
    pub number: String,
    pub short_description: String,
    pub change_type: String,
    pub risk: String,
    pub planned_start_ns: i64,
    pub planned_end_ns: i64,
    pub source: String,
}

/// Counts of one change sync cycle.
#[derive(Debug, Clone, Copy, Default, PartialEq, Eq)]
pub struct ChangeSyncStats {
    pub changes_fetched: usize,
    pub changes_upserted: usize,
    pub device_links_created: usize,
}

/// A change request as ServiceNow returns it; missing fields are empty.
pub struct SnowChangeRecord {
    pub sys_id: String,
    pub number: String,
    pub short_description: String,
    pub state: String,
    pub change_type: String,
    pub risk: String,
    pub assigned_to: String,
    pub assignment_group: String,
    pub cmdb_ci: String,
    pub start_date: String,
    pub end_date: String,
    pub work_start: String,
    pub work_end: String,
    pub correlation_id: String,
}

/// The stored name of a ServiceNow change state code; unknown codes are kept.
pub open spec fn change_state_name(s: Seq<char>) -> Seq<char> {
    if s == "-5"@ {
        "new"@
    } else if s == "-4"@ {
        "assess"@
    } else if s == "-3"@ {
        "authorize"@
    } else if s == "-2"@ {
        "scheduled"@
    } else if s == "-1"@ {
        "implement"@
    } else if s == "0"@ {
        "review"@
    } else if s == "3"@ {
        "closed"@
    } else if s == "4"@ {
        "cancelled"@
    } else {
        s
    }
}

/// The ServiceNow change state codes, in lifecycle order.
pub open spec fn snow_state_codes() -> Seq<Seq<char>> {
    seq!["-5"@, "-4"@, "-3"@, "-2"@, "-1"@, "0"@, "3"@, "4"@]
}

/// The stored names of those codes, in the same order.
pub open spec fn snow_state_names() -> Seq<Seq<char>> {
    seq!["new"@, "assess"@, "authorize"@, "scheduled"@, "implement"@, "review"@, "closed"@, "cancelled"@]
}

pub fn map_snow_change_state(state: &str) -> (r: String)
    ensures
        r@ == change_state_name(state@),
        forall|i: int| 0 <= i < 8 && state@ == #[trigger] snow_state_codes()[i] ==> r@ == snow_state_names()[i],
{
    let name: &str = if str_eq(state, "-5") {
        "new"
    } else if str_eq(state, "-4") {
        "assess"
    } else if str_eq(state, "-3") {
        "authorize"
    } else if str_eq(state, "-2") {
        "scheduled"
    } else if str_eq(state, "-1") {
        "implement"
    } else if str_eq(state, "0") {
        "review"
    } else if str_eq(state, "3") {
        "closed"
    } else if str_eq(state, "4") {
        "cancelled"
    } else {
        state
    };
    proof {
        assert forall|i: int| 0 <= i < 8 && state@ == #[trigger] snow_state_codes()[i] implies change_state_name(
            state@,
        ) == snow_state_names()[i] by {
            lemma_change_states_distinct(i, i, state@);
        }
    }
    owned(name)
}

/// The stored change type: the three known types in either capitalisation,
/// anything else lower-cased.
pub open spec fn change_type_name(t: Seq<char>) -> Seq<char> {
    if t == "standard"@ || t == "Standard"@ {
        "standard"@
    } else if t == "normal"@ || t == "Normal"@ {
        "normal"@
    } else if t == "emergency"@ || t == "Emergency"@ {
        "emergency"@
    } else {
        lowercase(t)
    }
}

pub fn map_snow_change_type(change_type: &str) -> (r: String)
    ensures
        r@ == change_type_name(change_type@),
{
    if str_eq(change_type, "standard") || str_eq(change_type, "Standard") {
        owned("standard")
    } else if str_eq(change_type, "normal") || str_eq(change_type, "Normal") {
        owned("normal")
    } else if str_eq(change_type, "emergency") || str_eq(change_type, "Emergency") {
        owned("emergency")
    } else {
        to_lowercase(change_type)
    }
}

/// The time (ns since the epoch, UTC) that the `time` crate reads from `s`
/// in the format described by `format`, if it reads one.
pub uninterp spec fn datetime_value(format: Seq<char>, s: Seq<char>) -> Option<i64>;

/// The format of a ServiceNow datetime, `YYYY-MM-DD HH:MM:SS`.
pub const SNOW_DATETIME_FORMAT: &'static str = "[year]-[month]-[day] [hour]:[minute]:[second]";

/// `time::PrimitiveDateTime::parse` of `s` in the format described by
/// `format` (read by `time::format_description::parse`), taken as UTC and
/// turned into ns since the epoch (truncated to `i64` as the caller does).
/// The contract names the result; the calendar rules of the parser are not
/// restated.
#[verifier::external_body]
fn parse_datetime_utc(format: &str, s: &str) -> (r: Option<i64>)
    ensures
        r == datetime_value(format@, s@),
{
    let format = time::format_description::parse(format).ok()?;
    let dt = time::PrimitiveDateTime::parse(s, &format).ok()?;
    Some(dt.assume_utc().unix_timestamp_nanos() as i64)
}

/// A ServiceNow datetime in ns since the epoch: none for an empty string.
pub open spec fn snow_datetime(s: Seq<char>) -> Option<i64> {
    if s.len() == 0 {
        None
    } else {
        datetime_value(SNOW_DATETIME_FORMAT@, s)
    }
}

/// Reads a ServiceNow datetime.
pub fn parse_snow_datetime(s: &str) -> (r: Option<i64>)
    ensures
        r == snow_datetime(s@),
{
    if s.is_empty() {
        return None;
    }
    parse_datetime_utc(SNOW_DATETIME_FORMAT, s)
}

/// The first of two optional times, else zero.
pub open spec fn first_time(a: Option<i64>, b: Option<i64>) -> i64 {
    match a {
        Some(t) => t,
        None => match b {
            Some(t) => t,
            None => 0,
        },
    }
}

/// `r` is the record of ServiceNow change `snow` whose datetimes read as
/// given: the planned window from the start and end dates, falling back to
/// the work dates; the actual window from the work dates.
pub open spec fn snow_record(
    r: ChangeRequestRecord,
    snow: SnowChangeRecord,
    start_date: Option<i64>,
    end_date: Option<i64>,
    work_start: Option<i64>,
    work_end: Option<i64>,
) -> bool {
    &&& r.id@ == "snow:"@ + snow.sys_id@
    &&& r.number@ == snow.number@
    &&& r.source@ == "servicenow"@
    &&& r.snow_sys_id@ == snow.sys_id@
    &&& r.short_description@ == snow.short_description@
    &&& r.state@ == change_state_name(snow.state@)
    &&& r.change_type@ == change_type_name(snow.change_type@)
    &&& r.risk@ == snow.risk@
    &&& r.assigned_to@ == snow.assigned_to@
    &&& r.assignment_group@ == snow.assignment_group@
    &&& views(r.affected_cis@) == (if snow.cmdb_ci@.len() == 0 {
        Seq::<Seq<char>>::empty()
    } else {
        seq![snow.cmdb_ci@]
    })
    &&& r.planned_start_ns == first_time(start_date, work_start)
    &&& r.planned_end_ns == first_time(end_date, work_end)
    &&& r.actual_start_ns == first_time(work_start, None)
    &&& r.actual_end_ns == first_time(work_end, None)
    &&& r.correlation_id@ == snow.correlation_id@
    &&& r.external_ref@ == snow.number@
}

fn or_else(a: Option<i64>, b: Option<i64>) -> (r: i64)
    ensures
        r == first_time(a, b),
{
    match a {
        Some(t) => t,
        None => match b {
            Some(t) => t,
            None => 0,
        },
    }
}

/// The record of a ServiceNow change whose datetimes read as given.
pub fn snow_record_from_times(
    snow: &SnowChangeRecord,
    start_date: Option<i64>,
    end_date: Option<i64>,
    work_start: Option<i64>,
    work_end: Option<i64>,
) -> (r: ChangeRequestRecord)
    ensures
        snow_record(r, *snow, start_date, end_date, work_start, work_end),
{
    let mut cis: Vec<String> = Vec::new();
    if !snow.cmdb_ci.as_str().is_empty() {
        cis.push(snow.cmdb_ci.clone());
    }
    proof {
        if snow.cmdb_ci@.len() == 0 {
            assert(views(cis@) =~= Seq::<Seq<char>>::empty());
        } else {
            assert(views(cis@) =~= seq![snow.cmdb_ci@]);
        }
    }
    ChangeRequestRecord {
        id: concat("snow:", snow.sys_id.as_str()),
        number: snow.number.clone(),
        source: owned("servicenow"),
        snow_sys_id: snow.sys_id.clone(),
        short_description: snow.short_description.clone(),
        state: map_snow_change_state(snow.state.as_str()),
        change_type: map_snow_change_type(snow.change_type.as_str()),
        risk: snow.risk.clone(),
        assigned_to: snow.assigned_to.clone(),
        assignment_group: snow.assignment_group.clone(),
        affected_cis: cis,
        planned_start_ns: or_else(start_date, work_start),
        planned_end_ns: or_else(end_date, work_end),
        actual_start_ns: or_else(work_start, None),
        actual_end_ns: or_else(work_end, None),
        correlation_id: snow.correlation_id.clone(),
        external_ref: snow.number.clone(),
    }
}

/// The record of a ServiceNow change.
pub fn snow_to_record(snow: &SnowChangeRecord) -> (r: ChangeRequestRecord)
    ensures
        snow_record(
            r,
            *snow,
            snow_datetime(snow.start_date@),
            snow_datetime(snow.end_date@),
            snow_datetime(snow.work_start@),
            snow_datetime(snow.work_end@),
        ),
{
    let start_date = parse_snow_datetime(snow.start_date.as_str());
    let end_date = parse_snow_datetime(snow.end_date.as_str());
    let work_start = parse_snow_datetime(snow.work_start.as_str());
    let work_end = parse_snow_datetime(snow.work_end.as_str());
    snow_record_from_times(snow, start_date, end_date, work_start, work_end)
}

/// The device a CI name maps to: its first entry.
pub open spec fn map_get(m: Seq<(String, String)>, key: Seq<char>) -> Option<Seq<char>>
    decreases m.len(),
{
    if m.len() == 0 {
        None
    } else if m[0].0@ == key {
        Some(m[0].1@)
    } else {
        map_get(m.drop_first(), key)
    }
}

fn map_lookup(m: &Vec<(String, String)>, key: &str) -> (r: Option<String>)
    ensures
        match r {
            Some(v) => map_get(m@, key@) == Some(v@),
            None => map_get(m@, key@) is None,
        },
{
    let mut i: usize = 0;
    proof {
        assert(m@.skip(0) =~= m@);
    }
    while i < m.len()
        invariant
            i <= m@.len(),
            map_get(m@, key@) == map_get(m@.skip(i as int), key@),
        decreases m@.len() - i,
    {
        proof {
            assert(m@.skip(i as int)[0] == m@[i as int]);
            assert(m@.skip(i as int).drop_first() =~= m@.skip(i + 1));
        }
        if str_eq(m[i].0.as_str(), key) {
            return Some(m[i].1.clone());
        }
        i = i + 1;
    }
    None
}

/// The devices a ServiceNow change touches: the device of its CI, as the
/// primary CI.
pub fn resolve_affected_devices(snow: &SnowChangeRecord, device_map: &Vec<(String, String)>) -> (r: Vec<(String, String)>)
    ensures
        r@.len() <= 1,
        r@.len() == 1 <==> snow.cmdb_ci@.len() > 0 && map_get(device_map@, snow.cmdb_ci@) is Some,
        r@.len() == 1 ==> r@[0].0@ == map_get(device_map@, snow.cmdb_ci@)->0 && r@[0].1@ == "primary_ci"@,
{
    let mut result: Vec<(String, String)> = Vec::new();
    if !snow.cmdb_ci.as_str().is_empty() {
        match map_lookup(device_map, snow.cmdb_ci.as_str()) {
            Some(addr) => {
                result.push((addr, owned("primary_ci")));
            },
            None => {},
        }
    }
    result
}

// ── Webhooks ─────────────────────────────────────────────────────────────────

/// A change announced by an external orchestrator.
pub struct WebhookChangeEvent {
    pub change_id: String,
    pub number: String,
    pub source: String,
    pub description: String,
    pub state: String,
    pub change_type: String,
    pub risk: String,
    pub affected_devices: Vec<String>,
    /// Planned start, seconds since the epoch.
    pub planned_start_epoch: i64,
    /// Planned end, seconds since the epoch.
    pub planned_end_epoch: i64,
    pub correlation_id: String,
    pub external_ref: String,
    pub extra_json: String,
}

/// The state of a webhook change that names none.
pub fn default_webhook_state() -> (r: String)
    ensures
        r@ == "implement"@,
{
    owned("implement")
}

/// The type of a webhook change that names none.
pub fn default_webhook_type() -> (r: String)
    ensures
        r@ == "standard"@,
{
    owned("standard")
}

/// Seconds to ns, saturating at the bounds of `i64`.
pub open spec fn secs_to_ns_saturating(secs: i64) -> i64 {
    let p = secs * 1_000_000_000;
    if p > i64::MAX {
        i64::MAX
    } else if p < i64::MIN {
        i64::MIN
    } else {
        p as i64
    }
}

fn secs_to_ns(secs: i64) -> (r: i64)
    ensures
        r == secs_to_ns_saturating(secs),
{
    match secs.checked_mul(1_000_000_000) {
        Some(v) => v,
        None => if secs > 0 {
            i64::MAX
        } else {
            i64::MIN
        },
    }
}

/// `r` is the record of webhook change `e`: its id is source and change id;
/// its number the change id when none is given.
pub open spec fn webhook_record_of(r: ChangeRequestRecord, e: WebhookChangeEvent) -> bool {
    &&& r.id@ == e.source@ + ":"@ + e.change_id@
    &&& r.number@ == (if e.number@.len() == 0 {
        e.change_id@
    } else {
        e.number@
    })
    &&& r.source@ == e.source@
    &&& r.snow_sys_id@.len() == 0
    &&& r.short_description@ == e.description@
    &&& r.state@ == e.state@
    &&& r.change_type@ == e.change_type@
    &&& r.risk@ == e.risk@
    &&& r.assigned_to@.len() == 0
    &&& r.assignment_group@.len() == 0
    &&& r.affected_cis@ == e.affected_devices@
    &&& r.planned_start_ns == secs_to_ns_saturating(e.planned_start_epoch)
    &&& r.planned_end_ns == secs_to_ns_saturating(e.planned_end_epoch)
    &&& r.actual_start_ns == 0
    &&& r.actual_end_ns == 0
    &&& r.correlation_id@ == e.correlation_id@
    &&& r.external_ref@ == e.external_ref@
}

/// The record of a webhook change.
pub fn webhook_record(event: &WebhookChangeEvent) -> (r: ChangeRequestRecord)
    ensures
        webhook_record_of(r, *event),
{
    let mut id = owned(event.source.as_str());
    id.append(":");
    id.append(event.change_id.as_str());
    let number = if event.number.as_str().is_empty() {
        event.change_id.clone()
    } else {
        event.number.clone()
    };
    ChangeRequestRecord {
        id,
        number,
        source: event.source.clone(),
        snow_sys_id: String::new(),
        short_description: event.description.clone(),
        state: event.state.clone(),
        change_type: event.change_type.clone(),
        risk: event.risk.clone(),
        assigned_to: String::new(),
        assignment_group: String::new(),
        affected_cis: crate::registry::copy_strings(&event.affected_devices),
        planned_start_ns: secs_to_ns(event.planned_start_epoch),
        planned_end_ns: secs_to_ns(event.planned_end_epoch),
        actual_start_ns: 0,
        actual_end_ns: 0,
        correlation_id: event.correlation_id.clone(),
        external_ref: event.external_ref.clone(),
    }
}

/// The device a webhook reference links to: the mapped device of the
/// reference, else of its lower-case form, else the reference itself.
pub open spec fn webhook_target(m: Seq<(String, String)>, r: Seq<char>) -> Seq<char> {
    match map_get(m, r) {
        Some(a) => a,
        None => match map_get(m, lowercase(r)) {
            Some(a) => a,
            None => r,
        },
    }
}

/// The devices the references of a webhook change link to, in order.
pub fn webhook_link_targets(event: &WebhookChangeEvent, device_map: &Vec<(String, String)>) -> (r: Vec<String>)
    ensures
        r@.len() == event.affected_devices@.len(),
        forall|i: int| 0 <= i < r@.len() ==> (#[trigger] r@[i])@ == webhook_target(device_map@, event.affected_devices@[i]@),
{
    let mut out: Vec<String> = Vec::new();
    let mut i: usize = 0;
    while i < event.affected_devices.len()
        invariant
            i <= event.affected_devices@.len(),
            out@.len() == i,
            forall|k: int| 0 <= k < i ==> (#[trigger] out@[k])@ == webhook_target(device_map@, event.affected_devices@[k]@),
        decreases event.affected_devices@.len() - i,
    {
        let r = event.affected_devices[i].as_str();
        let addr = match map_lookup(device_map, r) {
            Some(a) => a,
            None => {
                let lower = to_lowercase(r);
                match map_lookup(device_map, lower.as_str()) {
                    Some(a) => a,
                    None => owned(r),
                }
            },
        };
        out.push(addr);
        i = i + 1;
    }
    out
}

// ── ServiceNow datetimes ─────────────────────────────────────────────────────

/// The UTC calendar date (year, month, day) of a Unix timestamp in seconds,
/// as the `time` crate computes it; none when the crate's date range does
/// not hold it.
pub uninterp spec fn utc_date_of(secs: i64) -> Option<(i32, u8, u8)>;

/// `time::OffsetDateTime::from_unix_timestamp` and the fields of the result.
/// The contract names the calendar date and states the time of day, which the
/// crate's source derives from the seconds within the (Euclidean) day.
#[verifier::external_body]
fn utc_fields(secs: i64) -> (r: Option<(i32, u8, u8, u8, u8, u8)>)
    ensures
        match r {
            Some(f) => {
                &&& utc_date_of(secs) == Some((f.0, f.1, f.2))
                &&& f.3 == (secs % 86400) / 3600
                &&& f.4 == ((secs % 86400) % 3600) / 60
                &&& f.5 == (secs % 86400) % 60
            },
            None => utc_date_of(secs) is None,
        },
{
    match time::OffsetDateTime::from_unix_timestamp(secs) {
        Ok(dt) => Some((dt.year(), dt.month() as u8, dt.day(), dt.hour(), dt.minute(), dt.second())),
        Err(_) => None,
    }
}

/// `n` in decimal, left-padded with zeros to `width` characters.
pub open spec fn zero_padded(n: nat, width: nat) -> Seq<char> {
    let d = decimal(n);
    if d.len() >= width {
        d
    } else {
        Seq::new((width - d.len()) as nat, |i: int| '0') + d
    }
}

/// `n` formatted as `{:0width}`: the sign, then zeros up to the width.
pub open spec fn signed_zero_padded(n: int, width: nat) -> Seq<char> {
    if n < 0 {
        seq!['-'] + zero_padded((-n) as nat, if width >= 1 { (width - 1) as nat } else { 0 })
    } else {
        zero_padded(n as nat, width)
    }
}

fn pad_u64(n: u64, width: usize) -> (r: String)
    ensures
        r@ == zero_padded(n as nat, width as nat),
{
    let d = crate::text::u64_decimal(n);
    let mut out: Vec<char> = Vec::new();
    let mut k: usize = d.len();
    while k < width
        invariant
            d@ == decimal(n as nat),
            d@.len() <= k <= width || (k == d@.len() && k >= width),
            out@ == Seq::new((k - d@.len()) as nat, |i: int| '0'),
        decreases width - k,
    {
        out.push('0');
        proof {
            assert(out@ =~= Seq::new((k + 1 - d@.len()) as nat, |i: int| '0'));
        }
        k = k + 1;
    }
    crate::text::extend_chars(&mut out, d.as_slice());
    proof {
        if d@.len() >= width {
            assert(out@ =~= d@);
        }
    }
    crate::text::string_of(out.as_slice())
}

fn pad_i64(n: i64, width: usize) -> (r: String)
    ensures
        r@ == signed_zero_padded(n as int, width as nat),
{
    if n < 0 {
        let m: u64 = ((-(n + 1)) as u64) + 1;
        let w = if width >= 1 { width - 1 } else { 0 };
        let body = pad_u64(m, w);
        proof {
            reveal_strlit("-");
            assert(m as int == -(n as int));
            assert("-"@ =~= seq!['-']);
        }
        concat("-", body.as_str())
    } else {
        pad_u64(n as u64, width)
    }
}

/// Seconds since the epoch of a time in ns, rounded toward zero.
pub open spec fn secs_of_ns(ns: i64) -> i64 {
    if ns >= 0 {
        (ns / 1_000_000_000) as i64
    } else {
        -((-ns) / 1_000_000_000) as i64
    }
}

/// A datetime as ServiceNow writes it: `YYYY-MM-DD HH:MM:SS`.
pub open spec fn snow_datetime_text(y: i32, mo: u8, d: u8, h: u8, mi: u8, s: u8) -> Seq<char> {
    signed_zero_padded(y as int, 4) + "-"@ + zero_padded(mo as nat, 2) + "-"@ + zero_padded(d as nat, 2) + " "@
        + zero_padded(h as nat, 2) + ":"@ + zero_padded(mi as nat, 2) + ":"@ + zero_padded(s as nat, 2)
}

/// A time in ns as a ServiceNow datetime (UTC); the epoch when the date is
/// out of the `time` crate's range.
pub fn format_snow_datetime(ns: i64) -> (r: String)
    ensures
        match utc_date_of(secs_of_ns(ns)) {
            Some(date) => {
                let sod = secs_of_ns(ns) % 86400;
                r@ == snow_datetime_text(date.0, date.1, date.2, (sod / 3600) as u8, ((sod % 3600) / 60) as u8, (sod % 60) as u8)
            },
            None => r@ == snow_datetime_text(1970, 1, 1, 0, 0, 0),
        },
{
    let secs: i64 = if ns >= 0 {
        ns / 1_000_000_000
    } else {
        let m: u64 = ((-(ns + 1)) as u64) + 1;
        -((m / 1_000_000_000) as i64)
    };
    let f = match utc_fields(secs) {
        Some(f) => f,
        None => (1970, 1, 1, 0, 0, 0),
    };
    let mut out = pad_i64(f.0 as i64, 4);
    out.append("-");
    let a = pad_u64(f.1 as u64, 2);
    out.append(a.as_str());
    out.append("-");
    let b = pad_u64(f.2 as u64, 2);
    out.append(b.as_str());
    out.append(" ");
    let c = pad_u64(f.3 as u64, 2);
    out.append(c.as_str());
    out.append(":");
    let d = pad_u64(f.4 as u64, 2);
    out.append(d.as_str());
    out.append(":");
    let e = pad_u64(f.5 as u64, 2);
    out.append(e.as_str());
    out
}

/// Each known ServiceNow state code gets its own name in lifecycle order
/// (`-2` is scheduled, `-1` implement, ...), and distinct codes get distinct
/// names; an unknown code is kept as it is.
pub proof fn lemma_change_states_distinct(i: int, j: int, other: Seq<char>)
    requires
        0 <= i < 8,
        0 <= j < 8,
    ensures
        change_state_name(snow_state_codes()[i]) == snow_state_names()[i],
        i != j ==> change_state_name(snow_state_codes()[i]) != change_state_name(snow_state_codes()[j]),
        !snow_state_codes().contains(other) ==> change_state_name(other) == other,
{
    reveal_strlit("-5");
    reveal_strlit("-4");
    reveal_strlit("-3");
    reveal_strlit("-2");
    reveal_strlit("-1");
    reveal_strlit("0");
    reveal_strlit("3");
    reveal_strlit("4");
    reveal_strlit("new");
    reveal_strlit("assess");
    reveal_strlit("authorize");
    reveal_strlit("scheduled");
    reveal_strlit("implement");
    reveal_strlit("review");
    reveal_strlit("closed");
    reveal_strlit("cancelled");
    let c = snow_state_codes();
    let n = snow_state_names();
    assert(c[0][1] != c[1][1]);
    assert(c[0][1] != c[2][1]);
    assert(c[0][1] != c[3][1]);
    assert(c[0][1] != c[4][1]);
    assert(c[0].len() != c[5].len());
    assert(c[0].len() != c[6].len());
    assert(c[0].len() != c[7].len());
    assert(c[1][1] != c[0][1]);
    assert(c[1][1] != c[2][1]);
    assert(c[1][1] != c[3][1]);
    assert(c[1][1] != c[4][1]);
    assert(c[1].len() != c[5].len());
    assert(c[1].len() != c[6].len());
    assert(c[1].len() != c[7].len());
    assert(c[2][1] != c[0][1]);
    assert(c[2][1] != c[1][1]);
    assert(c[2][1] != c[3][1]);
    assert(c[2][1] != c[4][1]);
    assert(c[2].len() != c[5].len());
    assert(c[2].len() != c[6].len());
    assert(c[2].len() != c[7].len());
    assert(c[3][1] != c[0][1]);
    assert(c[3][1] != c[1][1]);
    assert(c[3][1] != c[2][1]);
    assert(c[3][1] != c[4][1]);
    assert(c[3].len() != c[5].len());
    assert(c[3].len() != c[6].len());
    assert(c[3].len() != c[7].len());
    assert(c[4][1] != c[0][1]);
    assert(c[4][1] != c[1][1]);
    assert(c[4][1] != c[2][1]);
    assert(c[4][1] != c[3][1]);
    assert(c[4].len() != c[5].len());
    assert(c[4].len() != c[6].len());
    assert(c[4].len() != c[7].len());
    assert(c[5].len() != c[0].len());
    assert(c[5].len() != c[1].len());
    assert(c[5].len() != c[2].len());
    assert(c[5].len() != c[3].len());
    assert(c[5].len() != c[4].len());
    assert(c[5][0] != c[6][0]);
    assert(c[5][0] != c[7][0]);
    assert(c[6].len() != c[0].len());
    assert(c[6].len() != c[1].len());
    assert(c[6].len() != c[2].len());
    assert(c[6].len() != c[3].len());
    assert(c[6].len() != c[4].len());
    assert(c[6][0] != c[5][0]);
    assert(c[6][0] != c[7][0]);
    assert(c[7].len() != c[0].len());
    assert(c[7].len() != c[1].len());
    assert(c[7].len() != c[2].len());
    assert(c[7].len() != c[3].len());
    assert(c[7].len() != c[4].len());
    assert(c[7][0] != c[5][0]);
    assert(c[7][0] != c[6][0]);
    assert(change_state_name(c[0]) == n[0]);
    assert(change_state_name(c[1]) == n[1]);
    assert(change_state_name(c[2]) == n[2]);
    assert(change_state_name(c[3]) == n[3]);
    assert(change_state_name(c[4]) == n[4]);
    assert(change_state_name(c[5]) == n[5]);
    assert(change_state_name(c[6]) == n[6]);
    assert(change_state_name(c[7]) == n[7]);
    assert(n[0].len() != n[1].len());
    assert(n[0].len() != n[2].len());
    assert(n[0].len() != n[3].len());
    assert(n[0].len() != n[4].len());
    assert(n[0].len() != n[5].len());
    assert(n[0].len() != n[6].len());
    assert(n[0].len() != n[7].len());
    assert(n[1].len() != n[2].len());
    assert(n[1].len() != n[3].len());
    assert(n[1].len() != n[4].len());
    assert(n[1][0] != n[5][0]);
    assert(n[1][0] != n[6][0]);
    assert(n[1].len() != n[7].len());
    assert(n[2][0] != n[3][0]);
    assert(n[2][0] != n[4][0]);
    assert(n[2].len() != n[5].len());
    assert(n[2].len() != n[6].len());
    assert(n[2][0] != n[7][0]);
    assert(n[3][0] != n[4][0]);
    assert(n[3].len() != n[5].len());
    assert(n[3].len() != n[6].len());
    assert(n[3][0] != n[7][0]);
    assert(n[4].len() != n[5].len());
    assert(n[4].len() != n[6].len());
    assert(n[4][0] != n[7][0]);
    assert(n[5][0] != n[6][0]);
    assert(n[5].len() != n[7].len());
    assert(n[6].len() != n[7].len());
    if !snow_state_codes().contains(other) {
        assert(other != snow_state_codes()[0]);
        assert(other != snow_state_codes()[1]);
        assert(other != snow_state_codes()[2]);
        assert(other != snow_state_codes()[3]);
        assert(other != snow_state_codes()[4]);
        assert(other != snow_state_codes()[5]);
        assert(other != snow_state_codes()[6]);
        assert(other != snow_state_codes()[7]);
    }
}

} // verus!
