//! Service discovery from interface descriptions: the service name a
//! description gives, and the side of the network an interface faces.
use vstd::prelude::*;

use crate::pattern::{compile_regex, regex_compiles, regex_is_match, regex_matches};
use crate::text::{owned, chars_of, concat, lowercase, str_contains, string_of, to_lowercase, trim, trim_chars, contains};

verus! {

/// What `char::is_alphanumeric` returns: Unicode `Alphabetic` or `Numeric`.
pub uninterp spec fn alphanumeric(c: char) -> bool;

/// `char::is_alphanumeric`. The contract names the result; the Unicode
/// property tables are not restated.
#[verifier::external_body]
fn is_alphanumeric(c: char) -> (r: bool)
    ensures
        r == alphanumeric(c),
{
    c.is_alphanumeric()
}

/// A character kept in a service name: alphanumeric, `_` or `-`.
pub open spec fn name_char(c: char) -> bool {
    alphanumeric(c) || c == '_' || c == '-'
}

/// The characters of `s` that may stand in a service name, in order.
pub open spec fn name_chars(s: Seq<char>) -> Seq<char>
    decreases s.len(),
{
    if s.len() == 0 {
        s
    } else if name_char(s.last()) {
        name_chars(s.drop_last()).push(s.last())
    } else {
        name_chars(s.drop_last())
    }
}

/// The service name of a description: its trimmed, lower-cased text
/// without the characters a name cannot hold, or `<type>_service` when
/// nothing is left.
pub open spec fn service_name_of(description: Seq<char>, service_type: Seq<char>) -> Seq<char> {
    let cleaned = name_chars(lowercase(trim(description)));
    if cleaned.len() == 0 {
        service_type + "_service"@
    } else {
        cleaned
    }
}

pub fn extract_service_name(description: &str, service_type: &str) -> (r: String)
    ensures
        r@ == service_name_of(description@, service_type@),
{
    let chars = chars_of(description);
    let trimmed = string_of(trim_chars(chars.as_slice()).as_slice());
    let lower = chars_of(to_lowercase(trimmed.as_str()).as_str());
    let mut kept: Vec<char> = Vec::new();
    let mut i: usize = 0;
    while i < lower.len()
        invariant
            i <= lower@.len(),
            kept@ == name_chars(lower@.take(i as int)),
        decreases lower@.len() - i,
    {
        let c = lower[i];
        let keep = is_alphanumeric(c) || c == '_' || c == '-';
        proof {
            assert(lower@.take(i + 1).drop_last() =~= lower@.take(i as int));
            assert(lower@.take(i + 1).last() == c);
        }
        if keep {
            kept.push(c);
        }
        i = i + 1;
    }
    proof {
        assert(lower@.take(lower@.len() as int) =~= lower@);
    }
    if kept.len() == 0 {
        concat(service_type, "_service")
    } else {
        string_of(kept.as_slice())
    }
}

/// The side an interface faces: `management` for management and admin
/// ports, `northbound` at 10 Gb/s and faster, `internal` for loopbacks
/// (names holding `lo`), `southbound` otherwise.
pub open spec fn endpoint_type_of(if_name: Seq<char>, speed: i64) -> Seq<char> {
    if contains(if_name, "mgmt"@) || contains(if_name, "admin"@) {
        "management"@
    } else if speed >= 10_000_000_000 {
        "northbound"@
    } else if contains(if_name, "loopback"@) || contains(if_name, "lo"@) {
        "internal"@
    } else {
        "southbound"@
    }
}

pub fn determine_endpoint_type(if_name: &str, speed: i64) -> (r: &'static str)
    ensures
        r@ == endpoint_type_of(if_name@, speed),
{
    if str_contains(if_name, "mgmt") || str_contains(if_name, "admin") {
        "management"
    } else if speed >= 10_000_000_000 {
        "northbound"
    } else if str_contains(if_name, "loopback") || str_contains(if_name, "lo") {
        "internal"
    } else {
        "southbound"
    }
}


/// How many service patterns there are.
pub const SERVICE_PATTERN_COUNT: usize = 29;

/// The service patterns of interface descriptions, in the order they are
/// tried: the regex (case-insensitive; a word separator `_`, a space or `-`
/// may stand between the words), the confidence in thousandths, and the
/// service type.
pub open spec fn service_pattern_spec(i: int) -> (Seq<char>, u32, Seq<char>) {
    if i == 0 {
        ("(?i)api[_ -]?gateway"@, 900, "api_gateway"@)
    } else if i == 1 {
        ("(?i)gateway[_ -]?api"@, 900, "api_gateway"@)
    } else if i == 2 {
        ("(?i)api[_ -]?endpoint"@, 800, "api_gateway"@)
    } else if i == 3 {
        ("(?i)database[_ -]?server"@, 900, "database"@)
    } else if i == 4 {
        ("(?i)db[_ -]?server"@, 800, "database"@)
    } else if i == 5 {
        ("(?i)mysql[_ -]?server"@, 900, "database"@)
    } else if i == 6 {
        ("(?i)postgres[_ -]?server"@, 900, "database"@)
    } else if i == 7 {
        ("(?i)mongodb[_ -]?server"@, 900, "database"@)
    } else if i == 8 {
        ("(?i)cache[_ -]?server"@, 900, "cache"@)
    } else if i == 9 {
        ("(?i)redis[_ -]?server"@, 900, "cache"@)
    } else if i == 10 {
        ("(?i)memcached[_ -]?server"@, 900, "cache"@)
    } else if i == 11 {
        ("(?i)load[_ -]?balancer"@, 900, "load_balancer"@)
    } else if i == 12 {
        ("(?i)lb[_ -]?frontend"@, 800, "load_balancer"@)
    } else if i == 13 {
        ("(?i)haproxy[_ -]?frontend"@, 900, "load_balancer"@)
    } else if i == 14 {
        ("(?i)web[_ -]?server"@, 700, "web_server"@)
    } else if i == 15 {
        ("(?i)nginx[_ -]?frontend"@, 800, "web_server"@)
    } else if i == 16 {
        ("(?i)apache[_ -]?frontend"@, 800, "web_server"@)
    } else if i == 17 {
        ("(?i)application[_ -]?server"@, 700, "application_server"@)
    } else if i == 18 {
        ("(?i)app[_ -]?server"@, 700, "application_server"@)
    } else if i == 19 {
        ("(?i)message[_ -]?queue"@, 900, "message_queue"@)
    } else if i == 20 {
        ("(?i)kafka[_ -]?broker"@, 900, "message_queue"@)
    } else if i == 21 {
        ("(?i)rabbitmq[_ -]?server"@, 900, "message_queue"@)
    } else if i == 22 {
        ("(?i)envoy[_ -]?proxy"@, 900, "service_mesh"@)
    } else if i == 23 {
        ("(?i)istio[_ -]?proxy"@, 900, "service_mesh"@)
    } else if i == 24 {
        ("(?i)consul[_ -]?agent"@, 800, "service_mesh"@)
    } else if i == 25 {
        ("(?i)elasticsearch[_ -]?node"@, 900, "search_engine"@)
    } else if i == 26 {
        ("(?i)solr[_ -]?server"@, 800, "search_engine"@)
    } else if i == 27 {
        ("(?i)prometheus[_ -]?exporter"@, 800, "monitoring"@)
    } else {
        ("(?i)grafana[_ -]?server"@, 800, "monitoring"@)
    }
}

/// The service pattern at `i`.
pub fn service_pattern(i: usize) -> (r: (&'static str, u32, &'static str))
    requires
        i < SERVICE_PATTERN_COUNT,
    ensures
        (r.0@, r.1, r.2@) == service_pattern_spec(i as int),
{
    match i {
        0 => ("(?i)api[_ -]?gateway", 900, "api_gateway"),
        1 => ("(?i)gateway[_ -]?api", 900, "api_gateway"),
        2 => ("(?i)api[_ -]?endpoint", 800, "api_gateway"),
        3 => ("(?i)database[_ -]?server", 900, "database"),
        4 => ("(?i)db[_ -]?server", 800, "database"),
        5 => ("(?i)mysql[_ -]?server", 900, "database"),
        6 => ("(?i)postgres[_ -]?server", 900, "database"),
        7 => ("(?i)mongodb[_ -]?server", 900, "database"),
        8 => ("(?i)cache[_ -]?server", 900, "cache"),
        9 => ("(?i)redis[_ -]?server", 900, "cache"),
        10 => ("(?i)memcached[_ -]?server", 900, "cache"),
        11 => ("(?i)load[_ -]?balancer", 900, "load_balancer"),
        12 => ("(?i)lb[_ -]?frontend", 800, "load_balancer"),
        13 => ("(?i)haproxy[_ -]?frontend", 900, "load_balancer"),
        14 => ("(?i)web[_ -]?server", 700, "web_server"),
        15 => ("(?i)nginx[_ -]?frontend", 800, "web_server"),
        16 => ("(?i)apache[_ -]?frontend", 800, "web_server"),
        17 => ("(?i)application[_ -]?server", 700, "application_server"),
        18 => ("(?i)app[_ -]?server", 700, "application_server"),
        19 => ("(?i)message[_ -]?queue", 900, "message_queue"),
        20 => ("(?i)kafka[_ -]?broker", 900, "message_queue"),
        21 => ("(?i)rabbitmq[_ -]?server", 900, "message_queue"),
        22 => ("(?i)envoy[_ -]?proxy", 900, "service_mesh"),
        23 => ("(?i)istio[_ -]?proxy", 900, "service_mesh"),
        24 => ("(?i)consul[_ -]?agent", 800, "service_mesh"),
        25 => ("(?i)elasticsearch[_ -]?node", 900, "search_engine"),
        26 => ("(?i)solr[_ -]?server", 800, "search_engine"),
        27 => ("(?i)prometheus[_ -]?exporter", 800, "monitoring"),
        _ => ("(?i)grafana[_ -]?server", 800, "monitoring"),
    }
}

/// Whether the pattern at `i` compiles and matches `description`.
pub open spec fn pattern_hits(i: int, description: Seq<char>) -> bool {
    let p = service_pattern_spec(i).0;
    regex_compiles(p) && regex_is_match(p, description)
}

/// The first pattern from `i` on that matches `description`.
pub open spec fn first_pattern_from(description: Seq<char>, i: int) -> Option<int>
    decreases SERVICE_PATTERN_COUNT - i,
{
    if i < 0 || i >= SERVICE_PATTERN_COUNT {
        None
    } else if pattern_hits(i, description) {
        Some(i)
    } else {
        first_pattern_from(description, i + 1)
    }
}

/// The first service pattern that matches `description`.
pub open spec fn first_matching_pattern(description: Seq<char>) -> Option<int> {
    first_pattern_from(description, 0)
}

/// The index of the first service pattern that matches the description.
pub fn match_service_pattern(description: &str) -> (r: Option<usize>)
    ensures
        match r {
            Some(i) => i < SERVICE_PATTERN_COUNT && first_matching_pattern(description@) == Some(i as int),
            None => first_matching_pattern(description@) is None,
        },
{
    let mut i: usize = 0;
    while i < SERVICE_PATTERN_COUNT
        invariant
            i <= SERVICE_PATTERN_COUNT,
            first_matching_pattern(description@) == first_pattern_from(description@, i as int),
        decreases SERVICE_PATTERN_COUNT - i,
    {
        let (pattern, _, _) = service_pattern(i);
        let hit = match compile_regex(pattern) {
            Some(re) => regex_matches(&re, description),
            None => false,
        };
        if hit {
            return Some(i);
        }
        i = i + 1;
    }
    None
}

/// A service that an interface description names.
pub struct InterfaceService {
    pub id: String,
    pub device_address: String,
    pub interface_name: String,
    pub service_type: String,
    pub service_name: String,
    pub endpoint_type: String,
    /// Confidence in thousandths.
    pub confidence_milli: u32,
}

/// What an interface description names when the service pattern at `i`
/// matched it.
pub open spec fn describes(
    e: InterfaceService,
    device_address: Seq<char>,
    if_name: Seq<char>,
    description: Seq<char>,
    speed: i64,
    i: int,
) -> bool {
    let (_, confidence, service_type) = service_pattern_spec(i);
    &&& e.service_type@ == service_type
    &&& e.confidence_milli == confidence
    &&& e.service_name@ == service_name_of(description, service_type)
    &&& e.endpoint_type@ == endpoint_type_of(if_name, speed)
    &&& e.device_address@ == device_address
    &&& e.interface_name@ == if_name
    &&& e.id@ == "service-"@ + device_address + "-"@ + if_name + "-"@ + service_type
}

/// The service an interface description names by the service pattern at
/// `i`: its type and confidence, the name the description gives, the side
/// the interface faces, and the id `service-<device>-<interface>-<type>`.
pub fn interface_service(
    device_address: &str,
    if_name: &str,
    description: &str,
    speed: i64,
    i: usize,
) -> (r: InterfaceService)
    requires
        i < SERVICE_PATTERN_COUNT,
    ensures
        describes(r, device_address@, if_name@, description@, speed, i as int),
{
    let (_, confidence, service_type) = service_pattern(i);
    let id = concat(concat(concat(concat("service-", device_address).as_str(), "-").as_str(), if_name).as_str(), "-");
    let id = concat(id.as_str(), service_type);
    InterfaceService {
        id,
        device_address: owned(device_address),
        interface_name: owned(if_name),
        service_type: owned(service_type),
        service_name: extract_service_name(description, service_type),
        endpoint_type: owned(determine_endpoint_type(if_name, speed)),
        confidence_milli: confidence,
    }
}

/// The service an interface description names, by the first service
/// pattern it matches; `None` when no pattern matches.
pub fn analyze_interface_description(
    device_address: &str,
    if_name: &str,
    description: &str,
    speed: i64,
) -> (r: Option<InterfaceService>)
    ensures
        match first_matching_pattern(description@) {
            None => r is None,
            Some(i) => r matches Some(e) && describes(e, device_address@, if_name@, description@, speed, i),
        },
{
    match match_service_pattern(description) {
        Some(i) => Some(interface_service(device_address, if_name, description, speed, i)),
        None => None,
    }
}

} // verus!
