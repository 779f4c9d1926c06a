//! Threat intelligence: indicators read from feeds (CSV lines, or records of
//! a JSON feed), the table of indicators by id, and the set of malicious
//! addresses derived from it.
//!
//! Fetching the feeds and decoding JSON belong to the caller. Times are
//! nanoseconds since the Unix epoch; a confidence is in thousandths.
use vstd::prelude::*;

use crate::keyed::{find_keyed, has_key, keys_unique, lemma_keyed_absent, lemma_keyed_push, lemma_keyed_update};
use crate::security::settings::{IndicatorType, ThreatIntelConfig, ThreatSeverity};
use crate::security::workflow::{count_views, positive, push_positive};
use crate::text::{
    chars_of, concat, lines, lines_chars, lowercase, owned, split_chars, split_on, str_eq, string_of, to_lowercase,
    views,
};

verus! {

/// One indicator of a threat.
pub struct ThreatIndicator {
    pub id: String,
    pub indicator_type: IndicatorType,
    pub value: String,
    pub severity: ThreatSeverity,
    pub confidence_milli: u32,
    pub source: String,
    pub description: Option<String>,
    pub tags: Vec<String>,
    pub first_seen: u64,
    pub last_seen: u64,
    pub expires_at: Option<u64>,
    pub is_active: bool,
}

/// One record of a JSON feed. The times are offsets in seconds from the
/// moment the feed is read: first and last seen at or before it, expiry at
/// or after it.
pub struct ThreatIndicatorData {
    pub value: String,
    pub indicator_type: String,
    pub severity: String,
    pub confidence_milli: Option<u32>,
    pub description: Option<String>,
    pub tags: Option<Vec<String>>,
    pub first_seen: Option<i64>,
    pub last_seen: Option<i64>,
    pub expires_at: Option<i64>,
}

/// An indicator read from one CSV line, before it is given an id.
pub struct ParsedIndicator {
    pub indicator_type: IndicatorType,
    pub value: String,
    pub severity: ThreatSeverity,
}

/// The type named in a CSV line, by its lower-cased name; other names are
/// skipped.
pub open spec fn csv_type(name: Seq<char>) -> Option<IndicatorType> {
    if name == "ip"@ || name == "ip_address"@ {
        Some(IndicatorType::IpAddress)
    } else if name == "domain"@ {
        Some(IndicatorType::Domain)
    } else if name == "url"@ {
        Some(IndicatorType::Url)
    } else if name == "hash"@ {
        Some(IndicatorType::Hash)
    } else {
        None
    }
}

/// The type named in a JSON record, by its lower-cased name; an address by
/// default.
pub open spec fn feed_type(name: Seq<char>) -> IndicatorType {
    if name == "email"@ {
        IndicatorType::Email
    } else {
        match csv_type(name) {
            Some(t) => t,
            None => IndicatorType::IpAddress,
        }
    }
}

/// The severity named, by its lower-cased name; medium by default.
pub open spec fn severity_named(name: Seq<char>) -> ThreatSeverity {
    if name == "low"@ {
        ThreatSeverity::Low
    } else if name == "high"@ {
        ThreatSeverity::High
    } else if name == "critical"@ {
        ThreatSeverity::Critical
    } else {
        ThreatSeverity::Medium
    }
}

fn type_for_csv(lowered: &str) -> (r: Option<IndicatorType>)
    ensures
        r == csv_type(lowered@),
{
    if str_eq(lowered, "ip") || str_eq(lowered, "ip_address") {
        Some(IndicatorType::IpAddress)
    } else if str_eq(lowered, "domain") {
        Some(IndicatorType::Domain)
    } else if str_eq(lowered, "url") {
        Some(IndicatorType::Url)
    } else if str_eq(lowered, "hash") {
        Some(IndicatorType::Hash)
    } else {
        None
    }
}

/// The indicator type of a JSON record's type name.
pub fn indicator_type_named(name: &str) -> (r: IndicatorType)
    ensures
        r == feed_type(lowercase(name@)),
{
    let lowered = to_lowercase(name);
    if str_eq(lowered.as_str(), "email") {
        IndicatorType::Email
    } else {
        match type_for_csv(lowered.as_str()) {
            Some(t) => t,
            None => IndicatorType::IpAddress,
        }
    }
}

/// The severity of a severity name.
pub fn threat_severity_named(name: &str) -> (r: ThreatSeverity)
    ensures
        r == severity_named(lowercase(name@)),
{
    let lowered = to_lowercase(name);
    let l = lowered.as_str();
    if str_eq(l, "low") {
        ThreatSeverity::Low
    } else if str_eq(l, "high") {
        ThreatSeverity::High
    } else if str_eq(l, "critical") {
        ThreatSeverity::Critical
    } else {
        ThreatSeverity::Medium
    }
}

/// The indicator on a CSV line `type,value[,severity,...]`, if its type is
/// known.
pub open spec fn csv_line(line: Seq<char>) -> Option<(IndicatorType, Seq<char>, ThreatSeverity)> {
    let parts = split_on(line, ',');
    if parts.len() < 2 {
        None
    } else {
        match csv_type(lowercase(parts[0])) {
            None => None,
            Some(t) => Some(
                (
                    t,
                    parts[1],
                    if parts.len() > 2 {
                        severity_named(lowercase(parts[2]))
                    } else {
                        ThreatSeverity::Medium
                    },
                ),
            ),
        }
    }
}

/// The indicators on `rows`, in order.
pub open spec fn csv_indicators(rows: Seq<Seq<char>>) -> Seq<(IndicatorType, Seq<char>, ThreatSeverity)>
    decreases rows.len(),
{
    if rows.len() == 0 {
        Seq::empty()
    } else {
        let pre = csv_indicators(rows.drop_last());
        match csv_line(rows.last()) {
            Some(x) => pre.push(x),
            None => pre,
        }
    }
}

/// The lines of a CSV feed after its header.
pub open spec fn csv_body(content: Seq<char>) -> Seq<Seq<char>> {
    let ls = lines(content);
    if ls.len() == 0 {
        ls
    } else {
        ls.drop_first()
    }
}

pub open spec fn parsed_view(p: ParsedIndicator) -> (IndicatorType, Seq<char>, ThreatSeverity) {
    (p.indicator_type, p.value@, p.severity)
}

fn parse_csv_line(line: &Vec<char>) -> (r: Option<ParsedIndicator>)
    ensures
        match r {
            Some(p) => csv_line(line@) == Some(parsed_view(p)),
            None => csv_line(line@) is None,
        },
{
    let parts = split_chars(line.as_slice(), ',');
    if parts.len() < 2 {
        return None;
    }
    let name = string_of(parts[0].as_slice());
    let lowered = to_lowercase(name.as_str());
    let t = match type_for_csv(lowered.as_str()) {
        Some(t) => t,
        None => {
            return None;
        },
    };
    let severity = if parts.len() > 2 {
        let s = string_of(parts[2].as_slice());
        threat_severity_named(s.as_str())
    } else {
        ThreatSeverity::Medium
    };
    Some(ParsedIndicator { indicator_type: t, value: string_of(parts[1].as_slice()), severity })
}

/// The indicators of a CSV feed: one per line after the header whose type
/// is known, the severity medium unless given.
pub fn parse_csv_threat_data(content: &str) -> (r: Vec<ParsedIndicator>)
    ensures
        r@.map_values(|p: ParsedIndicator| parsed_view(p)) == csv_indicators(csv_body(content@)),
{
    let ls = lines_chars(chars_of(content).as_slice());
    let ghost body = csv_body(content@);
    let mut out: Vec<ParsedIndicator> = Vec::new();
    if ls.len() == 0 {
        assert(body.len() == 0);
        assert(out@.map_values(|p: ParsedIndicator| parsed_view(p)) =~= Seq::empty());
        return out;
    }
    let mut i: usize = 1;
    assert(body.subrange(0, 0) =~= Seq::<Seq<char>>::empty());
    assert(out@.map_values(|p: ParsedIndicator| parsed_view(p)) =~= Seq::empty());
    while i < ls.len()
        invariant
            1 <= i <= ls@.len(),
            ls@.len() == lines(content@).len(),
            forall|k: int| 0 <= k < ls@.len() ==> #[trigger] ls@[k]@ == lines(content@)[k],
            body == lines(content@).drop_first(),
            out@.map_values(|p: ParsedIndicator| parsed_view(p)) == csv_indicators(body.subrange(0, i - 1)),
        decreases ls@.len() - i,
    {
        let ghost before = out@;
        proof {
            assert(body.subrange(0, i as int).drop_last() =~= body.subrange(0, i - 1));
            assert(body.subrange(0, i as int).last() == ls@[i as int]@);
        }
        match parse_csv_line(&ls[i]) {
            Some(p) => {
                out.push(p);
                assert(out@.map_values(|p: ParsedIndicator| parsed_view(p)) =~= before.map_values(
                    |p: ParsedIndicator| parsed_view(p),
                ).push(parsed_view(out@.last())));
            },
            None => {},
        }
        i = i + 1;
    }
    assert(body.subrange(0, ls@.len() - 1) =~= body);
    out
}

/// The id of an indicator from `source`, made unique by `unique`.
pub open spec fn indicator_id(source: Seq<char>, unique: Seq<char>) -> Seq<char> {
    source + "-"@ + unique
}

fn make_id(source: &str, unique: &str) -> (r: String)
    ensures
        r@ == indicator_id(source@, unique@),
{
    let mut r = concat(source, "-");
    r.append(unique);
    r
}

/// The indicator of a CSV line, read from `source` at `now`: active, with a
/// confidence of 0.8, no description, tags or expiry.
pub fn csv_indicator(p: ParsedIndicator, source: &str, unique: &str, now: u64) -> (r: ThreatIndicator)
    ensures
        r.id@ == indicator_id(source@, unique@),
        r.indicator_type == p.indicator_type,
        r.value == p.value,
        r.severity == p.severity,
        r.confidence_milli == 800,
        r.source@ == source@,
        r.description is None,
        r.tags@.len() == 0,
        r.first_seen == now,
        r.last_seen == now,
        r.expires_at is None,
        r.is_active,
{
    ThreatIndicator {
        id: make_id(source, unique),
        indicator_type: p.indicator_type,
        value: p.value,
        severity: p.severity,
        confidence_milli: 800,
        source: owned(source),
        description: None,
        tags: Vec::new(),
        first_seen: now,
        last_seen: now,
        expires_at: None,
        is_active: true,
    }
}

/// `now` moved by `secs` seconds, kept within the range of the clock.
pub open spec fn shifted(now: u64, secs: i64) -> u64 {
    let t = now + secs * 1_000_000_000;
    if t < 0 {
        0
    } else if t > u64::MAX {
        u64::MAX
    } else {
        t as u64
    }
}

fn shift(now: u64, secs: i64) -> (r: u64)
    ensures
        r == shifted(now, secs),
{
    let t: i128 = now as i128 + (secs as i128) * 1_000_000_000;
    if t < 0 {
        0
    } else if t > u64::MAX as i128 {
        u64::MAX
    } else {
        t as u64
    }
}

/// A feed's times are in their range: seen at or before now, expiring at
/// or after it.
pub open spec fn feed_times_valid(d: ThreatIndicatorData) -> bool {
    &&& (d.first_seen matches Some(t) ==> t <= 0)
    &&& (d.last_seen matches Some(t) ==> t <= 0)
    &&& (d.expires_at matches Some(t) ==> t >= 0)
}

/// The indicator of a JSON record read from `source` at `now`: the type
/// an address and the severity medium unless named, the confidence 0.8
/// unless given, first and last seen now unless given, active.
pub fn convert_to_indicator(data: ThreatIndicatorData, source: &str, unique: &str, now: u64) -> (r: ThreatIndicator)
    requires
        feed_times_valid(data),
    ensures
        r.id@ == indicator_id(source@, unique@),
        r.indicator_type == feed_type(lowercase(data.indicator_type@)),
        r.value == data.value,
        r.severity == severity_named(lowercase(data.severity@)),
        r.confidence_milli == match data.confidence_milli {
            Some(c) => c,
            None => 800,
        },
        r.source@ == source@,
        r.description == data.description,
        r.tags@ == match data.tags {
            Some(t) => t@,
            None => Seq::empty(),
        },
        r.first_seen == match data.first_seen {
            Some(t) => shifted(now, t),
            None => now,
        },
        r.last_seen == match data.last_seen {
            Some(t) => shifted(now, t),
            None => now,
        },
        r.expires_at == match data.expires_at {
            Some(t) => Some(shifted(now, t)),
            None => None,
        },
        r.is_active,
{
    let indicator_type = indicator_type_named(data.indicator_type.as_str());
    let severity = threat_severity_named(data.severity.as_str());
    let first_seen = match data.first_seen {
        Some(t) => shift(now, t),
        None => now,
    };
    let last_seen = match data.last_seen {
        Some(t) => shift(now, t),
        None => now,
    };
    let expires_at = match data.expires_at {
        Some(t) => Some(shift(now, t)),
        None => None,
    };
    let confidence_milli = match data.confidence_milli {
        Some(c) => c,
        None => 800,
    };
    let tags = match data.tags {
        Some(t) => t,
        None => Vec::new(),
    };
    ThreatIndicator {
        id: make_id(source, unique),
        indicator_type,
        value: data.value,
        severity,
        confidence_milli,
        source: owned(source),
        description: data.description,
        tags,
        first_seen,
        last_seen,
        expires_at,
        is_active: true,
    }
}


pub open spec fn indicator_key() -> spec_fn(ThreatIndicator) -> Seq<char> {
    |i: ThreatIndicator| i.id@
}

/// An active address indicator of high or critical severity.
pub open spec fn is_malicious(i: ThreatIndicator) -> bool {
    &&& i.indicator_type == IndicatorType::IpAddress
    &&& i.is_active
    &&& (i.severity == ThreatSeverity::High || i.severity == ThreatSeverity::Critical)
}

/// The addresses that some malicious indicator of `t` names.
pub open spec fn malicious_values(t: Seq<ThreatIndicator>) -> Set<Seq<char>> {
    Set::new(|v: Seq<char>| exists|i: int| 0 <= i < t.len() && is_malicious(#[trigger] t[i]) && t[i].value@ == v)
}

pub open spec fn active_of_type(ty: IndicatorType) -> spec_fn(ThreatIndicator) -> bool {
    |i: ThreatIndicator| i.is_active && i.indicator_type == ty
}

pub open spec fn active_of_severity(s: ThreatSeverity) -> spec_fn(ThreatIndicator) -> bool {
    |i: ThreatIndicator| i.is_active && i.severity == s
}

pub open spec fn active_indicator() -> spec_fn(ThreatIndicator) -> bool {
    |i: ThreatIndicator| i.is_active
}

/// Whether an indicator has expired at `now`.
pub open spec fn expired_at(i: ThreatIndicator, now: u64) -> bool {
    match i.expires_at {
        Some(e) => e <= now,
        None => false,
    }
}

/// Figures on the indicators.
pub struct ThreatStats {
    pub total_indicators: usize,
    pub malicious_ips: usize,
    /// Whole seconds since the last update.
    pub last_update_secs: u64,
    pub update_interval_minutes: u64,
    pub sources: usize,
    pub enabled_sources: usize,
    /// Each type with at least one active indicator, and how many.
    pub indicators_by_type: Vec<(IndicatorType, usize)>,
    /// Each severity with at least one active indicator, and how many.
    pub indicators_by_severity: Vec<(ThreatSeverity, usize)>,
}

/// The indicators by id, and the malicious addresses as of the last update.
pub struct ThreatIntelManager {
    pub config: ThreatIntelConfig,
    pub indicators: Vec<ThreatIndicator>,
    pub malicious_ips: Vec<String>,
    pub last_update: u64,
}

impl ThreatIntelManager {
    /// No two indicators share an id, and no address is listed twice.
    pub open spec fn wf(&self) -> bool {
        &&& keys_unique(self.indicators@, indicator_key())
        &&& views(self.malicious_ips@).no_duplicates()
    }

    /// The indicator with id `id`.
    pub open spec fn indicator(&self, id: Seq<char>) -> Option<ThreatIndicator> {
        find_keyed(self.indicators@, indicator_key(), id)
    }

    pub fn new(config: ThreatIntelConfig, now: u64) -> (r: ThreatIntelManager)
        ensures
            r.wf(),
            r.config == config,
            r.indicators@.len() == 0,
            r.malicious_ips@.len() == 0,
            r.last_update == now,
    {
        let r = ThreatIntelManager { config, indicators: Vec::new(), malicious_ips: Vec::new(), last_update: now };
        assert(views(r.malicious_ips@) =~= Seq::<Seq<char>>::empty());
        r
    }

    fn put_indicator(&mut self, x: ThreatIndicator)
        requires
            keys_unique(old(self).indicators@, indicator_key()),
        ensures
            keys_unique(final(self).indicators@, indicator_key()),
            final(self).indicator(x.id@) == Some(x),
            forall|k: Seq<char>| k != x.id@ ==> #[trigger] final(self).indicator(k) == old(self).indicator(k),
            final(self).config == old(self).config,
            final(self).malicious_ips == old(self).malicious_ips,
            final(self).last_update == old(self).last_update,
    {
        let ghost before = self.indicators@;
        let ghost xv = x;
        let mut i: usize = 0;
        while i < self.indicators.len()
            invariant
                i <= self.indicators@.len(),
                self.indicators@ == before,
                before == old(self).indicators@,
                xv == x,
                self.config == old(self).config,
                self.malicious_ips == old(self).malicious_ips,
                self.last_update == old(self).last_update,
                keys_unique(before, indicator_key()),
                forall|j: int| 0 <= j < i ==> (indicator_key())(#[trigger] before[j]) != xv.id@,
            decreases self.indicators@.len() - i,
        {
            if str_eq(self.indicators[i].id.as_str(), x.id.as_str()) {
                self.indicators.set(i, x);
                proof {
                    lemma_keyed_update(before, indicator_key(), i as int, xv);
                    assert forall|k: Seq<char>| k != xv.id@ implies #[trigger] self.indicator(k) == old(self).indicator(k) by {
                        assert(find_keyed(before.update(i as int, xv), indicator_key(), k) == find_keyed(before, indicator_key(), k));
                    }
                }
                return;
            }
            i = i + 1;
        }
        proof {
            lemma_keyed_absent(before, indicator_key(), xv.id@);
            assert(!has_key(before, indicator_key(), xv.id@));
            lemma_keyed_push(before, indicator_key(), xv);
        }
        self.indicators.push(x);
    }

    /// Stores a batch of indicators in order; an indicator replaces the one
    /// with the same id.
    pub fn store_indicators(&mut self, batch: Vec<ThreatIndicator>)
        requires
            old(self).wf(),
        ensures
            final(self).wf(),
            final(self).config == old(self).config,
            final(self).malicious_ips == old(self).malicious_ips,
            final(self).last_update == old(self).last_update,
            forall|k: Seq<char>| #[trigger] final(self).indicator(k) == match find_keyed(batch@, indicator_key(), k) {
                Some(x) => Some(x),
                None => old(self).indicator(k),
            },
    {
        let ghost all = batch@;
        let total = batch.len();
        let mut rest = batch;
        let mut i: usize = 0;
        assert(all.skip(0) =~= all);
        while rest.len() > 0
            invariant
                i <= all.len(),
                all.len() == total,
                rest@ == all.skip(i as int),
                keys_unique(self.indicators@, indicator_key()),
                views(self.malicious_ips@).no_duplicates(),
                self.config == old(self).config,
                self.malicious_ips == old(self).malicious_ips,
                self.last_update == old(self).last_update,
                forall|k: Seq<char>| #[trigger] self.indicator(k) == match find_keyed(all.subrange(0, i as int), indicator_key(), k) {
                    Some(x) => Some(x),
                    None => old(self).indicator(k),
                },
            decreases rest@.len(),
        {
            let x = rest.remove(0);
            let ghost xv = x;
            let ghost mid = *self;
            proof {
                assert(xv == all[i as int]);
                assert(all.subrange(0, i + 1).drop_last() =~= all.subrange(0, i as int));
                assert(all.subrange(0, i + 1).last() == xv);
                assert(rest@ =~= all.skip(i + 1));
            }
            self.put_indicator(x);
            proof {
                assert forall|k: Seq<char>| #[trigger] self.indicator(k) == match find_keyed(all.subrange(0, i + 1), indicator_key(), k) {
                    Some(y) => Some(y),
                    None => old(self).indicator(k),
                } by {
                    if k != xv.id@ {
                        assert(mid.indicator(k) == self.indicator(k));
                    }
                }
            }
            i = i + 1;
        }
        proof {
            assert(all.subrange(0, i as int) =~= all);
        }
    }

    /// Lists the address of every malicious indicator, once each.
    pub fn update_malicious_ip_cache(&mut self)
        requires
            old(self).wf(),
        ensures
            final(self).wf(),
            final(self).config == old(self).config,
            final(self).indicators == old(self).indicators,
            final(self).last_update == old(self).last_update,
            views(final(self).malicious_ips@).to_set() == malicious_values(old(self).indicators@),
    {
        let mut ips: Vec<String> = Vec::new();
        let mut i: usize = 0;
        assert(views(ips@) =~= Seq::<Seq<char>>::empty());
        while i < self.indicators.len()
            invariant
                i <= self.indicators@.len(),
                views(ips@).no_duplicates(),
                forall|v: Seq<char>| views(ips@).contains(v) <==> exists|j: int|
                    0 <= j < i && is_malicious(#[trigger] self.indicators@[j]) && self.indicators@[j].value@ == v,
            decreases self.indicators@.len() - i,
        {
            let x = &self.indicators[i];
            let ghost old_ips = views(ips@);
            let hit = x.indicator_type == IndicatorType::IpAddress && x.is_active && (x.severity == ThreatSeverity::High
                || x.severity == ThreatSeverity::Critical);
            assert(hit == is_malicious(self.indicators@[i as int]));
            if hit {
                let mut k: usize = 0;
                let mut seen = false;
                while k < ips.len()
                    invariant
                        k <= ips@.len(),
                        views(ips@) == old_ips,
                        seen == exists|j: int| 0 <= j < k && (#[trigger] ips@[j])@ == x.value@,
                    decreases ips@.len() - k,
                {
                    if str_eq(ips[k].as_str(), x.value.as_str()) {
                        seen = true;
                    }
                    k = k + 1;
                }
                proof {
                    if old_ips.contains(x.value@) {
                        let j = choose|j: int| 0 <= j < old_ips.len() && old_ips[j] == x.value@;
                        assert(ips@[j]@ == x.value@);
                    }
                    if seen {
                        let j = choose|j: int| 0 <= j < k && (#[trigger] ips@[j])@ == x.value@;
                        assert(old_ips[j] == x.value@);
                    }
                }
                if !seen {
                    ips.push(x.value.clone());
                    assert(views(ips@) =~= old_ips.push(x.value@));
                }
            }
            proof {
                let new_ips = views(ips@);
                assert(new_ips == old_ips || (hit && new_ips == old_ips.push(x.value@)));
                assert(hit ==> old_ips.contains(x.value@) || new_ips == old_ips.push(x.value@));
                if new_ips != old_ips {
                    assert(new_ips[old_ips.len() as int] == x.value@);
                    assert forall|v: Seq<char>| old_ips.contains(v) implies new_ips.contains(v) by {
                        let j = choose|j: int| 0 <= j < old_ips.len() && old_ips[j] == v;
                        assert(new_ips[j] == old_ips[j]);
                    }
                    assert forall|v: Seq<char>| new_ips.contains(v) implies old_ips.contains(v) || v == x.value@ by {
                        let j = choose|j: int| 0 <= j < new_ips.len() && new_ips[j] == v;
                        if j < old_ips.len() {
                            assert(old_ips[j] == new_ips[j]);
                        }
                    }
                }
                assert(hit ==> new_ips.contains(x.value@));
                assert(forall|v: Seq<char>| old_ips.contains(v) ==> new_ips.contains(v));
                assert(forall|v: Seq<char>| new_ips.contains(v) ==> old_ips.contains(v) || (hit && v == x.value@));
                assert forall|v: Seq<char>| new_ips.contains(v) <==> exists|j: int|
                    0 <= j < i + 1 && is_malicious(#[trigger] self.indicators@[j]) && self.indicators@[j].value@ == v by {
                    if exists|j: int| 0 <= j < i + 1 && is_malicious(#[trigger] self.indicators@[j]) && self.indicators@[j].value@ == v {
                        let j = choose|j: int| 0 <= j < i + 1 && is_malicious(#[trigger] self.indicators@[j]) && self.indicators@[j].value@ == v;
                        if j < i {
                            assert(old_ips.contains(v));
                        }
                    }
                    if new_ips.contains(v) && !old_ips.contains(v) {
                        assert(is_malicious(self.indicators@[i as int]) && self.indicators@[i as int].value@ == v);
                    }
                }
            }
            i = i + 1;
        }
        proof {
            assert(views(ips@).to_set() =~= malicious_values(self.indicators@)) by {
                assert forall|v: Seq<char>| views(ips@).to_set().contains(v) <==> malicious_values(self.indicators@).contains(v) by {
                    assert(views(ips@).to_set().contains(v) == views(ips@).contains(v));
                }
            }
        }
        self.malicious_ips = ips;
    }

    /// Whether `ip` is among the malicious addresses of the last update.
    pub fn is_malicious_ip(&self, ip: &str) -> (r: bool)
        ensures
            r == views(self.malicious_ips@).contains(ip@),
    {
        let mut i: usize = 0;
        while i < self.malicious_ips.len()
            invariant
                i <= self.malicious_ips@.len(),
                forall|j: int| 0 <= j < i ==> (#[trigger] self.malicious_ips@[j])@ != ip@,
            decreases self.malicious_ips@.len() - i,
        {
            if str_eq(self.malicious_ips[i].as_str(), ip) {
                assert(views(self.malicious_ips@)[i as int] == ip@);
                return true;
            }
            i = i + 1;
        }
        assert forall|j: int| 0 <= j < views(self.malicious_ips@).len() implies views(self.malicious_ips@)[j] != ip@ by {
            assert(views(self.malicious_ips@)[j] == self.malicious_ips@[j]@);
        }
        false
    }

    /// An active indicator of type `indicator_type` for `value`, the first
    /// in the table.
    pub fn check_indicator(&self, value: &str, indicator_type: IndicatorType) -> (r: Option<&ThreatIndicator>)
        ensures
            match r {
                Some(x) => x.indicator_type == indicator_type && x.value@ == value@ && x.is_active
                    && self.indicators@.contains(*x),
                None => forall|j: int| 0 <= j < self.indicators@.len() ==> !(#[trigger] self.indicators@[j].indicator_type
                    == indicator_type && self.indicators@[j].value@ == value@ && self.indicators@[j].is_active),
            },
    {
        let mut i: usize = 0;
        while i < self.indicators.len()
            invariant
                i <= self.indicators@.len(),
                forall|j: int| 0 <= j < i ==> !(#[trigger] self.indicators@[j].indicator_type == indicator_type
                    && self.indicators@[j].value@ == value@ && self.indicators@[j].is_active),
            decreases self.indicators@.len() - i,
        {
            let x = &self.indicators[i];
            if x.indicator_type == indicator_type && x.is_active && str_eq(x.value.as_str(), value) {
                assert(self.indicators@[i as int] == *x);
                return Some(x);
            }
            i = i + 1;
        }
        None
    }

    fn active_where(&self, Ghost(f): Ghost<spec_fn(ThreatIndicator) -> bool>, ty: Option<IndicatorType>, sev: Option<ThreatSeverity>) -> (r: Vec<&ThreatIndicator>)
        requires
            forall|x: ThreatIndicator| #[trigger] f(x) == (x.is_active && (ty matches Some(t) ==> x.indicator_type == t) && (
            sev matches Some(s) ==> x.severity == s)),
        ensures
            r@.len() == self.indicators@.filter(f).len(),
            forall|j: int| 0 <= j < r@.len() ==> *#[trigger] r@[j] == self.indicators@.filter(f)[j],
    {
        let mut r: Vec<&ThreatIndicator> = Vec::new();
        let mut i: usize = 0;
        while i < self.indicators.len()
            invariant
                forall|x: ThreatIndicator| #[trigger] f(x) == (x.is_active && (ty matches Some(t) ==> x.indicator_type == t) && (
                sev matches Some(s) ==> x.severity == s)),
                i <= self.indicators@.len(),
                r@.len() == self.indicators@.subrange(0, i as int).filter(f).len(),
                forall|j: int| 0 <= j < r@.len() ==> *#[trigger] r@[j] == self.indicators@.subrange(0, i as int).filter(f)[j],
            decreases self.indicators@.len() - i,
        {
            proof {
                assert(self.indicators@.subrange(0, i + 1) =~= self.indicators@.subrange(0, i as int).push(self.indicators@[i as int]));
                self.indicators@.subrange(0, i as int).lemma_filter_push(self.indicators@[i as int], f);
            }
            let x = &self.indicators[i];
            let keep = x.is_active && match ty {
                Some(t) => x.indicator_type == t,
                None => true,
            } && match sev {
                Some(s) => x.severity == s,
                None => true,
            };
            if keep {
                r.push(x);
            }
            i = i + 1;
        }
        assert(self.indicators@.subrange(0, self.indicators@.len() as int) =~= self.indicators@);
        r
    }

    /// The active indicators of one type, in table order.
    pub fn get_indicators_by_type(&self, indicator_type: IndicatorType) -> (r: Vec<&ThreatIndicator>)
        ensures
            r@.len() == self.indicators@.filter(active_of_type(indicator_type)).len(),
            forall|j: int| 0 <= j < r@.len() ==> *#[trigger] r@[j] == self.indicators@.filter(active_of_type(indicator_type))[j],
    {
        self.active_where(Ghost(active_of_type(indicator_type)), Some(indicator_type), None)
    }

    /// The active indicators of one severity, in table order.
    pub fn get_indicators_by_severity(&self, severity: ThreatSeverity) -> (r: Vec<&ThreatIndicator>)
        ensures
            r@.len() == self.indicators@.filter(active_of_severity(severity)).len(),
            forall|j: int| 0 <= j < r@.len() ==> *#[trigger] r@[j] == self.indicators@.filter(active_of_severity(severity))[j],
    {
        self.active_where(Ghost(active_of_severity(severity)), None, Some(severity))
    }

    /// The number of active indicators.
    pub fn get_indicators_count(&self) -> (r: usize)
        ensures
            r == self.indicators@.filter(active_indicator()).len(),
    {
        self.active_where(Ghost(active_indicator()), None, None).len()
    }

    /// Deactivates the indicators that have expired at `now`, then lists the
    /// malicious addresses again; returns how many had expired.
    pub fn cleanup_expired_indicators(&mut self, now: u64) -> (n: usize)
        requires
            old(self).wf(),
        ensures
            final(self).wf(),
            final(self).config == old(self).config,
            final(self).last_update == old(self).last_update,
            n == old(self).indicators@.filter(|i: ThreatIndicator| expired_at(i, now)).len(),
            final(self).indicators@.len() == old(self).indicators@.len(),
            forall|j: int| 0 <= j < final(self).indicators@.len() ==> {
                let o = old(self).indicators@[j];
                let x = #[trigger] final(self).indicators@[j];
                &&& x.id == o.id && x.indicator_type == o.indicator_type && x.value == o.value
                &&& x.severity == o.severity && x.expires_at == o.expires_at
                &&& x.is_active == (o.is_active && !expired_at(o, now))
            },
            views(final(self).malicious_ips@).to_set() == malicious_values(final(self).indicators@),
    {
        let ghost before = self.indicators@;
        let ghost f = |i: ThreatIndicator| expired_at(i, now);
        let mut n: usize = 0;
        let mut i: usize = 0;
        while i < self.indicators.len()
            invariant
                f == |i: ThreatIndicator| expired_at(i, now),
                i <= self.indicators@.len(),
                self.indicators@.len() == before.len(),
                before == old(self).indicators@,
                keys_unique(before, indicator_key()),
                views(self.malicious_ips@).no_duplicates(),
                self.config == old(self).config,
                self.last_update == old(self).last_update,
                n == before.subrange(0, i as int).filter(f).len(),
                n <= i,
                forall|j: int| 0 <= j < i ==> {
                    let o = before[j];
                    let x = #[trigger] self.indicators@[j];
                    &&& x.id == o.id && x.indicator_type == o.indicator_type && x.value == o.value
                    &&& x.severity == o.severity && x.expires_at == o.expires_at
                    &&& x.is_active == (o.is_active && !expired_at(o, now))
                },
                forall|j: int| i <= j < before.len() ==> #[trigger] self.indicators@[j] == before[j],
            decreases before.len() - i,
        {
            proof {
                assert(before.subrange(0, i + 1) =~= before.subrange(0, i as int).push(before[i as int]));
                before.subrange(0, i as int).lemma_filter_push(before[i as int], f);
            }
            let expired = match self.indicators[i].expires_at {
                Some(e) => e <= now,
                None => false,
            };
            if expired {
                let x = self.indicators.remove(i);
                let y = ThreatIndicator { is_active: false, ..x };
                self.indicators.insert(i, y);
                n = n + 1;
            }
            i = i + 1;
        }
        proof {
            assert(before.subrange(0, before.len() as int) =~= before);
            let t = self.indicators@;
            assert forall|a: int, b: int| 0 <= a < b < t.len() implies (indicator_key())(#[trigger] t[a]) != (
            indicator_key())(#[trigger] t[b]) by {
                assert(t[a].id == before[a].id);
                assert(t[b].id == before[b].id);
            }
        }
        self.update_malicious_ip_cache();
        n
    }

    /// After the feeds were read at `now`: lists the malicious addresses
    /// again and records the time of the update.
    pub fn record_update(&mut self, now: u64)
        requires
            old(self).wf(),
        ensures
            final(self).wf(),
            final(self).config == old(self).config,
            final(self).indicators == old(self).indicators,
            final(self).last_update == now,
            views(final(self).malicious_ips@).to_set() == malicious_values(old(self).indicators@),
    {
        self.update_malicious_ip_cache();
        self.last_update = now;
    }

    fn count_filter(&self, Ghost(f): Ghost<spec_fn(ThreatIndicator) -> bool>, ty: Option<IndicatorType>, sev: Option<ThreatSeverity>) -> (r: usize)
        requires
            forall|x: ThreatIndicator| #[trigger] f(x) == (x.is_active && (ty matches Some(t) ==> x.indicator_type == t) && (
            sev matches Some(s) ==> x.severity == s)),
        ensures
            r == self.indicators@.filter(f).len(),
    {
        self.active_where(Ghost(f), ty, sev).len()
    }

    /// Figures on the indicators at `now`.
    pub fn get_threat_stats(&self, now: u64) -> (r: ThreatStats)
        ensures
            r.total_indicators == self.indicators@.filter(active_indicator()).len(),
            r.malicious_ips == self.malicious_ips@.len(),
            r.last_update_secs == (if now >= self.last_update { (now - self.last_update) / 1_000_000_000 } else { 0 }),
            r.update_interval_minutes == self.config.update_interval_minutes,
            r.sources == self.config.sources@.len(),
            r.enabled_sources == self.config.sources@.filter(|s: crate::security::settings::ThreatSource| s.enabled).len(),
            count_views(r.indicators_by_type@) == type_list(self.indicators@).filter(positive()),
            count_views(r.indicators_by_severity@) == severity_list(self.indicators@).filter(positive()),
    {
        let mut by_type: Vec<(IndicatorType, usize)> = Vec::new();
        proof {
            reveal(Seq::filter);
            assert(count_views(by_type@) =~= Seq::<(IndicatorType, nat)>::empty().filter(positive()));
        }
        let ghost mut pre: Seq<(IndicatorType, nat)> = Seq::empty();
        let c = self.count_filter(Ghost(active_of_type(IndicatorType::IpAddress)), Some(IndicatorType::IpAddress), None);
        push_positive(&mut by_type, Ghost(pre), IndicatorType::IpAddress, c);
        proof { pre = pre.push((IndicatorType::IpAddress, c as nat)); }
        let c = self.count_filter(Ghost(active_of_type(IndicatorType::Domain)), Some(IndicatorType::Domain), None);
        push_positive(&mut by_type, Ghost(pre), IndicatorType::Domain, c);
        proof { pre = pre.push((IndicatorType::Domain, c as nat)); }
        let c = self.count_filter(Ghost(active_of_type(IndicatorType::Url)), Some(IndicatorType::Url), None);
        push_positive(&mut by_type, Ghost(pre), IndicatorType::Url, c);
        proof { pre = pre.push((IndicatorType::Url, c as nat)); }
        let c = self.count_filter(Ghost(active_of_type(IndicatorType::Hash)), Some(IndicatorType::Hash), None);
        push_positive(&mut by_type, Ghost(pre), IndicatorType::Hash, c);
        proof { pre = pre.push((IndicatorType::Hash, c as nat)); }
        let c = self.count_filter(Ghost(active_of_type(IndicatorType::Email)), Some(IndicatorType::Email), None);
        push_positive(&mut by_type, Ghost(pre), IndicatorType::Email, c);
        proof { pre = pre.push((IndicatorType::Email, c as nat)); }
        let c = self.count_filter(Ghost(active_of_type(IndicatorType::FilePattern)), Some(IndicatorType::FilePattern), None);
        push_positive(&mut by_type, Ghost(pre), IndicatorType::FilePattern, c);
        proof { pre = pre.push((IndicatorType::FilePattern, c as nat)); }
        let c = self.count_filter(Ghost(active_of_type(IndicatorType::MalwareFamily)), Some(IndicatorType::MalwareFamily), None);
        push_positive(&mut by_type, Ghost(pre), IndicatorType::MalwareFamily, c);
        proof { pre = pre.push((IndicatorType::MalwareFamily, c as nat)); }
        assert(pre =~= type_list(self.indicators@));

        let mut by_severity: Vec<(ThreatSeverity, usize)> = Vec::new();
        proof {
            reveal(Seq::filter);
            assert(count_views(by_severity@) =~= Seq::<(ThreatSeverity, nat)>::empty().filter(positive()));
        }
        let ghost mut sp: Seq<(ThreatSeverity, nat)> = Seq::empty();
        let c = self.count_filter(Ghost(active_of_severity(ThreatSeverity::Low)), None, Some(ThreatSeverity::Low));
        push_positive(&mut by_severity, Ghost(sp), ThreatSeverity::Low, c);
        proof { sp = sp.push((ThreatSeverity::Low, c as nat)); }
        let c = self.count_filter(Ghost(active_of_severity(ThreatSeverity::Medium)), None, Some(ThreatSeverity::Medium));
        push_positive(&mut by_severity, Ghost(sp), ThreatSeverity::Medium, c);
        proof { sp = sp.push((ThreatSeverity::Medium, c as nat)); }
        let c = self.count_filter(Ghost(active_of_severity(ThreatSeverity::High)), None, Some(ThreatSeverity::High));
        push_positive(&mut by_severity, Ghost(sp), ThreatSeverity::High, c);
        proof { sp = sp.push((ThreatSeverity::High, c as nat)); }
        let c = self.count_filter(Ghost(active_of_severity(ThreatSeverity::Critical)), None, Some(ThreatSeverity::Critical));
        push_positive(&mut by_severity, Ghost(sp), ThreatSeverity::Critical, c);
        proof { sp = sp.push((ThreatSeverity::Critical, c as nat)); }
        assert(sp =~= severity_list(self.indicators@));

        let ghost g = |s: crate::security::settings::ThreatSource| s.enabled;
        let mut enabled: usize = 0;
        let mut i: usize = 0;
        while i < self.config.sources.len()
            invariant
                g == |s: crate::security::settings::ThreatSource| s.enabled,
                i <= self.config.sources@.len(),
                enabled == self.config.sources@.subrange(0, i as int).filter(g).len(),
                enabled <= i,
            decreases self.config.sources@.len() - i,
        {
            proof {
                assert(self.config.sources@.subrange(0, i + 1) =~= self.config.sources@.subrange(0, i as int).push(
                    self.config.sources@[i as int],
                ));
                self.config.sources@.subrange(0, i as int).lemma_filter_push(self.config.sources@[i as int], g);
            }
            if self.config.sources[i].enabled {
                enabled = enabled + 1;
            }
            i = i + 1;
        }
        assert(self.config.sources@.subrange(0, self.config.sources@.len() as int) =~= self.config.sources@);
        ThreatStats {
            total_indicators: self.get_indicators_count(),
            malicious_ips: self.malicious_ips.len(),
            last_update_secs: if now >= self.last_update { (now - self.last_update) / 1_000_000_000 } else { 0 },
            update_interval_minutes: self.config.update_interval_minutes,
            sources: self.config.sources.len(),
            enabled_sources: enabled,
            indicators_by_type: by_type,
            indicators_by_severity: by_severity,
        }
    }
}

/// Each type with its number of active indicators, in the order of the types.
pub open spec fn type_list(t: Seq<ThreatIndicator>) -> Seq<(IndicatorType, nat)> {
    seq![
        (IndicatorType::IpAddress, t.filter(active_of_type(IndicatorType::IpAddress)).len()),
        (IndicatorType::Domain, t.filter(active_of_type(IndicatorType::Domain)).len()),
        (IndicatorType::Url, t.filter(active_of_type(IndicatorType::Url)).len()),
        (IndicatorType::Hash, t.filter(active_of_type(IndicatorType::Hash)).len()),
        (IndicatorType::Email, t.filter(active_of_type(IndicatorType::Email)).len()),
        (IndicatorType::FilePattern, t.filter(active_of_type(IndicatorType::FilePattern)).len()),
        (IndicatorType::MalwareFamily, t.filter(active_of_type(IndicatorType::MalwareFamily)).len()),
    ]
}

/// Each severity with its number of active indicators, from low to critical.
pub open spec fn severity_list(t: Seq<ThreatIndicator>) -> Seq<(ThreatSeverity, nat)> {
    seq![
        (ThreatSeverity::Low, t.filter(active_of_severity(ThreatSeverity::Low)).len()),
        (ThreatSeverity::Medium, t.filter(active_of_severity(ThreatSeverity::Medium)).len()),
        (ThreatSeverity::High, t.filter(active_of_severity(ThreatSeverity::High)).len()),
        (ThreatSeverity::Critical, t.filter(active_of_severity(ThreatSeverity::Critical)).len()),
    ]
}

/// The outcome recorded for an update: `success`, or `partial` when some
/// feed failed.
pub fn update_outcome(errors: usize) -> (r: &'static str)
    ensures
        r@ == if errors == 0 { "success"@ } else { "partial"@ },
{
    if errors == 0 {
        "success"
    } else {
        "partial"
    }
}


// ── Laws ─────────────────────────────────────────────────────────────────────

/// After an update, an address is reported malicious exactly when some
/// active, high or critical address indicator names it.
pub proof fn lemma_malicious_cache_exact(m: ThreatIntelManager, v: Seq<char>)
    requires
        views(m.malicious_ips@).to_set() == malicious_values(m.indicators@),
    ensures
        views(m.malicious_ips@).contains(v) <==> exists|i: int|
            0 <= i < m.indicators@.len() && is_malicious(#[trigger] m.indicators@[i]) && m.indicators@[i].value@ == v,
{
    assert(views(m.malicious_ips@).to_set().contains(v) == views(m.malicious_ips@).contains(v));
}

/// A low or medium indicator never makes an address malicious.
pub proof fn lemma_low_severity_not_malicious(i: ThreatIndicator)
    requires
        i.severity == ThreatSeverity::Low || i.severity == ThreatSeverity::Medium,
    ensures
        !is_malicious(i),
{
}

} // verus!
