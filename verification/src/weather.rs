//! Weather inputs of the evaporation estimate: which forecast entry to
//! use, the unit of a wind speed, and the local hour of a station.
use crate::instant::{instant_at_or_before, instant_le, parse_rfc3339, rfc3339_parse, utc_now};
use crate::recordings::chars_of;
use vstd::prelude::*;

verus! {

// ---------------------------------------------------------------------
// Forecast entries
// ---------------------------------------------------------------------

/// The part of `s` before its first '/', or all of `s`.
pub open spec fn before_slash(s: Seq<char>, i: int) -> Seq<char>
    decreases s.len() - i,
{
    if i >= s.len() || i < 0 {
        s
    } else if s[i] == '/' {
        s.take(i)
    } else {
        before_slash(s, i + 1)
    }
}

/// The start of a forecast interval written `start/duration`: the instant
/// before the '/', if chrono reads it as RFC 3339.
pub open spec fn valid_time_start(s: Seq<char>) -> Option<(i64, u32)> {
    match rfc3339_parse(before_slash(s, 0)) {
        Ok(t) => Some(t),
        Err(_) => None,
    }
}

/// Reads the start of a forecast interval written `start/duration`.
pub fn parse_valid_time_start(valid_time: &str) -> (res: Option<(i64, u32)>)
    ensures
        res == valid_time_start(valid_time@),
{
    let n = valid_time.unicode_len();
    let mut k: usize = 0;
    while k < n && valid_time.get_char(k) != '/'
        invariant
            k <= n == valid_time@.len(),
            before_slash(valid_time@, 0) == before_slash(valid_time@, k as int),
        decreases n - k,
    {
        k = k + 1;
    }
    proof {
        if k < n {
            assert(valid_time@.take(k as int) =~= before_slash(valid_time@, k as int));
        } else {
            assert(valid_time@.take(k as int) =~= valid_time@);
        }
    }
    let start = valid_time.substring_char(0, k);
    proof {
        assert(start@ =~= before_slash(valid_time@, 0));
    }
    match parse_rfc3339(start) {
        Ok(t) => Some(t),
        Err(_) => None,
    }
}

/// A forecast value as the choice of one needs it: when its interval
/// starts, and whether it holds a value.
pub struct ForecastEntry {
    pub valid_time: String,
    pub has_value: bool,
}

/// Entry `i` holds a value and starts, readably, no later than `now`.
pub open spec fn eligible(entries: Seq<(Seq<char>, bool)>, i: int, now: (i64, u32)) -> bool {
    &&& entries[i].1
    &&& valid_time_start(entries[i].0) matches Some(t) && instant_le(t, now)
}

/// Among the eligible entries below `k`, the one that starts last; of
/// several that start together, the last of them.
pub open spec fn latest_eligible(entries: Seq<(Seq<char>, bool)>, now: (i64, u32), k: int) -> Option<
    int,
>
    decreases k,
{
    if k <= 0 {
        None
    } else {
        let best = latest_eligible(entries, now, k - 1);
        if eligible(entries, k - 1, now) && (best matches Some(b) ==> instant_le(
            valid_time_start(entries[b].0).unwrap(),
            valid_time_start(entries[k - 1].0).unwrap(),
        )) {
            Some(k - 1)
        } else {
            best
        }
    }
}

/// The first entry at or after `i` that holds a value.
pub open spec fn first_with_value(entries: Seq<(Seq<char>, bool)>, i: int) -> Option<int>
    decreases entries.len() - i,
{
    if i < 0 || i >= entries.len() {
        None
    } else if entries[i].1 {
        Some(i)
    } else {
        first_with_value(entries, i + 1)
    }
}

/// The entry to take at `now`: the latest one that has started, else the
/// first one that holds a value.
pub open spec fn pick_spec(entries: Seq<(Seq<char>, bool)>, now: (i64, u32)) -> Option<int> {
    match latest_eligible(entries, now, entries.len() as int) {
        Some(i) => Some(i),
        None => first_with_value(entries, 0),
    }
}

/// The entries as the contracts see them.
pub open spec fn entries_view(entries: Seq<ForecastEntry>) -> Seq<(Seq<char>, bool)> {
    entries.map_values(|e: ForecastEntry| (e.valid_time@, e.has_value))
}

/// Chooses the forecast entry to use at `now`: of the entries that hold a
/// value and have started, the one that started last (the last of several
/// that started together); if there is none, the first entry that holds a
/// value.
pub fn pick_latest_or_current_at(entries: &Vec<ForecastEntry>, now: (i64, u32)) -> (res: Option<
    usize,
>)
    ensures
        match pick_spec(entries_view(entries@), now) {
            Some(i) => res == Some(i as usize),
            None => res is None,
        },
{
    let ghost ev = entries_view(entries@);
    let mut best: Option<usize> = None;
    let mut best_start: (i64, u32) = (0, 0);
    let mut i: usize = 0;
    while i < entries.len()
        invariant
            i <= entries@.len(),
            ev == entries_view(entries@),
            match latest_eligible(ev, now, i as int) {
                Some(b) => best == Some(b as usize) && valid_time_start(ev[b].0) == Some(best_start),
                None => best is None,
            },
        decreases entries@.len() - i,
    {
        if entries[i].has_value {
            let start = parse_valid_time_start(entries[i].valid_time.as_str());
            if let Some(t) = start {
                if instant_at_or_before(t, now) {
                    let better = match best {
                        None => true,
                        Some(_) => instant_at_or_before(best_start, t),
                    };
                    if better {
                        best = Some(i);
                        best_start = t;
                    }
                }
            }
        }
        i = i + 1;
    }
    if best.is_some() {
        return best;
    }
    let mut j: usize = 0;
    while j < entries.len()
        invariant
            j <= entries@.len(),
            ev == entries_view(entries@),
            ev.len() == entries@.len(),
            latest_eligible(ev, now, ev.len() as int) is None,
            first_with_value(ev, 0) == first_with_value(ev, j as int),
        decreases entries@.len() - j,
    {
        if entries[j].has_value {
            return Some(j);
        }
        j = j + 1;
    }
    None
}

/// Chooses the forecast entry to use now (by the system clock), as
/// `pick_latest_or_current_at` chooses it.
pub fn pick_latest_or_current_index(entries: &Vec<ForecastEntry>) -> (res: Option<usize>)
    ensures
        exists|now: (i64, u32)|
            match #[trigger] pick_spec(entries_view(entries@), now) {
                Some(i) => res == Some(i as usize),
                None => res is None,
            },
{
    let now = utc_now();
    pick_latest_or_current_at(entries, now)
}

// ---------------------------------------------------------------------
// Wind speed units
// ---------------------------------------------------------------------

/// The unit of a wind speed, as far as the server tells units apart.
#[derive(PartialEq, Eq, Structural, Clone, Copy, Debug)]
pub enum WindUnit {
    KilometresPerHour,
    MetresPerSecond,
    Knots,
    /// Any other unit: the value is taken as it is.
    Other,
}

/// `p` occurs in `s` at index `i`.
pub open spec fn occurs_at(s: Seq<char>, p: Seq<char>, i: int) -> bool {
    0 <= i && i + p.len() <= s.len() && s.subrange(i, i + p.len()) == p
}

/// `p` occurs somewhere in `s`.
pub open spec fn occurs_in(s: Seq<char>, p: Seq<char>) -> bool {
    exists|i: int| occurs_at(s, p, i)
}

/// Whether `p` occurs in `s`.
fn contains_chars(s: &Vec<char>, p: &Vec<char>) -> (res: bool)
    ensures
        res == occurs_in(s@, p@),
{
    if p.len() > s.len() {
        proof {
            assert forall|i: int| !occurs_at(s@, p@, i) by {}
        }
        return false;
    }
    let last = s.len() - p.len();
    let mut i: usize = 0;
    loop
        invariant
            p@.len() <= s@.len() <= usize::MAX,
            last == s@.len() - p@.len(),
            i <= last,
            forall|k: int| 0 <= k < i ==> !occurs_at(s@, p@, k),
        decreases last - i,
    {
        let mut j: usize = 0;
        let mut same = true;
        while j < p.len()
            invariant
                j <= p@.len(),
                p@.len() <= s@.len() <= usize::MAX,
                i <= last,
                last == s@.len() - p@.len(),
                same == (forall|m: int| 0 <= m < j ==> s@[i + m] == p@[m]),
            decreases p@.len() - j,
        {
            if s[i + j] != p[j] {
                same = false;
            }
            j = j + 1;
        }
        if same {
            proof {
                assert(s@.subrange(i as int, i + p@.len()) =~= p@);
                assert(occurs_at(s@, p@, i as int));
            }
            return true;
        }
        proof {
            if occurs_at(s@, p@, i as int) {
                let m = choose|m: int| 0 <= m < p@.len() && s@[i + m] != p@[m];
                assert(s@.subrange(i as int, i + p@.len())[m] == s@[i + m]);
            }
        }
        if i == last {
            proof {
                assert forall|k: int| !occurs_at(s@, p@, k) by {
                    if 0 <= k <= i {
                    }
                }
            }
            return false;
        }
        i = i + 1;
    }
}

/// The unit that a unit-of-measure text names: one containing "km_h-1" is
/// km/h, else one containing "m_s-1" is m/s, else one containing "kn" is
/// knots.
pub open spec fn wind_unit_spec(uom: Seq<char>) -> WindUnit {
    if occurs_in(uom, "km_h-1"@) {
        WindUnit::KilometresPerHour
    } else if occurs_in(uom, "m_s-1"@) {
        WindUnit::MetresPerSecond
    } else if occurs_in(uom, "kn"@) {
        WindUnit::Knots
    } else {
        WindUnit::Other
    }
}

/// Reads the unit of a wind speed from its unit-of-measure text.
pub fn wind_speed_unit(uom: &str) -> (res: WindUnit)
    ensures
        res == wind_unit_spec(uom@),
{
    let u = chars_of(uom);
    if contains_chars(&u, &chars_of("km_h-1")) {
        WindUnit::KilometresPerHour
    } else if contains_chars(&u, &chars_of("m_s-1")) {
        WindUnit::MetresPerSecond
    } else if contains_chars(&u, &chars_of("kn")) {
        WindUnit::Knots
    } else {
        WindUnit::Other
    }
}

// ---------------------------------------------------------------------
// Local time
// ---------------------------------------------------------------------

/// The hour of the day, 0 to 23, at `offset_hours` from UTC when it is
/// `utc_hour` in UTC.
pub open spec fn local_hour_spec(utc_hour: int, offset_hours: int) -> int {
    (utc_hour + offset_hours) % 24
}

/// The hour of the day at `offset_hours` from UTC when it is `utc_hour`
/// in UTC (the remainder is taken the Euclidean way: never negative).
pub fn local_hour(utc_hour: u32, offset_hours: i64) -> (res: i64)
    requires
        utc_hour + offset_hours <= i64::MAX,
    ensures
        res == local_hour_spec(utc_hour as int, offset_hours as int),
        0 <= res < 24,
        (res - utc_hour - offset_hours) % 24 == 0,
{
    proof {
        law_local_hour_is_the_hour_of_the_day(utc_hour as int, offset_hours as int);
    }
    let sum = utc_hour as i64 + offset_hours;
    let r = sum % 24;
    if r < 0 {
        r + 24
    } else {
        r
    }
}


// ---------------------------------------------------------------------
// Laws
// ---------------------------------------------------------------------

/// The entry chosen among those that have started is one of them, no other
/// of them starts later, and every one after it starts strictly earlier.
pub proof fn law_latest_is_latest(entries: Seq<(Seq<char>, bool)>, now: (i64, u32), k: int)
    requires
        latest_eligible(entries, now, k) is Some,
    ensures
        ({
            let i = latest_eligible(entries, now, k).unwrap();
            &&& 0 <= i < k
            &&& eligible(entries, i, now)
            &&& forall|j: int|
                0 <= j < k && #[trigger] eligible(entries, j, now) ==> instant_le(
                    valid_time_start(entries[j].0).unwrap(),
                    valid_time_start(entries[i].0).unwrap(),
                ) && (j > i ==> !instant_le(
                    valid_time_start(entries[i].0).unwrap(),
                    valid_time_start(entries[j].0).unwrap(),
                ))
        }),
    decreases k,
{
    if k > 0 {
        let best = latest_eligible(entries, now, k - 1);
        if best is Some {
            law_latest_is_latest(entries, now, k - 1);
        } else {
            lemma_none_eligible(entries, now, k - 1);
        }
    }
}

proof fn lemma_none_eligible(entries: Seq<(Seq<char>, bool)>, now: (i64, u32), k: int)
    requires
        latest_eligible(entries, now, k) is None,
    ensures
        forall|j: int| 0 <= j < k ==> !#[trigger] eligible(entries, j, now),
    decreases k,
{
    if k > 0 {
        lemma_none_eligible(entries, now, k - 1);
    }
}

proof fn lemma_first_with_value_none(entries: Seq<(Seq<char>, bool)>, i: int)
    requires
        0 <= i,
        first_with_value(entries, i) is None,
    ensures
        forall|j: int| i <= j < entries.len() ==> !(#[trigger] entries[j]).1,
    decreases entries.len() - i,
{
    if i < entries.len() {
        lemma_first_with_value_none(entries, i + 1);
    }
}

proof fn lemma_first_with_value_some(entries: Seq<(Seq<char>, bool)>, i: int, j: int)
    requires
        0 <= i <= j < entries.len(),
        entries[j].1,
    ensures
        first_with_value(entries, i) is Some,
    decreases j - i,
{
    if !entries[i].1 {
        lemma_first_with_value_some(entries, i + 1, j);
    }
}

/// No entry is chosen exactly when no entry holds a value.
pub proof fn law_pick_none_iff_no_value(entries: Seq<(Seq<char>, bool)>, now: (i64, u32))
    ensures
        (pick_spec(entries, now) is None) <==> forall|j: int|
            0 <= j < entries.len() ==> !(#[trigger] entries[j]).1,
{
    if pick_spec(entries, now) is None {
        lemma_first_with_value_none(entries, 0);
    } else if latest_eligible(entries, now, entries.len() as int) is Some {
        law_latest_is_latest(entries, now, entries.len() as int);
    } else {
        let i = first_with_value(entries, 0).unwrap();
        lemma_first_with_value_index(entries, 0);
    }
    if exists|j: int| 0 <= j < entries.len() && (#[trigger] entries[j]).1 {
        let j = choose|j: int| 0 <= j < entries.len() && (#[trigger] entries[j]).1;
        lemma_first_with_value_some(entries, 0, j);
    }
}

proof fn lemma_first_with_value_index(entries: Seq<(Seq<char>, bool)>, i: int)
    requires
        0 <= i,
        first_with_value(entries, i) is Some,
    ensures
        ({
            let j = first_with_value(entries, i).unwrap();
            i <= j < entries.len() && entries[j].1
        }),
    decreases entries.len() - i,
{
    if i < entries.len() && !entries[i].1 {
        lemma_first_with_value_index(entries, i + 1);
    }
}

/// The local hour is an hour of the day, 0 to 23, and differs from the UTC
/// hour moved by the offset by a whole number of days; so it is that sum
/// taken modulo 24, and moving the offset by a day changes nothing.
pub proof fn law_local_hour_is_the_hour_of_the_day(utc_hour: int, offset_hours: int)
    ensures
        0 <= local_hour_spec(utc_hour, offset_hours) < 24,
        (local_hour_spec(utc_hour, offset_hours) - utc_hour - offset_hours) % 24 == 0,
        local_hour_spec(utc_hour, offset_hours + 24) == local_hour_spec(utc_hour, offset_hours),
{
    let r = local_hour_spec(utc_hour, offset_hours);
    let x = utc_hour + offset_hours;
    assert(x == 24 * (x / 24) + x % 24) by (nonlinear_arith);
    assert(r == x + 24 * (-(x / 24)));
    assert((x + 24) % 24 == x % 24) by (nonlinear_arith);
}

} // verus!
