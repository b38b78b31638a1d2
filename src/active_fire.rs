//! Satellite active-fire detections: the CSV rows of a detection feed, kept
//! where they are confident and fall inside the service's bounding box.
use vstd::prelude::*;
use crate::feed::{Feed, MAX_START_TIME, next_delay_spec, register_feed, registered_spec};
use crate::scheduler::TaskSchedulerBuilder;
use crate::number::{Decimal, decimal_lt, decimal_wf, parse_decimal, parse_decimal_spec, parse_i32, parse_i32_spec};
use crate::text::{chars_eq, chars_of, lines_of, lines_spec, split_on, split_spec, string_of};

verus! {

/// One detection.
#[derive(Clone, Copy, Debug, PartialEq, Eq, Structural)]
pub struct FireRecord {
    pub latitude: Decimal,
    pub longitude: Decimal,
    pub brightness: Decimal,
    pub radiative_power: Decimal,
    /// Seconds since the Unix epoch.
    pub time: i64,
}

/// The seconds since the Unix epoch of a date and time written
/// `YYYY-MM-DD HHMM`, read as UTC, or `None` where the text is not one.
pub uninterp spec fn utc_timestamp_of(s: Seq<char>) -> Option<i64>;

/// Relies on `chrono::NaiveDateTime::parse_from_str` with the format
/// `"%Y-%m-%d %H%M"`, and on `and_utc().timestamp()`: the result depends on
/// the text alone.
#[verifier::external_body]
fn parse_fire_time(s: &str) -> (r: Option<i64>)
    ensures
        r == utc_timestamp_of(s@),
{
    match chrono::NaiveDateTime::parse_from_str(s, "%Y-%m-%d %H%M") {
        Ok(t) => Some(t.and_utc().timestamp()),
        Err(_) => None,
    }
}

/// The bounds of the service area, inclusive.
pub open spec fn lat_min() -> Decimal { Decimal { mantissa: 32477024, scale: 6 } }
pub open spec fn lat_max() -> Decimal { Decimal { mantissa: 39322145, scale: 6 } }
pub open spec fn lon_min() -> Decimal { Decimal { mantissa: 123825178, scale: 6 } }
pub open spec fn lon_max() -> Decimal { Decimal { mantissa: 132799568, scale: 6 } }

/// Inside the service's bounding box, its edges included.
pub open spec fn in_fire_box(lat: Decimal, lon: Decimal) -> bool {
    !decimal_lt(lat, lat_min()) && !decimal_lt(lon, lon_min()) && !decimal_lt(lat_max(), lat)
        && !decimal_lt(lon_max(), lon)
}

/// A confidence of `high`, or an integer of at least 70.
pub open spec fn confident_spec(c: Seq<char>) -> bool {
    c == seq!['h', 'i', 'g', 'h'] || match parse_i32_spec(c) {
        Some(v) => v >= 70,
        None => false,
    }
}

/// `t` padded on the left with zeros to four characters.
pub open spec fn pad4_spec(t: Seq<char>) -> Seq<char> {
    if t.len() < 4 {
        Seq::new((4 - t.len()) as nat, |i: int| '0') + t
    } else {
        t
    }
}

/// The text `date HHMM` handed to the time parser.
pub open spec fn fire_time_text(date: Seq<char>, time: Seq<char>) -> Seq<char> {
    date + seq![' '] + pad4_spec(time)
}

/// The record that the fields of one row give, if the row is kept: at least
/// twelve fields, a confident detection, every value readable, inside the
/// box. Columns: 0 latitude, 1 longitude, 2 brightness, 5 date, 6 time,
/// 8 confidence, 11 radiative power.
pub open spec fn fire_row_spec(f: Seq<Seq<char>>) -> Option<FireRecord> {
    if f.len() >= 12 && confident_spec(f[8]) {
        match (
            parse_decimal_spec(f[0]),
            parse_decimal_spec(f[1]),
            parse_decimal_spec(f[2]),
            parse_decimal_spec(f[11]),
            utc_timestamp_of(fire_time_text(f[5], f[6])),
        ) {
            (Some(lat), Some(lon), Some(b), Some(p), Some(t)) => if in_fire_box(lat, lon) {
                Some(
                    FireRecord {
                        latitude: lat,
                        longitude: lon,
                        brightness: b,
                        radiative_power: p,
                        time: t,
                    },
                )
            } else {
                None
            },
            _ => None,
        }
    } else {
        None
    }
}

/// The records of the given data lines, in order.
pub open spec fn fire_rows_spec(lines: Seq<Seq<char>>) -> Seq<FireRecord>
    decreases lines.len(),
{
    if lines.len() == 0 {
        Seq::empty()
    } else {
        let prev = fire_rows_spec(lines.drop_last());
        match fire_row_spec(split_spec(lines.last(), ',')) {
            Some(r) => prev.push(r),
            None => prev,
        }
    }
}

/// The records of a detection CSV: its lines after the header.
pub open spec fn fire_csv_spec(csv: Seq<char>) -> Seq<FireRecord> {
    let lines = lines_spec(csv);
    if lines.len() == 0 {
        Seq::empty()
    } else {
        fire_rows_spec(lines.drop_first())
    }
}

fn confident(c: &[char]) -> (r: bool)
    ensures
        r == confident_spec(c@),
{
    let high: [char; 4] = ['h', 'i', 'g', 'h'];
    assert(high@ =~= seq!['h', 'i', 'g', 'h']);
    if chars_eq(c, &high) {
        return true;
    }
    match parse_i32(c) {
        Some(v) => v >= 70,
        None => false,
    }
}

fn pad4(t: &[char]) -> (r: Vec<char>)
    ensures
        r@ == pad4_spec(t@),
{
    let mut r: Vec<char> = Vec::new();
    if t.len() < 4 {
        let mut k: usize = 0;
        while k < 4 - t.len()
            invariant
                t@.len() < 4,
                k <= 4 - t@.len(),
                r@ == Seq::new(k as nat, |i: int| '0'),
            decreases 4 - t@.len() - k,
        {
            r.push('0');
            k = k + 1;
            assert(r@ =~= Seq::new(k as nat, |i: int| '0'));
        }
    }
    let ghost pre = r@;
    let mut i: usize = 0;
    while i < t.len()
        invariant
            0 <= i <= t@.len(),
            r@ == pre + t@.subrange(0, i as int),
        decreases t@.len() - i,
    {
        r.push(t[i]);
        i = i + 1;
        assert(r@ =~= pre + t@.subrange(0, i as int));
    }
    assert(t@.subrange(0, t@.len() as int) =~= t@);
    proof {
        if t@.len() >= 4 {
            assert(pre =~= Seq::<char>::empty());
            assert(r@ =~= t@);
        }
    }
    r
}

fn fire_time(date: &[char], time: &[char]) -> (r: Option<i64>)
    ensures
        r == utc_timestamp_of(fire_time_text(date@, time@)),
{
    let mut text: Vec<char> = Vec::new();
    let mut i: usize = 0;
    while i < date.len()
        invariant
            0 <= i <= date@.len(),
            text@ == date@.subrange(0, i as int),
        decreases date@.len() - i,
    {
        text.push(date[i]);
        i = i + 1;
        assert(text@ =~= date@.subrange(0, i as int));
    }
    assert(date@.subrange(0, date@.len() as int) =~= date@);
    text.push(' ');
    let padded = pad4(time);
    let ghost pre = text@;
    let mut j: usize = 0;
    while j < padded.len()
        invariant
            0 <= j <= padded@.len(),
            text@ == pre + padded@.subrange(0, j as int),
        decreases padded@.len() - j,
    {
        text.push(padded[j]);
        j = j + 1;
        assert(text@ =~= pre + padded@.subrange(0, j as int));
    }
    assert(padded@.subrange(0, padded@.len() as int) =~= padded@);
    assert(text@ =~= fire_time_text(date@, time@));
    let s = string_of(text.as_slice());
    parse_fire_time(s.as_str())
}

fn in_box(lat: &Decimal, lon: &Decimal) -> (r: bool)
    requires
        decimal_wf(*lat),
        decimal_wf(*lon),
    ensures
        r == in_fire_box(*lat, *lon),
{
    let lat_lo = Decimal::new(32477024, 6);
    let lat_hi = Decimal::new(39322145, 6);
    let lon_lo = Decimal::new(123825178, 6);
    let lon_hi = Decimal::new(132799568, 6);
    proof {
        reveal_with_fuel(crate::number::pow10, 19);
    }
    !lat.lt(&lat_lo) && !lon.lt(&lon_lo) && !lat_hi.lt(lat) && !lon_hi.lt(lon)
}

/// The record of one row's fields, if the row is kept (see
/// [`fire_row_spec`]).
pub fn fire_row(f: &Vec<Vec<char>>) -> (r: Option<FireRecord>)
    ensures
        r == fire_row_spec(f@.map_values(|x: Vec<char>| x@)),
{
    if f.len() < 12 || !confident(f[8].as_slice()) {
        return None;
    }
    let lat = parse_decimal(f[0].as_slice());
    let lon = parse_decimal(f[1].as_slice());
    let bright = parse_decimal(f[2].as_slice());
    let power = parse_decimal(f[11].as_slice());
    let time = fire_time(f[5].as_slice(), f[6].as_slice());
    match (lat, lon, bright, power, time) {
        (Some(lat), Some(lon), Some(b), Some(p), Some(t)) => {
            if in_box(&lat, &lon) {
                Some(FireRecord { latitude: lat, longitude: lon, brightness: b, radiative_power: p, time: t })
            } else {
                None
            }
        },
        _ => None,
    }
}

/// The detections of a CSV feed: every line after the header whose record
/// is kept (see [`fire_row_spec`]), in order.
pub fn parse_fire_csv(csv: &str) -> (r: Vec<FireRecord>)
    ensures
        r@ == fire_csv_spec(csv@),
{
    let cs = chars_of(csv);
    let lines = lines_of(cs.as_slice());
    let ghost ls = lines_spec(cs@);
    let mut out: Vec<FireRecord> = Vec::new();
    if lines.len() == 0 {
        return out;
    }
    let ghost data = ls.drop_first();
    let mut i: usize = 1;
    assert(data.subrange(0, 0) =~= Seq::<Seq<char>>::empty());
    while i < lines.len()
        invariant
            lines@.len() == ls.len(),
            ls.len() >= 1,
            data == ls.drop_first(),
            forall|k: int| 0 <= k < lines@.len() ==> #[trigger] lines@[k]@ == ls[k],
            1 <= i <= lines@.len(),
            out@ == fire_rows_spec(data.subrange(0, i - 1)),
        decreases lines@.len() - i,
    {
        let fields = split_on(lines[i].as_slice(), ',');
        assert(fields@.map_values(|x: Vec<char>| x@) =~= split_spec(ls[i as int], ','));
        let rec = fire_row(&fields);
        assert(data.subrange(0, i as int).drop_last() =~= data.subrange(0, i - 1));
        match rec {
            Some(r) => out.push(r),
            None => {},
        }
        i = i + 1;
    }
    assert(data.subrange(0, data.len() as int) =~= data);
    out
}

/// A record that the CSV yields lies inside the bounding box (edges included) and
/// comes from a row with a confident detection.
pub proof fn lemma_fire_record_confident_in_box(lines: Seq<Seq<char>>, k: int)
    requires
        0 <= k < fire_rows_spec(lines).len(),
    ensures
        in_fire_box(fire_rows_spec(lines)[k].latitude, fire_rows_spec(lines)[k].longitude),
        exists|j: int|
            0 <= j < lines.len() && #[trigger] split_spec(lines[j], ',').len() >= 12
                && confident_spec(split_spec(lines[j], ',')[8])
                && fire_row_spec(split_spec(lines[j], ',')) == Some(fire_rows_spec(lines)[k]),
    decreases lines.len(),
{
    let prev = fire_rows_spec(lines.drop_last());
    let last = lines.len() - 1;
    if k < prev.len() {
        lemma_fire_record_confident_in_box(lines.drop_last(), k);
        let j = choose|j: int|
            0 <= j < lines.drop_last().len() && #[trigger] split_spec(lines.drop_last()[j], ',').len() >= 12
                && confident_spec(split_spec(lines.drop_last()[j], ',')[8])
                && fire_row_spec(split_spec(lines.drop_last()[j], ',')) == Some(prev[k]);
        assert(lines.drop_last()[j] == lines[j]);
        assert(split_spec(lines[j], ',').len() >= 12);
    } else {
        assert(split_spec(lines[last], ',').len() >= 12);
    }
}

/// Every record of a detection CSV lies inside the bounding box (edges included).
pub proof fn lemma_fire_csv_in_box(csv: Seq<char>)
    ensures
        forall|k: int|
            0 <= k < fire_csv_spec(csv).len() ==> in_fire_box(
                #[trigger] fire_csv_spec(csv)[k].latitude,
                fire_csv_spec(csv)[k].longitude,
            ),
{
    assert forall|k: int| 0 <= k < fire_csv_spec(csv).len() implies in_fire_box(
        #[trigger] fire_csv_spec(csv)[k].latitude,
        fire_csv_spec(csv)[k].longitude,
    ) by {
        lemma_fire_record_confident_in_box(lines_spec(csv).drop_first(), k);
    }
}

/// Registers the active-fire job; `first_run_ok` is the outcome of the run made
/// at start-up, which decides when the job first runs.
pub fn init_active_fire_sys<J>(scheduler: &mut TaskSchedulerBuilder<J>, job: J, first_run_ok: bool, now: u64)
    requires
        now <= MAX_START_TIME,
    ensures
        registered_spec(
            old(scheduler).tasks_spec(),
            final(scheduler).tasks_spec(),
            job,
            now,
            next_delay_spec(Feed::ActiveFire, first_run_ok),
        ),
{
    register_feed(scheduler, Feed::ActiveFire, job, first_run_ok, now);
}

} // verus!
