//! Reported wildfire events from the national fire-event feed: a JSON array
//! whose first element is the array of events.
use vstd::prelude::*;
use crate::feed::{Feed, MAX_START_TIME, next_delay_spec, register_feed, registered_spec};
use crate::scheduler::TaskSchedulerBuilder;
use crate::number::{Decimal, decimal_wf, parse_decimal, parse_decimal_spec};
use crate::text::{chars_of, find_char_from, find_char_spec};

verus! {

/// `serde_json::Value`, which [`json_of_value`] converts.
#[verifier::external_type_specification]
#[verifier::external_body]
pub struct ExJsonValue(serde_json::Value);

/// A JSON document, as the feed parsers read it.
#[derive(Debug)]
pub enum Json {
    Null,
    Bool(bool),
    /// A number, in the text serde_json gives it.
    Number(String),
    Str(String),
    Array(Vec<Json>),
    /// The members of an object, in the order serde_json keeps them.
    Object(Vec<(String, Json)>),
}

/// The document that a JSON text holds, or `None` where it is not JSON.
pub uninterp spec fn json_doc_of(text: Seq<char>) -> Option<Json>;

/// Relies on `serde_json::from_str::<Value>`: the document, converted one
/// for one into [`Json`] by [`json_of_value`], or the parser's error
/// message; the document depends on the text alone.
#[verifier::external_body]
fn parse_json(text: &str) -> (r: Result<Json, String>)
    ensures
        match r {
            Ok(j) => json_doc_of(text@) == Some(j),
            Err(_) => json_doc_of(text@) is None,
        },
{
    match serde_json::from_str::<serde_json::Value>(text) {
        Ok(v) => Ok(json_of_value(&v)),
        Err(e) => Err(e.to_string()),
    }
}

/// The one-for-one conversion of a `serde_json::Value` (each variant to the
/// variant of the same name) that [`parse_json`] applies.
#[verifier::external_body]
fn json_of_value(v: &serde_json::Value) -> Json {
    match v {
        serde_json::Value::Null => Json::Null,
        serde_json::Value::Bool(b) => Json::Bool(*b),
        serde_json::Value::Number(n) => Json::Number(n.to_string()),
        serde_json::Value::String(s) => Json::Str(s.clone()),
        serde_json::Value::Array(a) => Json::Array(a.iter().map(json_of_value).collect()),
        serde_json::Value::Object(o) => Json::Object(o.iter().map(|(k, x)| (k.clone(), json_of_value(x))).collect()),
    }
}

/// The string held under `key` among an object's members: the first member
/// with that key, if it is a string.
pub open spec fn member_str_spec(members: Seq<(String, Json)>, key: Seq<char>) -> Option<Seq<char>>
    decreases members.len(),
{
    if members.len() == 0 {
        None
    } else if members[0].0@ == key {
        match members[0].1 {
            Json::Str(s) => Some(s@),
            _ => None,
        }
    } else {
        member_str_spec(members.drop_first(), key)
    }
}

/// The string held under `key` in an object; `None` for any other value.
pub open spec fn str_field_spec(v: Json, key: Seq<char>) -> Option<Seq<char>> {
    match v {
        Json::Object(m) => member_str_spec(m@, key),
        _ => None,
    }
}

proof fn lemma_member_str(members: Seq<(String, Json)>, key: Seq<char>, i: int)
    requires
        0 <= i <= members.len(),
        forall|j: int| 0 <= j < i ==> members[j].0@ != key,
    ensures
        i == members.len() ==> member_str_spec(members, key) is None,
        i < members.len() && members[i].0@ == key ==> member_str_spec(members, key) == match members[i].1 {
            Json::Str(s) => Some(s@),
            _ => None,
        },
    decreases i,
{
    if i > 0 {
        lemma_member_str(members.drop_first(), key, i - 1);
    }
}

/// The string held under `key` in an object (see [`str_field_spec`]).
pub fn json_str_field(v: &Json, key: &str) -> (r: Option<String>)
    ensures
        match r {
            Some(s) => str_field_spec(*v, key@) == Some(s@),
            None => str_field_spec(*v, key@) is None,
        },
{
    match v {
        Json::Object(members) => {
            let k = chars_of(key);
            let mut i: usize = 0;
            while i < members.len()
                invariant
                    0 <= i <= members@.len(),
                    k@ == key@,
                    str_field_spec(*v, key@) == member_str_spec(members@, key@),
                    forall|j: int| 0 <= j < i ==> members@[j].0@ != key@,
                decreases members@.len() - i,
            {
                let name = chars_of(members[i].0.as_str());
                if crate::text::chars_eq(name.as_slice(), k.as_slice()) {
                    proof {
                        lemma_member_str(members@, key@, i as int);
                    }
                    return match &members[i].1 {
                        Json::Str(s) => {
                            let c = s.clone();
                            assert(c@ == s@);
                            Some(c)
                        },
                        _ => None,
                    };
                }
                i = i + 1;
            }
            proof {
                lemma_member_str(members@, key@, i as int);
            }
            None
        },
        _ => None,
    }
}

/// The state of a fire.
#[derive(Clone, Copy, Debug, PartialEq, Eq, Structural)]
pub enum FireStatus {
    Fire,
    Extinguished,
    Clear,
}

/// Codes `01` and `02` mean a fire, `05` a cleared site; anything else an
/// extinguished fire.
pub open spec fn fire_status_spec(s: Seq<char>) -> FireStatus {
    if s == seq!['0', '1'] || s == seq!['0', '2'] {
        FireStatus::Fire
    } else if s == seq!['0', '5'] {
        FireStatus::Clear
    } else {
        FireStatus::Extinguished
    }
}

/// The state that a status code stands for (see [`fire_status_spec`]).
pub fn convert_str_to_fire_status(status: &str) -> (r: FireStatus)
    ensures
        r == fire_status_spec(status@),
{
    let s = chars_of(status);
    if s.len() == 2 && s[0] == '0' && (s[1] == '1' || s[1] == '2') {
        assert(s@ =~= seq!['0', s@[1]]);
        FireStatus::Fire
    } else if s.len() == 2 && s[0] == '0' && s[1] == '5' {
        assert(s@ =~= seq!['0', '5']);
        FireStatus::Clear
    } else {
        proof {
            if s@ == seq!['0', '1'] || s@ == seq!['0', '2'] || s@ == seq!['0', '5'] {
                assert(s@.len() == 2 && s@[0] == '0');
            }
        }
        FireStatus::Extinguished
    }
}

impl FireStatus {
    /// The number the map uses for the state.
    pub fn code(&self) -> (r: i32)
        ensures
            r == match *self {
                FireStatus::Fire => 0i32,
                FireStatus::Extinguished => 1i32,
                FireStatus::Clear => 2i32,
            },
    {
        match self {
            FireStatus::Fire => 0,
            FireStatus::Extinguished => 1,
            FireStatus::Clear => 2,
        }
    }
}

/// One reported fire.
#[derive(Debug)]
pub struct FireEvent {
    pub status: FireStatus,
    pub latitude: Decimal,
    pub longitude: Decimal,
    pub address: String,
    pub date: String,
    pub time: String,
}

/// A coordinate of an event: its text must hold a decimal point and read as
/// a number.
pub open spec fn event_coordinate_spec(t: Seq<char>) -> Option<Decimal> {
    if find_char_spec(t, '.', 0) >= 0 {
        parse_decimal_spec(t)
    } else {
        None
    }
}

fn event_coordinate(t: &Option<String>) -> (r: Option<Decimal>)
    ensures
        match t {
            Some(s) => r == event_coordinate_spec(s@),
            None => r is None,
        },
        r matches Some(d) ==> decimal_wf(d),
{
    match t {
        None => None,
        Some(s) => {
            let cs = chars_of(s.as_str());
            match find_char_from(cs.as_slice(), '.', 0) {
                None => None,
                Some(_) => parse_decimal(cs.as_slice()),
            }
        },
    }
}

/// The text of an optional string.
pub open spec fn opt_view(s: Option<String>) -> Option<Seq<char>> {
    match s {
        Some(x) => Some(x@),
        None => None,
    }
}

/// The event that the six fields give, if all are present and both
/// coordinates hold a decimal point and read as numbers.
pub fn fire_event_from_fields(
    status: Option<String>,
    latitude: Option<String>,
    longitude: Option<String>,
    address: Option<String>,
    date: Option<String>,
    time: Option<String>,
) -> (r: Option<FireEvent>)
    ensures
        r is Some <==> (status is Some && address is Some && date is Some && time is Some
            && latitude is Some && event_coordinate_spec(latitude->0@) is Some
            && longitude is Some && event_coordinate_spec(longitude->0@) is Some),
        r matches Some(e) ==> {
            &&& e.status == fire_status_spec(status->0@)
            &&& Some(e.latitude) == event_coordinate_spec(latitude->0@)
            &&& Some(e.longitude) == event_coordinate_spec(longitude->0@)
            &&& find_char_spec(latitude->0@, '.', 0) >= 0
            &&& find_char_spec(longitude->0@, '.', 0) >= 0
            &&& e.address@ == address->0@
            &&& e.date@ == date->0@
            &&& e.time@ == time->0@
            &&& decimal_wf(e.latitude) && decimal_wf(e.longitude)
        },
        match r {
            Some(e) => fire_event_spec(
                opt_view(status),
                opt_view(latitude),
                opt_view(longitude),
                opt_view(address),
                opt_view(date),
                opt_view(time),
            ) == Some(event_view(e)),
            None => fire_event_spec(
                opt_view(status),
                opt_view(latitude),
                opt_view(longitude),
                opt_view(address),
                opt_view(date),
                opt_view(time),
            ) is None,
        },
{
    let lat = event_coordinate(&latitude);
    let lon = event_coordinate(&longitude);
    match (status, lat, lon, address, date, time) {
        (Some(st), Some(la), Some(lo), Some(ad), Some(da), Some(ti)) => Some(
            FireEvent {
                status: convert_str_to_fire_status(st.as_str()),
                latitude: la,
                longitude: lo,
                address: ad,
                date: da,
                time: ti,
            },
        ),
        _ => None,
    }
}

/// An event as the contracts see it: state, latitude, longitude, address,
/// date, time.
pub type FireEventView = (FireStatus, Decimal, Decimal, Seq<char>, Seq<char>, Seq<char>);

pub open spec fn event_view(e: FireEvent) -> FireEventView {
    (e.status, e.latitude, e.longitude, e.address@, e.date@, e.time@)
}

/// The event that six field texts give (see [`fire_event_from_fields`]).
pub open spec fn fire_event_spec(
    status: Option<Seq<char>>,
    latitude: Option<Seq<char>>,
    longitude: Option<Seq<char>>,
    address: Option<Seq<char>>,
    date: Option<Seq<char>>,
    time: Option<Seq<char>>,
) -> Option<FireEventView> {
    match (status, latitude, longitude, address, date, time) {
        (Some(st), Some(la), Some(lo), Some(ad), Some(da), Some(ti)) => match (
            event_coordinate_spec(la),
            event_coordinate_spec(lo),
        ) {
            (Some(lat), Some(lon)) => Some((fire_status_spec(st), lat, lon, ad, da, ti)),
            _ => None,
        },
        _ => None,
    }
}

/// The event of one object of the feed, read from its six fields.
pub open spec fn event_of_object_spec(o: Json) -> Option<FireEventView> {
    fire_event_spec(
        str_field_spec(o, "frfrPrgrsStcd"@),
        str_field_spec(o, "frfrSttmnLctnYcrd"@),
        str_field_spec(o, "frfrSttmnLctnXcrd"@),
        str_field_spec(o, "frfrSttmnAddr"@),
        str_field_spec(o, "frfrSttmnDt"@),
        str_field_spec(o, "frfrSttmnHms"@),
    )
}

/// The events of the feed's objects, in order, each object that gives one.
pub open spec fn events_of_objects_spec(objs: Seq<Json>) -> Seq<FireEventView>
    decreases objs.len(),
{
    if objs.len() == 0 {
        Seq::empty()
    } else {
        let prev = events_of_objects_spec(objs.drop_last());
        match event_of_object_spec(objs.last()) {
            Some(e) => prev.push(e),
            None => prev,
        }
    }
}

/// The events of the feed's document: it must be an array whose first
/// element is the array of event objects.
pub open spec fn fire_events_doc_spec(doc: Option<Json>) -> Option<Seq<FireEventView>> {
    match doc {
        Some(Json::Array(a)) => if a@.len() > 0 {
            match a@[0] {
                Json::Array(evs) => Some(events_of_objects_spec(evs@)),
                _ => None,
            }
        } else {
            None
        },
        _ => None,
    }
}

/// Every event read from the feed has well-formed coordinates.
pub open spec fn events_wf(v: Seq<FireEvent>) -> bool {
    forall|i: int| 0 <= i < v.len() ==> decimal_wf((#[trigger] v[i]).latitude) && decimal_wf(
        v[i].longitude,
    )
}

/// The events of the feed's document (see [`fire_events_doc_spec`]), in
/// order; an error where the text is not JSON or the document is not an
/// array whose first element is an array.
pub fn parse_fire_events(text: &str) -> (r: Result<Vec<FireEvent>, String>)
    ensures
        match r {
            Ok(v) => fire_events_doc_spec(json_doc_of(text@)) == Some(
                v@.map_values(|e: FireEvent| event_view(e)),
            ) && events_wf(v@),
            Err(_) => fire_events_doc_spec(json_doc_of(text@)) is None,
        },
{
    let doc = match parse_json(text) {
        Ok(d) => d,
        Err(e) => return Err(e),
    };
    let outer = match &doc {
        Json::Array(a) => a,
        _ => return Err("Invalid fire event data".to_owned()),
    };
    if outer.len() == 0 {
        return Err("Invalid fire event data".to_owned());
    }
    let events = match &outer[0] {
        Json::Array(a) => a,
        _ => return Err("Invalid fire event data".to_owned()),
    };
    let mut out: Vec<FireEvent> = Vec::new();
    let mut i: usize = 0;
    assert(events@.subrange(0, 0) =~= Seq::<Json>::empty());
    while i < events.len()
        invariant
            0 <= i <= events@.len(),
            events_wf(out@),
            out@.map_values(|e: FireEvent| event_view(e)) == events_of_objects_spec(
                events@.subrange(0, i as int),
            ),
        decreases events@.len() - i,
    {
        let evt = &events[i];
        assert(events@.subrange(0, i + 1).drop_last() =~= events@.subrange(0, i as int));
        let made = fire_event_from_fields(
            json_str_field(evt, "frfrPrgrsStcd"),
            json_str_field(evt, "frfrSttmnLctnYcrd"),
            json_str_field(evt, "frfrSttmnLctnXcrd"),
            json_str_field(evt, "frfrSttmnAddr"),
            json_str_field(evt, "frfrSttmnDt"),
            json_str_field(evt, "frfrSttmnHms"),
        );
        let ghost before = out@.map_values(|e: FireEvent| event_view(e));
        match made {
            Some(e) => {
                out.push(e);
                assert(out@.map_values(|e: FireEvent| event_view(e)) =~= before.push(
                    event_view(out@.last()),
                ));
            },
            None => {},
        }
        i = i + 1;
    }
    assert(events@.subrange(0, events@.len() as int) =~= events@);
    Ok(out)
}

/// Registers the fire-event job; `first_run_ok` is the outcome of the run
/// made at start-up, which decides when the job first runs.
pub fn init_fire_sys<J>(scheduler: &mut TaskSchedulerBuilder<J>, job: J, first_run_ok: bool, now: u64)
    requires
        now <= MAX_START_TIME,
    ensures
        registered_spec(
            old(scheduler).tasks_spec(),
            final(scheduler).tasks_spec(),
            job,
            now,
            next_delay_spec(Feed::FireEvent, first_run_ok),
        ),
{
    register_feed(scheduler, Feed::FireEvent, job, first_run_ok, now);
}

} // verus!
