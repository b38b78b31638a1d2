//! CCTV locations from the two XML feeds of the traffic information
//! service: the records of the feeds, their validation, the rewriting of
//! their stream addresses, the merge of the two feeds and the index by name.
use vstd::prelude::*;
use crate::feed::{Feed, MAX_START_TIME, next_delay_spec, register_feed, registered_spec};
use crate::scheduler::TaskSchedulerBuilder;
use quick_xml::events::Event;
use crate::number::{Decimal, decimal_lt, decimal_wf, parse_decimal, parse_decimal_spec};
use crate::text::{chars_eq, chars_of, find_from, find_spec, matches_at, slice_of, string_of};

verus! {

/// A `quick_xml::Reader` over a text. It is held in a struct of this crate
/// because the reader's type parameter is bound by `std::io::BufRead`,
/// which cannot be declared here.
#[verifier::external_body]
pub struct XmlReader<'a> {
    reader: quick_xml::Reader<&'a [u8]>,
}

/// One event of the XML reader, as the record parser needs it.
pub enum XmlEvent {
    /// An element opens; its name.
    Start(Vec<u8>),
    /// An element closes; its name.
    End(Vec<u8>),
    /// Text, unescaped, or `None` where it could not be decoded.
    Text(Option<String>),
    /// The end of the document.
    Eof,
    /// The reader's error.
    Error(String),
    /// Any other event.
    Other,
}

/// The end of the document or an error: the events after which the reader
/// is not read again.
pub open spec fn is_final_event(ev: XmlEvent) -> bool {
    ev is Eof || ev is Error
}

/// The events that the reader gives for a text (with surrounding
/// whitespace trimmed), from the first up to and including the end of the
/// document or the first error.
pub uninterp spec fn xml_events_of(text: Seq<char>) -> Seq<XmlEvent>;

/// The events that a reader has still to give.
pub uninterp spec fn pending_events(r: XmlReader) -> Seq<XmlEvent>;

/// A sequence of events that ends with its only final event.
pub open spec fn event_stream_wf(evs: Seq<XmlEvent>) -> bool {
    &&& evs.len() > 0
    &&& is_final_event(evs.last())
    &&& forall|i: int| 0 <= i < evs.len() - 1 ==> !is_final_event(#[trigger] evs[i])
}

/// Relies on `quick_xml::Reader::from_str` and `trim_text(true)`: a reader
/// that gives the events of the text, which end with the end of the
/// document or an error.
#[verifier::external_body]
fn xml_reader<'a>(text: &'a str) -> (r: XmlReader<'a>)
    ensures
        pending_events(r) == xml_events_of(text@),
        event_stream_wf(pending_events(r)),
{
    let mut reader = quick_xml::Reader::from_str(text);
    reader.trim_text(true);
    XmlReader { reader }
}

/// Relies on `quick_xml::Reader::read_event` (and, for text,
/// `BytesText::unescape_and_decode`): the next event of the document.
#[verifier::external_body]
fn next_xml_event(r: &mut XmlReader) -> (ev: XmlEvent)
    requires
        pending_events(*old(r)).len() > 0,
    ensures
        ev == pending_events(*old(r))[0],
        pending_events(*final(r)) == pending_events(*old(r)).drop_first(),
{
    let mut buf: Vec<u8> = Vec::new();
    match r.reader.read_event(&mut buf) {
        Ok(Event::Start(e)) => XmlEvent::Start(e.name().to_vec()),
        Ok(Event::End(e)) => XmlEvent::End(e.name().to_vec()),
        Ok(Event::Text(e)) => XmlEvent::Text(e.unescape_and_decode(&r.reader).ok()),
        Ok(Event::Eof) => XmlEvent::Eof,
        Err(e) => XmlEvent::Error(e.to_string()),
        Ok(_) => XmlEvent::Other,
    }
}

/// A camera: its stream address, position and name.
#[derive(Debug)]
pub struct CctvData {
    pub url: String,
    pub latitude: Decimal,
    pub longitude: Decimal,
    pub name: String,
}

/// A camera as the contracts see it: address, latitude, longitude, name.
pub type CctvView = (Seq<char>, Decimal, Decimal, Seq<char>);

impl View for CctvData {
    type V = CctvView;

    open spec fn view(&self) -> CctvView {
        (self.url@, self.latitude, self.longitude, self.name@)
    }
}

pub open spec fn zero() -> Decimal {
    Decimal { mantissa: 0, scale: 0 }
}

/// A record worth keeping: an address and a name, a latitude strictly
/// between 20 and 50 and a longitude strictly between 110 and 160.
pub open spec fn cctv_valid_spec(c: CctvView) -> bool {
    &&& c.0.len() > 0
    &&& decimal_lt(Decimal { mantissa: 20, scale: 0 }, c.1)
    &&& decimal_lt(c.1, Decimal { mantissa: 50, scale: 0 })
    &&& decimal_lt(Decimal { mantissa: 110, scale: 0 }, c.2)
    &&& decimal_lt(c.2, Decimal { mantissa: 160, scale: 0 })
    &&& c.3.len() > 0
}

pub open spec fn cctv_wf(c: CctvView) -> bool {
    decimal_wf(c.1) && decimal_wf(c.2)
}

impl CctvData {
    /// An empty record.
    pub fn new() -> (r: Self)
        ensures
            r@ == (Seq::<char>::empty(), zero(), zero(), Seq::<char>::empty()),
    {
        CctvData { url: String::new(), latitude: Decimal::new(0, 0), longitude: Decimal::new(0, 0), name: String::new() }
    }

    /// Empties the record.
    pub fn clear(&mut self)
        ensures
            final(self)@ == (Seq::<char>::empty(), zero(), zero(), Seq::<char>::empty()),
    {
        self.url = String::new();
        self.latitude = Decimal::new(0, 0);
        self.longitude = Decimal::new(0, 0);
        self.name = String::new();
    }

    /// Whether the record is worth keeping (see [`cctv_valid_spec`]).
    pub fn is_valid(&self) -> (r: bool)
        requires
            cctv_wf(self@),
        ensures
            r == cctv_valid_spec(self@),
    {
        let lat_lo = Decimal::new(20, 0);
        let lat_hi = Decimal::new(50, 0);
        let lon_lo = Decimal::new(110, 0);
        let lon_hi = Decimal::new(160, 0);
        proof {
            reveal_with_fuel(crate::number::pow10, 19);
        }
        let url = chars_of(self.url.as_str());
        let name = chars_of(self.name.as_str());
        url.len() > 0 && lat_lo.lt(&self.latitude) && self.latitude.lt(&lat_hi) && lon_lo.lt(
            &self.longitude,
        ) && self.longitude.lt(&lon_hi) && name.len() > 0
    }

    /// A copy of the record.
    pub fn duplicate(&self) -> (r: Self)
        ensures
            r@ == self@,
    {
        CctvData { url: self.url.clone(), latitude: self.latitude, longitude: self.longitude, name: self.name.clone() }
    }
}

pub open spec fn pat_http() -> Seq<char> {
    seq!['h', 't', 't', 'p', ':', '/', '/']
}

pub open spec fn pat_https() -> Seq<char> {
    seq!['h', 't', 't', 'p', 's', ':', '/', '/']
}

/// The address with its first `http://` turned into `https://`.
pub open spec fn convert_url_spec(u: Seq<char>) -> Seq<char> {
    let i = find_spec(u, pat_http(), 0);
    if i < 0 {
        u
    } else {
        u.subrange(0, i) + pat_https() + u.subrange(i + 7, u.len() as int)
    }
}

/// Turns the first `http://` of a stream address into `https://`.
pub fn convert_cctv_url(url: &str) -> (r: String)
    ensures
        r@ == convert_url_spec(url@),
{
    let u = chars_of(url);
    let http: [char; 7] = ['h', 't', 't', 'p', ':', '/', '/'];
    assert(http@ =~= pat_http());
    match find_from(u.as_slice(), &http, 0) {
        None => string_of(u.as_slice()),
        Some(i) => {
            let mut out = slice_of(u.as_slice(), 0, i);
            let https: [char; 8] = ['h', 't', 't', 'p', 's', ':', '/', '/'];
            assert(https@ =~= pat_https());
            let ghost pre = out@;
            let mut k: usize = 0;
            while k < 8
                invariant
                    https@ == pat_https(),
                    0 <= k <= 8,
                    out@ == pre + https@.subrange(0, k as int),
                decreases 8 - k,
            {
                out.push(https[k]);
                k = k + 1;
                assert(out@ =~= pre + https@.subrange(0, k as int));
            }
            let n = u.len();
            assert(i + 7 <= n);
            let rest = slice_of(u.as_slice(), i + 7, n);
            let ghost mid = out@;
            let mut j: usize = 0;
            while j < rest.len()
                invariant
                    0 <= j <= rest@.len(),
                    out@ == mid + rest@.subrange(0, j as int),
                decreases rest@.len() - j,
            {
                out.push(rest[j]);
                j = j + 1;
                assert(out@ =~= mid + rest@.subrange(0, j as int));
            }
            assert(out@ =~= convert_url_spec(u@));
            string_of(out.as_slice())
        },
    }
}

/// An address that begins with `http://` begins with `https://` once
/// converted.
pub proof fn lemma_convert_url_https(u: Seq<char>)
    requires
        matches_at(u, pat_http(), 0),
    ensures
        matches_at(convert_url_spec(u), pat_https(), 0),
{
    assert(find_spec(u, pat_http(), 0) == 0);
    let r = convert_url_spec(u);
    assert(r.subrange(0, 8) =~= pat_https());
}

pub open spec fn name_data() -> Seq<u8> { seq![100u8, 97, 116, 97] }
pub open spec fn name_url() -> Seq<u8> { seq![99u8, 99, 116, 118, 117, 114, 108] }
pub open spec fn name_lat() -> Seq<u8> { seq![99u8, 111, 111, 114, 100, 121] }
pub open spec fn name_lon() -> Seq<u8> { seq![99u8, 111, 111, 114, 100, 120] }
pub open spec fn name_name() -> Seq<u8> { seq![99u8, 99, 116, 118, 110, 97, 109, 101] }

fn bytes_eq(a: &[u8], b: &[u8]) -> (r: bool)
    ensures
        r == (a@ == b@),
{
    if a.len() != b.len() {
        return false;
    }
    let mut i: usize = 0;
    while i < a.len()
        invariant
            a@.len() == b@.len(),
            0 <= i <= a@.len(),
            forall|j: int| 0 <= j < i ==> a@[j] == b@[j],
        decreases a@.len() - i,
    {
        if a[i] != b[i] {
            return false;
        }
        i = i + 1;
    }
    assert(a@ =~= b@);
    true
}

/// The text of a text event: what was decoded, or nothing.
pub open spec fn event_text(t: Option<String>) -> Seq<char> {
    match t {
        Some(s) => s@,
        None => Seq::empty(),
    }
}

/// A coordinate read from text, or 0 where the text is not a number.
pub open spec fn coordinate_spec(t: Seq<char>) -> Decimal {
    match parse_decimal_spec(t) {
        Some(d) => d,
        None => zero(),
    }
}

/// The record parser's state: the latest element opened, the current
/// record, the records kept.
pub type ParserView = (Seq<u8>, CctvView, Seq<CctvView>);

pub open spec fn empty_record() -> CctvView {
    (Seq::<char>::empty(), zero(), zero(), Seq::<char>::empty())
}

/// The current record after text within the element `e`.
pub open spec fn text_update_spec(e: Seq<u8>, c: CctvView, text: Seq<char>) -> CctvView {
    if e == name_url() {
        (convert_url_spec(text), c.1, c.2, c.3)
    } else if e == name_lat() {
        (c.0, coordinate_spec(text), c.2, c.3)
    } else if e == name_lon() {
        (c.0, c.1, coordinate_spec(text), c.3)
    } else if e == name_name() {
        (c.0, c.1, c.2, text)
    } else {
        c
    }
}

/// One step of the record parser: an opening element names the field that
/// text fills; a closing `data` element ends the record, which is kept when
/// valid; other events change nothing.
pub open spec fn cctv_step_spec(s: ParserView, ev: XmlEvent) -> ParserView {
    match ev {
        XmlEvent::Start(n) => (n@, s.1, s.2),
        XmlEvent::End(n) => if n@ == name_data() {
            (
                s.0,
                empty_record(),
                if cctv_valid_spec(s.1) {
                    s.2.push(s.1)
                } else {
                    s.2
                },
            )
        } else {
            s
        },
        XmlEvent::Text(t) => (s.0, text_update_spec(s.0, s.1, event_text(t)), s.2),
        _ => s,
    }
}

/// The parser's state after the given events, from a parser that has seen
/// nothing.
pub open spec fn cctv_run_spec(evs: Seq<XmlEvent>) -> ParserView
    decreases evs.len(),
{
    if evs.len() == 0 {
        (Seq::<u8>::empty(), empty_record(), Seq::<CctvView>::empty())
    } else {
        cctv_step_spec(cctv_run_spec(evs.drop_last()), evs.last())
    }
}

/// What a CCTV feed's text gives: the records kept over its events, or the
/// reader's error where the events end in one.
pub open spec fn cctv_feed_spec(text: Seq<char>) -> Result<Seq<CctvView>, String> {
    let evs = xml_events_of(text);
    match evs.last() {
        XmlEvent::Error(e) => Err(e),
        _ => Ok(cctv_run_spec(evs.drop_last()).2),
    }
}

pub open spec fn records_result_view(r: Result<Vec<CctvData>, String>) -> Result<Seq<CctvView>, String> {
    match r {
        Ok(v) => Ok(v@.map_values(|c: CctvData| c@)),
        Err(e) => Err(e),
    }
}

/// Reads records from the XML events of a CCTV feed: the latest opened
/// element names the field that text fills; a closing `data` element ends a
/// record, which is kept when valid.
pub struct CctvParser {
    element: Vec<u8>,
    data: CctvData,
    cctvs: Vec<CctvData>,
}

impl CctvParser {
    pub closed spec fn element_spec(&self) -> Seq<u8> {
        self.element@
    }

    pub closed spec fn current_spec(&self) -> CctvView {
        self.data@
    }

    pub closed spec fn records_spec(&self) -> Seq<CctvView> {
        self.cctvs@.map_values(|c: CctvData| c@)
    }

    /// Every record kept is valid, and the current one has well-formed
    /// coordinates.
    pub open spec fn wf(&self) -> bool {
        &&& cctv_wf(self.current_spec())
        &&& forall|i: int|
            0 <= i < self.records_spec().len() ==> cctv_valid_spec(#[trigger] self.records_spec()[i])
                && cctv_wf(self.records_spec()[i])
    }

    /// A parser that has seen nothing.
    pub fn new() -> (r: Self)
        ensures
            r.wf(),
            r.element_spec() == Seq::<u8>::empty(),
            r.current_spec() == (Seq::<char>::empty(), zero(), zero(), Seq::<char>::empty()),
            r.records_spec() == Seq::<CctvView>::empty(),
    {
        proof {
            crate::number::lemma_pow10_18();
        }
        let r = CctvParser { element: Vec::new(), data: CctvData::new(), cctvs: Vec::new() };
        assert(r.records_spec() =~= Seq::<CctvView>::empty());
        r
    }

    /// The parser's state: the latest element, the current record, the
    /// records kept.
    pub open spec fn view_spec(&self) -> ParserView {
        (self.element_spec(), self.current_spec(), self.records_spec())
    }

    /// Takes one event (see [`cctv_step_spec`]).
    pub fn step(&mut self, ev: XmlEvent)
        requires
            old(self).wf(),
        ensures
            final(self).wf(),
            final(self).view_spec() == cctv_step_spec(old(self).view_spec(), ev),
    {
        let ghost s0 = self.view_spec();
        let ghost r0 = self.records_spec();
        let n_data: [u8; 4] = [100, 97, 116, 97];
        let n_url: [u8; 7] = [99, 99, 116, 118, 117, 114, 108];
        let n_lat: [u8; 6] = [99, 111, 111, 114, 100, 121];
        let n_lon: [u8; 6] = [99, 111, 111, 114, 100, 120];
        let n_name: [u8; 8] = [99, 99, 116, 118, 110, 97, 109, 101];
        assert(n_data@ =~= name_data());
        assert(n_url@ =~= name_url());
        assert(n_lat@ =~= name_lat());
        assert(n_lon@ =~= name_lon());
        assert(n_name@ =~= name_name());
        match ev {
            XmlEvent::Start(n) => {
                self.element = n;
                assert(self.records_spec() =~= r0);
            },
            XmlEvent::End(n) => {
                if bytes_eq(n.as_slice(), &n_data) {
                    if self.data.is_valid() {
                        let ghost before = self.records_spec();
                        let copy = self.data.duplicate();
                        self.cctvs.push(copy);
                        assert(self.records_spec() =~= before.push(self.data@));
                    } else {
                        assert(self.records_spec() =~= r0);
                    }
                    self.data.clear();
                } else {
                    assert(self.records_spec() =~= r0);
                }
            },
            XmlEvent::Text(t) => {
                let text: String = match t {
                    Some(s) => s,
                    None => String::new(),
                };
                assert(text@ == event_text(t));
                if bytes_eq(self.element.as_slice(), &n_url) {
                    self.data.url = convert_cctv_url(text.as_str());
                } else if bytes_eq(self.element.as_slice(), &n_lat) {
                    let cs = chars_of(text.as_str());
                    self.data.latitude = match parse_decimal(cs.as_slice()) {
                        Some(d) => d,
                        None => Decimal::new(0, 0),
                    };
                } else if bytes_eq(self.element.as_slice(), &n_lon) {
                    let cs = chars_of(text.as_str());
                    self.data.longitude = match parse_decimal(cs.as_slice()) {
                        Some(d) => d,
                        None => Decimal::new(0, 0),
                    };
                } else if bytes_eq(self.element.as_slice(), &n_name) {
                    self.data.name = text;
                }
                assert(self.records_spec() =~= r0);
            },
            _ => {
                assert(self.records_spec() =~= r0);
            },
        }
    }

    /// The records kept so far.
    pub fn into_records(self) -> (r: Vec<CctvData>)
        ensures
            r@.map_values(|c: CctvData| c@) == self.records_spec(),
    {
        self.cctvs
    }
}

/// Whether every record is valid.
pub open spec fn all_valid(s: Seq<CctvView>) -> bool {
    forall|i: int| 0 <= i < s.len() ==> cctv_valid_spec(#[trigger] s[i]) && cctv_wf(s[i])
}

/// The valid records of a CCTV feed, in document order, or the reader's
/// error (see [`cctv_feed_spec`]).
pub fn parse_cctv_data(xml: &str) -> (r: Result<Vec<CctvData>, String>)
    ensures
        records_result_view(r) == cctv_feed_spec(xml@),
        r matches Ok(v) ==> all_valid(v@.map_values(|c: CctvData| c@)),
{
    let ghost evs = xml_events_of(xml@);
    let mut reader = xml_reader(xml);
    let mut parser = CctvParser::new();
    let ghost mut k: int = 0;
    assert(evs.subrange(0, 0) =~= Seq::<XmlEvent>::empty());
    assert(evs.subrange(0, evs.len() as int) =~= evs);
    loop
        invariant
            parser.wf(),
            evs == xml_events_of(xml@),
            event_stream_wf(evs),
            0 <= k < evs.len(),
            pending_events(reader) == evs.subrange(k, evs.len() as int),
            parser.view_spec() == cctv_run_spec(evs.subrange(0, k)),
        decreases evs.len() - k,
    {
        let ev = next_xml_event(&mut reader);
        assert(ev == evs[k]);
        match ev {
            XmlEvent::Eof => {
                assert(k == evs.len() - 1);
                assert(evs.last() == evs[k]);
                assert(evs.drop_last() =~= evs.subrange(0, k));
                assert(evs.last() is Eof);
                assert(cctv_feed_spec(xml@) == Ok::<Seq<CctvView>, String>(
                    cctv_run_spec(evs.drop_last()).2,
                ));
                let v = parser.into_records();
                return Ok(v);
            },
            XmlEvent::Error(e) => {
                assert(k == evs.len() - 1);
                assert(evs.last() == evs[k]);
                assert(cctv_feed_spec(xml@) == Err::<Seq<CctvView>, String>(e));
                return Err(e);
            },
            other => {
                assert(!is_final_event(evs[k]));
                assert(evs.subrange(0, k + 1).drop_last() =~= evs.subrange(0, k));
                parser.step(other);
                proof {
                    k = k + 1;
                }
                assert(pending_events(reader) =~= evs.subrange(k, evs.len() as int));
            },
        }
    }
}

/// What the CCTV job gets from its two feeds: where both were fetched, the
/// second feed's records followed by the first's, or the first parse error;
/// where one fetch failed, the other feed's parse if `allow_error` says so,
/// else the fetch error; where both failed, the second's fetch error.
pub open spec fn merge_cctv_spec(
    ex: Result<String, String>,
    its: Result<String, String>,
    allow_error: bool,
) -> Result<Seq<CctvView>, String> {
    match (ex, its) {
        (Ok(a), Ok(b)) => match cctv_feed_spec(a@) {
            Err(e) => Err(e),
            Ok(x) => match cctv_feed_spec(b@) {
                Err(e) => Err(e),
                Ok(y) => Ok(y + x),
            },
        },
        (Ok(a), Err(e)) => if allow_error {
            cctv_feed_spec(a@)
        } else {
            Err(e)
        },
        (Err(e), Ok(b)) => if allow_error {
            cctv_feed_spec(b@)
        } else {
            Err(e)
        },
        (Err(_), Err(e)) => Err(e),
    }
}

/// The records of both feeds as the CCTV job asks for them (see
/// [`merge_cctv_spec`]).
pub fn merge_cctv_sources(
    ex: Result<String, String>,
    its: Result<String, String>,
    allow_error: bool,
) -> (r: Result<Vec<CctvData>, String>)
    ensures
        records_result_view(r) == merge_cctv_spec(ex, its, allow_error),
        r matches Ok(v) ==> all_valid(v@.map_values(|c: CctvData| c@)),
{
    match (ex, its) {
        (Ok(ex), Ok(its)) => match parse_cctv_data(ex.as_str()) {
            Err(e) => Err(e),
            Ok(mut v_ex) => match parse_cctv_data(its.as_str()) {
                Err(e) => Err(e),
                Ok(mut v_its) => {
                    let ghost a = v_its@.map_values(|c: CctvData| c@);
                    let ghost b = v_ex@.map_values(|c: CctvData| c@);
                    v_its.append(&mut v_ex);
                    assert(v_its@.map_values(|c: CctvData| c@) =~= a + b);
                    Ok(v_its)
                },
            },
        },
        (Ok(ex), Err(err)) => if allow_error {
            parse_cctv_data(ex.as_str())
        } else {
            Err(err)
        },
        (Err(err), Ok(its)) => if allow_error {
            parse_cctv_data(its.as_str())
        } else {
            Err(err)
        },
        (Err(_), Err(err)) => Err(err),
    }
}

/// The index of the last camera with the given name, or -1.
pub open spec fn name_index(s: Seq<CctvView>, name: Seq<char>) -> int
    decreases s.len(),
{
    if s.len() == 0 {
        -1
    } else if s.last().3 == name {
        s.len() - 1
    } else {
        name_index(s.drop_last(), name)
    }
}

/// The cameras after recording `tv`: a camera of the same name is replaced
/// in place, otherwise `tv` is added last.
pub open spec fn upsert_spec(s: Seq<CctvView>, tv: CctvView) -> Seq<CctvView> {
    let i = name_index(s, tv.3);
    if i < 0 {
        s.push(tv)
    } else {
        s.update(i, tv)
    }
}

/// The cameras after recording each of `tvs` in turn.
pub open spec fn upsert_all_spec(s: Seq<CctvView>, tvs: Seq<CctvView>) -> Seq<CctvView>
    decreases tvs.len(),
{
    if tvs.len() == 0 {
        s
    } else {
        upsert_spec(upsert_all_spec(s, tvs.drop_last()), tvs.last())
    }
}

/// The cameras seen so far, by name.
pub struct CctvIndex {
    entries: Vec<CctvData>,
}

impl View for CctvIndex {
    type V = Seq<CctvView>;

    closed spec fn view(&self) -> Seq<CctvView> {
        self.entries@.map_values(|c: CctvData| c@)
    }
}

impl CctvIndex {
    /// No cameras.
    pub fn new() -> (r: Self)
        ensures
            r@ == Seq::<CctvView>::empty(),
    {
        let r = CctvIndex { entries: Vec::new() };
        assert(r@ =~= Seq::<CctvView>::empty());
        r
    }

    fn index_of(&self, name: &Vec<char>) -> (r: Option<usize>)
        ensures
            match r {
                Some(i) => i < self@.len() && name_index(self@, name@) == i,
                None => name_index(self@, name@) == -1,
            },
    {
        let ghost s = self@;
        let mut i: usize = self.entries.len();
        assert(s.subrange(0, i as int) =~= s);
        while i > 0
            invariant
                s == self@,
                i <= s.len(),
                s.len() == self.entries@.len(),
                name_index(s, name@) == name_index(s.subrange(0, i as int), name@),
            decreases i,
        {
            assert(s.subrange(0, i as int).drop_last() =~= s.subrange(0, i - 1));
            let cs = chars_of(self.entries[i - 1].name.as_str());
            if chars_eq(cs.as_slice(), name.as_slice()) {
                return Some(i - 1);
            }
            i = i - 1;
        }
        None
    }

    /// The camera with the given name.
    pub fn get(&self, name: &str) -> (r: Option<CctvData>)
        ensures
            match r {
                Some(c) => name_index(self@, name@) >= 0 && c@ == self@[name_index(self@, name@)],
                None => name_index(self@, name@) == -1,
            },
    {
        let key = chars_of(name);
        match self.index_of(&key) {
            Some(i) => Some(self.entries[i].duplicate()),
            None => None,
        }
    }

    /// Records each camera of `tvs` in turn (see [`upsert_spec`]).
    pub fn update(&mut self, tvs: &Vec<CctvData>)
        ensures
            final(self)@ == upsert_all_spec(old(self)@, tvs@.map_values(|c: CctvData| c@)),
    {
        let ghost s0 = self@;
        let ghost tv = tvs@.map_values(|c: CctvData| c@);
        let mut i: usize = 0;
        assert(tv.subrange(0, 0) =~= Seq::<CctvView>::empty());
        while i < tvs.len()
            invariant
                0 <= i <= tvs@.len(),
                tv == tvs@.map_values(|c: CctvData| c@),
                self@ == upsert_all_spec(s0, tv.subrange(0, i as int)),
            decreases tvs@.len() - i,
        {
            assert(tv.subrange(0, i + 1).drop_last() =~= tv.subrange(0, i as int));
            let item = tvs[i].duplicate();
            let key = chars_of(item.name.as_str());
            let ghost before = self@;
            match self.index_of(&key) {
                Some(k) => {
                    self.entries.set(k, item);
                    assert(self@ =~= before.update(k as int, tv[i as int]));
                },
                None => {
                    self.entries.push(item);
                    assert(self@ =~= before.push(tv[i as int]));
                },
            }
            i = i + 1;
        }
        assert(tv.subrange(0, tv.len() as int) =~= tv);
    }
}

/// Registers the CCTV job; `first_run_ok` is the outcome of the run made
/// at start-up, which decides when the job first runs.
pub fn init_cctv_sys<J>(scheduler: &mut TaskSchedulerBuilder<J>, job: J, first_run_ok: bool, now: u64)
    requires
        now <= MAX_START_TIME,
    ensures
        registered_spec(
            old(scheduler).tasks_spec(),
            final(scheduler).tasks_spec(),
            job,
            now,
            next_delay_spec(Feed::Cctv, first_run_ok),
        ),
{
    register_feed(scheduler, Feed::Cctv, job, first_run_ok, now);
}

} // verus!
