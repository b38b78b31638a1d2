//! User reports: the validation of report forms, password digests and the
//! authorisation of deletes, the per-report cache, the 48-hour window of
//! the public map, and the reading of uploaded images.
use vstd::prelude::*;
use crate::feed::{Feed, MAX_START_TIME, next_delay_spec, register_feed, registered_spec};
use crate::scheduler::TaskSchedulerBuilder;
use crate::number::Decimal;
use crate::text::{chars_eq, chars_of, find_from, find_spec, split_on, split_spec, string_of};
use crate::util::{calculate_hash, generate_rand_id, hash_of, is_alphanumeric_ascii};
use std::collections::HashMap;

verus! {

/// How long a report stays on the public map, in seconds.
pub const REPORT_DURATION: u64 = 172800;

/// The largest upload: the byte length of its data URI.
pub const FILE_UPLOAD_LIMIT: usize = 11184808;

/// The most reports the per-report cache holds before it is emptied.
pub const MAX_REPORT_CACHE_SIZE: usize = 512;

/// How long the cached report map stays valid, in seconds.
pub const CACHE_VALID_DURATION: u64 = 10;

/// The text appended to a password before it is hashed.
pub open spec fn salt_spec() -> Seq<char> {
    "^^ NeuroWhAI 42 5749"@
}

/// The digest stored for a password.
pub open spec fn password_digest_spec(pwd: Seq<char>) -> u64 {
    hash_of(pwd + salt_spec())
}

fn concat_chars(a: &[char], b: &[char]) -> (r: Vec<char>)
    ensures
        r@ == a@ + b@,
{
    let mut r: Vec<char> = Vec::new();
    let mut i: usize = 0;
    while i < a.len()
        invariant
            0 <= i <= a@.len(),
            r@ == a@.subrange(0, i as int),
        decreases a@.len() - i,
    {
        r.push(a[i]);
        i = i + 1;
        assert(r@ =~= a@.subrange(0, i as int));
    }
    let mut j: usize = 0;
    while j < b.len()
        invariant
            0 <= j <= b@.len(),
            i == a@.len(),
            r@ == a@.subrange(0, i as int) + b@.subrange(0, j as int),
        decreases b@.len() - j,
    {
        r.push(b[j]);
        j = j + 1;
        assert(r@ =~= a@.subrange(0, i as int) + b@.subrange(0, j as int));
    }
    assert(a@.subrange(0, i as int) =~= a@);
    assert(b@.subrange(0, j as int) =~= b@);
    r
}

/// The digest of a password with the salt appended.
pub fn hash_password(pwd: &str) -> (r: u64)
    ensures
        r == password_digest_spec(pwd@),
{
    let p = chars_of(pwd);
    let s = chars_of("^^ NeuroWhAI 42 5749");
    let all = concat_chars(p.as_slice(), s.as_slice());
    let text = string_of(all.as_slice());
    calculate_hash(text.as_str())
}

pub open spec fn digit_char(d: nat) -> char {
    (('0' as u32) + d as u32) as char
}

/// The decimal digits of `n`, without leading zeros.
pub open spec fn decimal_text_spec(n: nat) -> Seq<char>
    decreases n,
{
    if n < 10 {
        seq![digit_char(n)]
    } else {
        decimal_text_spec(n / 10) + seq![digit_char(n % 10)]
    }
}

/// The decimal digits of `n`.
pub fn decimal_text(n: u64) -> (r: String)
    ensures
        r@ == decimal_text_spec(n as nat),
{
    let mut m: u64 = n;
    let mut suffix: Vec<char> = Vec::new();
    assert(decimal_text_spec(n as nat) =~= decimal_text_spec(m as nat) + suffix@);
    while m >= 10
        invariant
            decimal_text_spec(n as nat) == decimal_text_spec(m as nat) + suffix@,
        decreases m,
    {
        let d = m % 10;
        let c: char = char_of_digit(d);
        let ghost before = suffix@;
        suffix.insert(0, c);
        assert(decimal_text_spec(m as nat) == decimal_text_spec((m / 10) as nat) + seq![c]);
        assert(decimal_text_spec((m / 10) as nat) + seq![c] + before =~= decimal_text_spec(
            (m / 10) as nat,
        ) + suffix@);
        m = m / 10;
    }
    let ghost before = suffix@;
    suffix.insert(0, char_of_digit(m));
    assert(suffix@ =~= decimal_text_spec(m as nat) + before);
    string_of(suffix.as_slice())
}

fn char_of_digit(d: u64) -> (c: char)
    requires
        d < 10,
    ensures
        c == digit_char(d as nat),
{
    if d == 0 { '0' } else if d == 1 { '1' } else if d == 2 { '2' } else if d == 3 { '3' }
    else if d == 4 { '4' } else if d == 5 { '5' } else if d == 6 { '6' } else if d == 7 { '7' }
    else if d == 8 { '8' } else { '9' }
}

/// The administrator's id and password digest.
pub struct AdminCredentials {
    id: String,
    pwd_hash: u64,
}

impl AdminCredentials {
    pub closed spec fn id_spec(&self) -> Seq<char> {
        self.id@
    }

    pub closed spec fn hash_spec(&self) -> u64 {
        self.pwd_hash
    }

    /// The credentials of an administrator with the given id and password.
    pub fn new(id: String, pwd: &str) -> (r: Self)
        ensures
            r.id_spec() == id@,
            r.hash_spec() == password_digest_spec(pwd@),
    {
        AdminCredentials { id, pwd_hash: hash_password(pwd) }
    }
}

/// Whether `id` and `pwd` are the administrator's.
pub fn check_admin(admin: &AdminCredentials, id: &str, pwd: &str) -> (r: bool)
    ensures
        r == (admin.id_spec() == id@ && admin.hash_spec() == password_digest_spec(pwd@)),
{
    let a = chars_of(admin.id.as_str());
    let b = chars_of(id);
    chars_eq(a.as_slice(), b.as_slice()) && admin.pwd_hash == hash_password(pwd)
}

/// The text stored as a report's password: the digest in decimal.
pub fn report_password_text(pwd: &str) -> (r: String)
    ensures
        r@ == decimal_text_spec(password_digest_spec(pwd@) as nat),
{
    decimal_text(hash_password(pwd))
}

/// Whether a report stored with `stored_user_id` and `stored_pwd` may be
/// deleted by `user_id` with `user_pwd`: its author with the right password,
/// or the administrator.
pub fn may_delete_report(
    stored_user_id: &str,
    stored_pwd: &str,
    user_id: &str,
    user_pwd: &str,
    admin: &AdminCredentials,
) -> (r: bool)
    ensures
        r == ((stored_user_id@ == user_id@ && stored_pwd@ == decimal_text_spec(
            password_digest_spec(user_pwd@) as nat,
        )) || (admin.id_spec() == user_id@ && admin.hash_spec() == password_digest_spec(
            user_pwd@,
        ))),
{
    let su = chars_of(stored_user_id);
    let u = chars_of(user_id);
    let sp = chars_of(stored_pwd);
    let hp = report_password_text(user_pwd);
    let hpc = chars_of(hp.as_str());
    (chars_eq(su.as_slice(), u.as_slice()) && chars_eq(sp.as_slice(), hpc.as_slice()))
        || check_admin(admin, user_id, user_pwd)
}

/// Unicode's `White_Space` characters: tab to carriage return, space,
/// next line, no-break space, ogham space mark, en quad to hair space, line
/// and paragraph separators, narrow no-break space, medium mathematical
/// space and ideographic space.
pub open spec fn white_space(c: char) -> bool {
    let u = c as u32;
    (0x9 <= u && u <= 0xd) || u == 0x20 || u == 0x85 || u == 0xa0 || u == 0x1680 || (0x2000 <= u
        && u <= 0x200a) || u == 0x2028 || u == 0x2029 || u == 0x202f || u == 0x205f || u == 0x3000
}

/// Whether a character is white space (see [`white_space`]).
pub fn is_white_space(c: char) -> (r: bool)
    ensures
        r == white_space(c),
{
    let u = c as u32;
    (0x9 <= u && u <= 0xd) || u == 0x20 || u == 0x85 || u == 0xa0 || u == 0x1680 || (0x2000 <= u
        && u <= 0x200a) || u == 0x2028 || u == 0x2029 || u == 0x202f || u == 0x205f || u == 0x3000
}

/// The number of bytes a character takes in UTF-8.
pub open spec fn utf8_char_len(c: char) -> int {
    if (c as u32) < 0x80 {
        1
    } else if (c as u32) < 0x800 {
        2
    } else if (c as u32) < 0x10000 {
        3
    } else {
        4
    }
}

/// The byte length of a text in UTF-8.
pub open spec fn byte_len(s: Seq<char>) -> int
    decreases s.len(),
{
    if s.len() == 0 {
        0
    } else {
        byte_len(s.drop_last()) + utf8_char_len(s.last())
    }
}

proof fn lemma_byte_len_prefix(s: Seq<char>, i: int)
    requires
        0 <= i <= s.len(),
    ensures
        byte_len(s.subrange(0, i)) <= byte_len(s),
    decreases s.len() - i,
{
    if i < s.len() {
        assert(s.subrange(0, i + 1).drop_last() =~= s.subrange(0, i));
        lemma_byte_len_prefix(s, i + 1);
    } else {
        assert(s.subrange(0, i) =~= s);
    }
}

/// Whether the UTF-8 form of `s` is longer than `limit` bytes.
pub fn byte_len_exceeds(s: &str, limit: usize) -> (r: bool)
    ensures
        r == (byte_len(s@) > limit),
{
    let cs = chars_of(s);
    let mut acc: usize = 0;
    let mut i: usize = 0;
    assert(cs@.subrange(0, 0) =~= Seq::<char>::empty());
    while i < cs.len()
        invariant
            0 <= i <= cs@.len(),
            cs@ == s@,
            acc == byte_len(cs@.subrange(0, i as int)),
            acc <= limit,
        decreases cs@.len() - i,
    {
        let c = cs[i];
        let w: usize = if (c as u32) < 0x80 {
            1
        } else if (c as u32) < 0x800 {
            2
        } else if (c as u32) < 0x10000 {
            3
        } else {
            4
        };
        assert(cs@.subrange(0, i + 1).drop_last() =~= cs@.subrange(0, i as int));
        assert(w == utf8_char_len(c));
        assert(byte_len(cs@.subrange(0, i + 1)) == acc + w);
        if w > limit - acc {
            proof {
                lemma_byte_len_prefix(cs@, i + 1);
            }
            return true;
        }
        acc = acc + w;
        i = i + 1;
    }
    assert(cs@.subrange(0, i as int) =~= cs@);
    false
}

/// Why a report form is refused.
#[derive(Clone, Copy, Debug, PartialEq, Eq, Structural)]
pub enum ReportFormError {
    IdHasSpace,
    IdTooShort,
    IdTooLong,
    PasswordTooShort,
    InvalidLevel,
    DescriptionTooLong,
    InvalidImageKey,
}

impl ReportFormError {
    /// The message shown to the user.
    pub fn message(&self) -> String {
        match self {
            ReportFormError::IdHasSpace => "The ID can not contain spaces".to_owned(),
            ReportFormError::IdTooShort => "ID must be at least 2 characters".to_owned(),
            ReportFormError::IdTooLong => "ID can not be longer than 24 characters".to_owned(),
            ReportFormError::PasswordTooShort => "Password must be at least 4 characters".to_owned(),
            ReportFormError::InvalidLevel => "Invalid level".to_owned(),
            ReportFormError::DescriptionTooLong => "The maximum bytes of the description is 65536".to_owned(),
            ReportFormError::InvalidImageKey => "Invalid image key".to_owned(),
        }
    }
}

/// A report as the user submits it.
#[derive(Debug)]
pub struct ReportForm {
    pub captcha: String,
    pub user_id: String,
    pub user_pwd: String,
    pub latitude: Decimal,
    pub longitude: Decimal,
    pub lvl: i32,
    pub description: String,
    pub img_key: String,
}

pub open spec fn pat_dotdot() -> Seq<char> {
    seq!['.', '.']
}

/// The first rule a report form breaks, in the order the rules are checked;
/// `None` where it breaks none.
pub open spec fn report_form_error_spec(
    user_id: Seq<char>,
    user_pwd: Seq<char>,
    lvl: i32,
    description: Seq<char>,
    img_key: Seq<char>,
) -> Option<ReportFormError> {
    if exists|i: int| 0 <= i < user_id.len() && white_space(#[trigger] user_id[i]) {
        Some(ReportFormError::IdHasSpace)
    } else if user_id.len() < 2 {
        Some(ReportFormError::IdTooShort)
    } else if user_id.len() > 24 {
        Some(ReportFormError::IdTooLong)
    } else if user_pwd.len() < 4 {
        Some(ReportFormError::PasswordTooShort)
    } else if lvl < 0 || lvl >= 5 {
        Some(ReportFormError::InvalidLevel)
    } else if byte_len(description) > 65536 {
        Some(ReportFormError::DescriptionTooLong)
    } else if find_spec(img_key, pat_dotdot(), 0) >= 0 || byte_len(img_key) > 256 {
        Some(ReportFormError::InvalidImageKey)
    } else {
        None
    }
}

fn has_white_space(s: &[char]) -> (r: bool)
    ensures
        r == exists|i: int| 0 <= i < s@.len() && white_space(#[trigger] s@[i]),
{
    let mut i: usize = 0;
    while i < s.len()
        invariant
            0 <= i <= s@.len(),
            forall|j: int| 0 <= j < i ==> !white_space(#[trigger] s@[j]),
        decreases s@.len() - i,
    {
        if is_white_space(s[i]) {
            return true;
        }
        i = i + 1;
    }
    false
}

impl ReportForm {
    /// The first rule the form breaks (see [`report_form_error_spec`]).
    pub fn verify_error(&self) -> (r: Option<ReportFormError>)
        ensures
            r == report_form_error_spec(
                self.user_id@,
                self.user_pwd@,
                self.lvl,
                self.description@,
                self.img_key@,
            ),
    {
        let id = chars_of(self.user_id.as_str());
        let pwd = chars_of(self.user_pwd.as_str());
        let key = chars_of(self.img_key.as_str());
        let dotdot: [char; 2] = ['.', '.'];
        assert(dotdot@ =~= pat_dotdot());
        if has_white_space(id.as_slice()) {
            Some(ReportFormError::IdHasSpace)
        } else if id.len() < 2 {
            Some(ReportFormError::IdTooShort)
        } else if id.len() > 24 {
            Some(ReportFormError::IdTooLong)
        } else if pwd.len() < 4 {
            Some(ReportFormError::PasswordTooShort)
        } else if self.lvl < 0 || self.lvl >= 5 {
            Some(ReportFormError::InvalidLevel)
        } else if byte_len_exceeds(self.description.as_str(), 65536) {
            Some(ReportFormError::DescriptionTooLong)
        } else if find_from(key.as_slice(), &dotdot, 0).is_some() || byte_len_exceeds(
            self.img_key.as_str(),
            256,
        ) {
            Some(ReportFormError::InvalidImageKey)
        } else {
            None
        }
    }
}

/// Why a bad-report form is refused.
#[derive(Clone, Copy, Debug, PartialEq, Eq, Structural)]
pub enum BadReportFormError {
    ReasonTooLong,
}

impl BadReportFormError {
    /// The message shown to the user.
    pub fn message(&self) -> String {
        "The maximum bytes of the reason is 65536".to_owned()
    }
}

/// A complaint about a report, as the user submits it.
#[derive(Debug)]
pub struct BadReportForm {
    pub captcha: String,
    pub id: i32,
    pub reason: String,
}

impl BadReportForm {
    /// The rule the form breaks: a reason of more than 65536 bytes.
    pub fn verify_error(&self) -> (r: Option<BadReportFormError>)
        ensures
            r == if byte_len(self.reason@) > 65536 {
                Some(BadReportFormError::ReasonTooLong)
            } else {
                None
            },
    {
        if byte_len_exceeds(self.reason.as_str(), 65536) {
            Some(BadReportFormError::ReasonTooLong)
        } else {
            None
        }
    }
}

/// A stored complaint about a report.
#[derive(Debug)]
pub struct BadReport {
    pub id: i32,
    pub report_id: i32,
    pub reason: String,
}

/// A complaint about a report, before it is stored.
#[derive(Debug)]
pub struct NewBadReport {
    pub report_id: i32,
    pub reason: String,
}

/// A report's entry on the public map.
#[derive(Debug)]
pub struct ReportSummary {
    pub id: i32,
    pub user_id: String,
    pub latitude: Decimal,
    pub longitude: Decimal,
    /// Seconds since the Unix epoch.
    pub created_time: u64,
    pub lvl: i32,
}

/// A report made at `created` is on the map at `now`: it is less than
/// [`REPORT_DURATION`] seconds old.
pub open spec fn report_recent_spec(created: u64, now: u64) -> bool {
    created + REPORT_DURATION > now
}

/// The reports still on the map at `now`, in order.
pub open spec fn recent_reports_spec(s: Seq<ReportSummary>, now: u64) -> Seq<ReportSummary>
    decreases s.len(),
{
    if s.len() == 0 {
        Seq::empty()
    } else {
        let prev = recent_reports_spec(s.drop_last(), now);
        if report_recent_spec(s.last().created_time, now) {
            prev.push(s.last())
        } else {
            prev
        }
    }
}

/// The reports of the last 48 hours, in order: those made after
/// `now - REPORT_DURATION`.
pub fn reports_within(reports: Vec<ReportSummary>, now: u64) -> (r: Vec<ReportSummary>)
    ensures
        r@ == recent_reports_spec(reports@, now),
        forall|i: int|
            0 <= i < r@.len() ==> report_recent_spec(#[trigger] r@[i].created_time, now),
{
    let ghost orig = reports@;
    let n = reports.len();
    let mut rest = reports;
    let mut out: Vec<ReportSummary> = Vec::new();
    let mut i: usize = 0;
    assert(orig.subrange(0, 0) =~= Seq::<ReportSummary>::empty());
    assert(rest@ =~= orig.subrange(0, n as int));
    while i < n
        invariant
            n == orig.len(),
            0 <= i <= n,
            rest@ == orig.subrange(i as int, n as int),
            out@ == recent_reports_spec(orig.subrange(0, i as int), now),
            forall|k: int| 0 <= k < out@.len() ==> report_recent_spec(#[trigger] out@[k].created_time, now),
        decreases n - i,
    {
        let r = rest.remove(0);
        assert(r == orig[i as int]);
        assert(orig.subrange(0, i + 1).drop_last() =~= orig.subrange(0, i as int));
        assert(rest@ =~= orig.subrange(i + 1, n as int));
        if r.created_time >= now || now - r.created_time < REPORT_DURATION {
            out.push(r);
        }
        i = i + 1;
    }
    assert(orig.subrange(0, n as int) =~= orig);
    out
}

broadcast use vstd::std_specs::hash::group_hash_axioms;

/// Reports already rendered, by id; emptied when it reaches
/// [`MAX_REPORT_CACHE_SIZE`] entries.
pub struct ReportCache {
    map: HashMap<i32, String>,
}

impl View for ReportCache {
    type V = Map<i32, Seq<char>>;

    closed spec fn view(&self) -> Map<i32, Seq<char>> {
        self.map@.map_values(|s: String| s@)
    }
}

impl ReportCache {
    /// An empty cache.
    pub fn new() -> (r: Self)
        ensures
            r@ == Map::<i32, Seq<char>>::empty(),
    {
        let r = ReportCache { map: HashMap::with_capacity(MAX_REPORT_CACHE_SIZE) };
        assert(r@ =~= Map::<i32, Seq<char>>::empty());
        r
    }

    /// The rendered report with the given id.
    pub fn get(&self, id: i32) -> (r: Option<String>)
        ensures
            match r {
                Some(s) => self@.contains_key(id) && s@ == self@[id],
                None => !self@.contains_key(id),
            },
    {
        match self.map.get(&id) {
            Some(s) => Some(s.clone()),
            None => None,
        }
    }

    /// Stores a rendered report, after emptying the cache if it is full.
    pub fn insert(&mut self, id: i32, data: String)
        ensures
            final(self)@ == (if old(self)@.len() >= MAX_REPORT_CACHE_SIZE {
                Map::<i32, Seq<char>>::empty()
            } else {
                old(self)@
            }).insert(id, data@),
    {
        assert(self@.dom() =~= self.map@.dom());
        if self.map.len() >= MAX_REPORT_CACHE_SIZE {
            self.map.clear();
            assert(self@ =~= Map::<i32, Seq<char>>::empty());
        }
        let ghost mid = self@;
        self.map.insert(id, data);
        assert(self@ =~= mid.insert(id, data@));
    }

    /// Forgets the report with the given id.
    pub fn remove(&mut self, id: i32)
        ensures
            final(self)@ == old(self)@.remove(id),
    {
        let ghost before = self@;
        self.map.remove(&id);
        assert(self@ =~= before.remove(id));
    }
}

/// Once a report is deleted, the per-report cache no longer serves it,
/// whatever the cache held before.
pub proof fn lemma_deleted_report_not_cached(m: Map<i32, Seq<char>>, id: i32)
    ensures
        !m.remove(id).contains_key(id),
{
}

/// The report map as last rendered, and when.
pub struct ReportMapCache {
    data: Option<String>,
    created_time: u64,
}

impl ReportMapCache {
    pub closed spec fn data_spec(&self) -> Option<Seq<char>> {
        match self.data {
            Some(s) => Some(s@),
            None => None,
        }
    }

    pub closed spec fn created_spec(&self) -> u64 {
        self.created_time
    }

    /// Nothing rendered yet.
    pub fn new(now: u64) -> (r: Self)
        ensures
            r.data_spec() is None,
            r.created_spec() == now,
    {
        ReportMapCache { data: None, created_time: now }
    }

    /// Whether a rendering is held and is at most [`CACHE_VALID_DURATION`]
    /// seconds old.
    pub fn is_valid(&self, now: u64) -> (r: bool)
        ensures
            r == (self.data_spec() is Some && now <= self.created_spec() + CACHE_VALID_DURATION),
    {
        self.data.is_some() && (now <= self.created_time || now - self.created_time
            <= CACHE_VALID_DURATION)
    }

    /// Holds a new rendering made at `now`.
    pub fn update(&mut self, data: String, now: u64)
        ensures
            final(self).data_spec() == Some(data@),
            final(self).created_spec() == now,
    {
        self.data = Some(data);
        self.created_time = now;
    }

    /// The rendering held.
    pub fn get_data(&self) -> (r: String)
        requires
            self.data_spec() is Some,
        ensures
            Some(r@) == self.data_spec(),
    {
        match &self.data {
            Some(s) => s.clone(),
            None => String::new(),
        }
    }
}

/// The decoded bytes of a standard base64 text, with padding.
pub uninterp spec fn base64_decoded(s: Seq<char>) -> Option<Seq<u8>>;

/// Relies on `base64::decode` (the standard alphabet): the bytes, or the
/// decoder's error message; the result depends on the text alone.
#[verifier::external_body]
fn base64_decode(s: &str) -> (r: Result<Vec<u8>, String>)
    ensures
        match r {
            Ok(b) => base64_decoded(s@) == Some(b@),
            Err(_) => base64_decoded(s@) is None,
        },
{
    base64::decode(s).map_err(|e| e.to_string())
}

/// Why an upload is refused.
#[derive(Debug)]
pub enum UploadError {
    TooLarge,
    InvalidUri,
    InvalidExtension,
    /// The decoder's message.
    Decode(String),
}

impl UploadError {
    /// The message shown to the user.
    pub fn message(&self) -> String {
        match self {
            UploadError::TooLarge => "The file is too large".to_owned(),
            UploadError::InvalidUri => "Invalid uri".to_owned(),
            UploadError::InvalidExtension => "Invalid extension".to_owned(),
            UploadError::Decode(m) => m.clone(),
        }
    }
}

/// An uploaded image: its file extension and its bytes.
#[derive(Debug)]
pub struct ImageUpload {
    pub ext: String,
    pub bytes: Vec<u8>,
}

/// The extensions an upload may have.
pub open spec fn allowed_ext_spec(e: Seq<char>) -> bool {
    e == "jpeg"@ || e == "jpg"@ || e == "png"@ || e == "bmp"@
}

/// The extension named by a data URI: in the part before the first comma,
/// the text after the first `/` up to the next `/` or `;`.
pub open spec fn uri_ext_spec(uri: Seq<char>) -> Option<Seq<char>> {
    let head = split_spec(uri, ',')[0];
    let parts = split_spec(head, '/');
    if parts.len() < 2 {
        None
    } else {
        Some(split_spec(parts[1], ';')[0])
    }
}

/// What an upload of the data URI `uri` gives.
pub open spec fn image_upload_spec(uri: Seq<char>) -> Result<(Seq<char>, Seq<u8>), int> {
    if byte_len(uri) > FILE_UPLOAD_LIMIT {
        Err(0)
    } else {
        match uri_ext_spec(uri) {
            None => Err(1),
            Some(ext) => if !allowed_ext_spec(ext) {
                Err(2)
            } else if split_spec(uri, ',').len() < 2 {
                Err(1)
            } else {
                match base64_decoded(split_spec(uri, ',')[1]) {
                    Some(b) => Ok((ext, b)),
                    None => Err(3),
                }
            },
        }
    }
}

/// The kind of an upload error, as [`image_upload_spec`] numbers it.
pub open spec fn upload_error_kind(e: UploadError) -> int {
    match e {
        UploadError::TooLarge => 0,
        UploadError::InvalidUri => 1,
        UploadError::InvalidExtension => 2,
        UploadError::Decode(_) => 3,
    }
}

fn is_allowed_ext(e: &[char]) -> (r: bool)
    ensures
        r == allowed_ext_spec(e@),
{
    let jpeg = chars_of("jpeg");
    let jpg = chars_of("jpg");
    let png = chars_of("png");
    let bmp = chars_of("bmp");
    chars_eq(e, jpeg.as_slice()) || chars_eq(e, jpg.as_slice()) || chars_eq(e, png.as_slice())
        || chars_eq(e, bmp.as_slice())
}

/// Reads an uploaded image from its data URI (`data:image/png;base64,...`):
/// the size limit, the extension, the allowed extensions and the base64
/// payload are checked in that order (see [`image_upload_spec`]).
pub fn parse_image_upload(data_uri: &str) -> (r: Result<ImageUpload, UploadError>)
    ensures
        match r {
            Ok(u) => image_upload_spec(data_uri@) == Ok::<(Seq<char>, Seq<u8>), int>(
                (u.ext@, u.bytes@),
            ),
            Err(e) => image_upload_spec(data_uri@) == Err::<(Seq<char>, Seq<u8>), int>(
                upload_error_kind(e),
            ),
        },
{
    if byte_len_exceeds(data_uri, FILE_UPLOAD_LIMIT) {
        return Err(UploadError::TooLarge);
    }
    let uri = chars_of(data_uri);
    let pieces = split_on(uri.as_slice(), ',');
    proof {
        crate::text::lemma_split_len(uri@, ',');
    }
    let parts = split_on(pieces[0].as_slice(), '/');
    if parts.len() < 2 {
        return Err(UploadError::InvalidUri);
    }
    let exts = split_on(parts[1].as_slice(), ';');
    proof {
        crate::text::lemma_split_len(parts@[1]@, ';');
    }
    let ext = &exts[0];
    if !is_allowed_ext(ext.as_slice()) {
        return Err(UploadError::InvalidExtension);
    }
    if pieces.len() < 2 {
        return Err(UploadError::InvalidUri);
    }
    let payload = string_of(pieces[1].as_slice());
    match base64_decode(payload.as_str()) {
        Ok(bytes) => Ok(ImageUpload { ext: string_of(ext.as_slice()), bytes }),
        Err(m) => Err(UploadError::Decode(m)),
    }
}

/// A fresh name for an uploaded file: 32 random letters and digits, a dot
/// and the extension.
pub fn upload_file_name(ext: &str) -> (r: String)
    ensures
        r@.len() == 33 + ext@.len(),
        forall|i: int| 0 <= i < 32 ==> is_alphanumeric_ascii(#[trigger] r@[i]),
        r@[32] == '.',
        r@.subrange(33, r@.len() as int) == ext@,
{
    let id = generate_rand_id(32);
    let a = chars_of(id.as_str());
    let dot: [char; 1] = ['.'];
    let b = concat_chars(a.as_slice(), &dot);
    let e = chars_of(ext);
    let all = concat_chars(b.as_slice(), e.as_slice());
    assert(all@.subrange(33, all@.len() as int) =~= e@);
    string_of(all.as_slice())
}

/// Where a finalized report image is served from: `images/` and its key.
pub fn public_image_path(img_key: &str) -> (r: String)
    ensures
        r@ == "images/"@ + img_key@,
{
    let a = chars_of("images/");
    let b = chars_of(img_key);
    let all = concat_chars(a.as_slice(), b.as_slice());
    string_of(all.as_slice())
}

/// A report ready to be stored.
#[derive(Debug)]
pub struct NewReport {
    pub user_id: String,
    pub user_pwd: String,
    pub latitude: Decimal,
    pub longitude: Decimal,
    /// Seconds since the Unix epoch.
    pub created_time: u64,
    pub lvl: i32,
    pub description: String,
    pub img_path: String,
}

/// The report to store for a valid form, made at `now`, whose image (if
/// any) was published at `img_path`: the password is kept only as the
/// decimal text of its digest.
pub fn new_report(form: &ReportForm, img_path: String, now: u64) -> (r: NewReport)
    ensures
        r.user_id@ == form.user_id@,
        r.user_pwd@ == decimal_text_spec(password_digest_spec(form.user_pwd@) as nat),
        r.latitude == form.latitude,
        r.longitude == form.longitude,
        r.created_time == now,
        r.lvl == form.lvl,
        r.description@ == form.description@,
        r.img_path@ == img_path@,
{
    NewReport {
        user_id: form.user_id.clone(),
        user_pwd: report_password_text(form.user_pwd.as_str()),
        latitude: form.latitude,
        longitude: form.longitude,
        created_time: now,
        lvl: form.lvl,
        description: form.description.clone(),
        img_path,
    }
}

/// Registers the report-map job; `first_run_ok` is the outcome of the run made
/// at start-up, which decides when the job first runs.
pub fn init_report_sys<J>(scheduler: &mut TaskSchedulerBuilder<J>, job: J, first_run_ok: bool, now: u64)
    requires
        now <= MAX_START_TIME,
    ensures
        registered_spec(
            old(scheduler).tasks_spec(),
            final(scheduler).tasks_spec(),
            job,
            now,
            next_delay_spec(Feed::ReportMap, first_run_ok),
        ),
{
    register_feed(scheduler, Feed::ReportMap, job, first_run_ok, now);
}

} // verus!
