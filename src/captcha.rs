//! Captcha answers kept on the server, keyed by a random id that the client
//! holds in a cookie. Issuing inserts an answer; verifying removes it,
//! whether or not the answer matched.
use vstd::prelude::*;
use crate::text::{chars_of, string_of};
use crate::util::{generate_rand_id, is_alphanumeric_ascii};

verus! {

/// The number of captcha channels; a channel beyond them counts as channel 0.
pub const CHANNEL_COUNT: usize = 5;

/// The size above which issuing drops expired answers.
pub const MAX_MAP_SIZE: usize = 512;

/// How long an answer stays valid, in seconds.
pub const VALID_CAPTCHA_DURATION: u64 = 300;

/// The length of a captcha id.
pub const CAPTCHA_ID_LEN: usize = 32;

pub open spec fn channel_spec(channel: usize) -> usize {
    if channel < CHANNEL_COUNT {
        channel
    } else {
        0
    }
}

/// The channel that `channel` stands for.
pub fn channel_index(channel: usize) -> (r: usize)
    ensures
        r == channel_spec(channel),
{
    if channel < CHANNEL_COUNT {
        channel
    } else {
        0
    }
}

/// The name of a channel's cookie: `captcha_` and the channel's digit.
pub open spec fn cookie_name_spec(channel: usize) -> Seq<char> {
    seq!['c', 'a', 'p', 't', 'c', 'h', 'a', '_', (('0' as u32) + channel_spec(channel) as u32) as char]
}

/// The name of the cookie that holds a channel's captcha id.
pub fn cookie_name(channel: usize) -> (r: String)
    ensures
        r@ == cookie_name_spec(channel),
{
    let c = channel_index(channel);
    let digit: char = if c == 0 {
        '0'
    } else if c == 1 {
        '1'
    } else if c == 2 {
        '2'
    } else if c == 3 {
        '3'
    } else {
        '4'
    };
    let name: [char; 9] = ['c', 'a', 'p', 't', 'c', 'h', 'a', '_', digit];
    let r = string_of(&name);
    assert(r@ =~= cookie_name_spec(channel));
    r
}

/// An answer issued at `created_time` (seconds) is valid at `now` when it is
/// at most [`VALID_CAPTCHA_DURATION`] seconds old.
pub open spec fn answer_valid_spec(created_time: u64, now: u64) -> bool {
    now <= created_time + VALID_CAPTCHA_DURATION
}

/// An issued answer and when it was issued.
pub struct CaptchaAnswer {
    answer: String,
    created_time: u64,
}

impl CaptchaAnswer {
    pub closed spec fn answer_spec(&self) -> Seq<char> {
        self.answer@
    }

    pub closed spec fn created_spec(&self) -> u64 {
        self.created_time
    }

    /// An answer issued at `now`.
    pub fn new(answer: String, now: u64) -> (r: Self)
        ensures
            r.answer_spec() == answer@,
            r.created_spec() == now,
    {
        CaptchaAnswer { answer, created_time: now }
    }

    /// Whether the answer is still valid at `now`.
    pub fn is_valid(&self, now: u64) -> (r: bool)
        ensures
            r == answer_valid_spec(self.created_spec(), now),
    {
        now <= self.created_time || now - self.created_time <= VALID_CAPTCHA_DURATION
    }
}

struct Entry {
    id: String,
    answer: CaptchaAnswer,
}

/// One stored answer: its id, its text and when it was issued.
pub type EntryView = (Seq<char>, Seq<char>, u64);

/// The entries that are still valid at `now`, in order.
pub open spec fn retain_valid_spec(s: Seq<EntryView>, now: u64) -> Seq<EntryView>
    decreases s.len(),
{
    if s.len() == 0 {
        Seq::empty()
    } else {
        let prev = retain_valid_spec(s.drop_last(), now);
        if answer_valid_spec(s.last().2, now) {
            prev.push(s.last())
        } else {
            prev
        }
    }
}

/// No two entries share an id.
pub open spec fn ids_unique(s: Seq<EntryView>) -> bool {
    forall|i: int, j: int| 0 <= i < j < s.len() ==> #[trigger] s[i].0 != #[trigger] s[j].0
}

/// The index of the entry with the given id, or -1.
pub open spec fn index_of_id(s: Seq<EntryView>, id: Seq<char>) -> int
    decreases s.len(),
{
    if s.len() == 0 {
        -1
    } else if s[0].0 == id {
        0
    } else {
        let r = index_of_id(s.drop_first(), id);
        if r < 0 {
            -1
        } else {
            r + 1
        }
    }
}

/// The entries after issuing `answer` under the new id `id` at `now`: the
/// entry is added last, and where that makes more than [`MAX_MAP_SIZE`]
/// entries, those no longer valid are dropped.
pub open spec fn issue_spec(s: Seq<EntryView>, id: Seq<char>, answer: Seq<char>, now: u64) -> Seq<
    EntryView,
> {
    let t = s.push((id, answer, now));
    if t.len() > MAX_MAP_SIZE {
        retain_valid_spec(t, now)
    } else {
        t
    }
}

proof fn lemma_index_of_id(s: Seq<EntryView>, id: Seq<char>, i: int)
    requires
        0 <= i <= s.len(),
        forall|j: int| 0 <= j < i ==> s[j].0 != id,
        i == s.len() || s[i].0 == id,
    ensures
        index_of_id(s, id) == if i == s.len() {
            -1
        } else {
            i
        },
    decreases i,
{
    if i > 0 {
        lemma_index_of_id(s.drop_first(), id, i - 1);
    }
}

proof fn lemma_index_of_id_found(s: Seq<EntryView>, id: Seq<char>, i: int)
    requires
        ids_unique(s),
        0 <= i < s.len(),
        s[i].0 == id,
    ensures
        index_of_id(s, id) == i,
{
    lemma_index_of_id(s, id, i);
}

proof fn lemma_retain_valid(s: Seq<EntryView>, now: u64)
    ensures
        retain_valid_spec(s, now).len() <= s.len(),
        forall|k: int|
            0 <= k < retain_valid_spec(s, now).len() ==> exists|j: int|
                0 <= j < s.len() && #[trigger] retain_valid_spec(s, now)[k] == s[j],
        ids_unique(s) ==> ids_unique(retain_valid_spec(s, now)),
    decreases s.len(),
{
    if s.len() > 0 {
        let p = s.drop_last();
        lemma_retain_valid(p, now);
        let prev = retain_valid_spec(p, now);
        let r = retain_valid_spec(s, now);
        assert forall|k: int| 0 <= k < r.len() implies exists|j: int|
            0 <= j < s.len() && #[trigger] r[k] == s[j] by {
            if k < prev.len() {
                let j = choose|j: int| 0 <= j < p.len() && #[trigger] prev[k] == p[j];
                assert(r[k] == s[j]);
            } else {
                assert(r[k] == s[s.len() - 1]);
            }
        }
        if ids_unique(s) {
            assert(ids_unique(p));
            assert forall|a: int, b: int| 0 <= a < b < r.len() implies #[trigger] r[a].0
                != #[trigger] r[b].0 by {
                if b < prev.len() {
                } else {
                    let j = choose|j: int| 0 <= j < p.len() && #[trigger] prev[a] == p[j];
                    assert(s[j] == p[j]);
                    assert(s[j].0 != s[s.len() - 1].0);
                }
            }
        }
    }
}

/// Captcha answers, keyed by id.
pub struct CaptchaStore {
    entries: Vec<Entry>,
}

impl View for CaptchaStore {
    type V = Seq<EntryView>;

    closed spec fn view(&self) -> Seq<EntryView> {
        self.entries@.map_values(|e: Entry| (e.id@, e.answer.answer@, e.answer.created_time))
    }
}

impl CaptchaStore {
    /// The store's invariant: ids are unique.
    pub open spec fn wf(&self) -> bool {
        ids_unique(self@)
    }

    /// An empty store.
    pub fn new() -> (r: Self)
        ensures
            r@ == Seq::<EntryView>::empty(),
            r.wf(),
    {
        let r = CaptchaStore { entries: Vec::new() };
        assert(r@ =~= Seq::<EntryView>::empty());
        r
    }

    /// The number of stored answers.
    pub fn len(&self) -> (r: usize)
        ensures
            r == self@.len(),
    {
        self.entries.len()
    }

    fn find(&self, id: &Vec<char>) -> (r: Option<usize>)
        ensures
            match r {
                Some(i) => i < self@.len() && self@[i as int].0 == id@ && index_of_id(self@, id@)
                    == i,
                None => index_of_id(self@, id@) == -1,
            },
    {
        let mut i: usize = 0;
        while i < self.entries.len()
            invariant
                0 <= i <= self@.len(),
                self@.len() == self.entries@.len(),
                forall|j: int| 0 <= j < i ==> self@[j].0 != id@,
            decreases self@.len() - i,
        {
            let cs = chars_of(self.entries[i].id.as_str());
            if crate::text::chars_eq(cs.as_slice(), id.as_slice()) {
                proof {
                    lemma_index_of_id(self@, id@, i as int);
                }
                return Some(i);
            }
            i = i + 1;
        }
        proof {
            lemma_index_of_id(self@, id@, i as int);
        }
        None
    }

    fn retain_valid(&mut self, now: u64)
        ensures
            final(self)@ == retain_valid_spec(old(self)@, now),
    {
        let ghost s = self@;
        let mut kept: Vec<Entry> = Vec::new();
        let mut i: usize = 0;
        assert(s.subrange(0, 0) =~= Seq::<EntryView>::empty());
        while i < self.entries.len()
            invariant
                s == self@,
                0 <= i <= s.len(),
                self@.len() == self.entries@.len(),
                kept@.map_values(|e: Entry| (e.id@, e.answer.answer@, e.answer.created_time))
                    == retain_valid_spec(s.subrange(0, i as int), now),
            decreases s.len() - i,
        {
            let e = &self.entries[i];
            assert(s.subrange(0, i + 1).drop_last() =~= s.subrange(0, i as int));
            if e.answer.is_valid(now) {
                let copy = Entry {
                    id: e.id.clone(),
                    answer: CaptchaAnswer {
                        answer: e.answer.answer.clone(),
                        created_time: e.answer.created_time,
                    },
                };
                let ghost before = kept@;
                kept.push(copy);
                assert(kept@.map_values(|e: Entry| (e.id@, e.answer.answer@, e.answer.created_time))
                    =~= before.map_values(|e: Entry| (e.id@, e.answer.answer@, e.answer.created_time)).push(s[i as int]));
            }
            i = i + 1;
        }
        assert(s.subrange(0, s.len() as int) =~= s);
        self.entries = kept;
    }

    /// Stores `answer` under `id`, issued at `now`, unless `id` is taken.
    /// Returns whether it was stored.
    pub fn insert(&mut self, id: String, answer: String, now: u64) -> (r: bool)
        requires
            old(self).wf(),
        ensures
            final(self).wf(),
            r == (index_of_id(old(self)@, id@) == -1),
            r ==> final(self)@ == issue_spec(old(self)@, id@, answer@, now),
            !r ==> final(self)@ == old(self)@,
    {
        let key = chars_of(id.as_str());
        match self.find(&key) {
            Some(_) => false,
            None => {
                proof {
                    assert forall|j: int| 0 <= j < self@.len() implies self@[j].0 != id@ by {
                        if self@[j].0 == id@ {
                            lemma_index_of_id_found(self@, id@, j);
                        }
                    }
                }
                let ghost old_view = self@;
                self.entries.push(Entry { id, answer: CaptchaAnswer::new(answer, now) });
                assert(self@ =~= old_view.push((key@, answer@, now)));
                if self.entries.len() > MAX_MAP_SIZE {
                    let ghost t = self@;
                    self.retain_valid(now);
                    proof {
                        lemma_retain_valid(t, now);
                    }
                }
                true
            },
        }
    }

    /// Issues `answer` at `now` under a fresh random id, and returns the id;
    /// `None` (and nothing stored) in the unlikely case that the drawn id is
    /// taken.
    pub fn issue(&mut self, answer: String, now: u64) -> (r: Option<String>)
        requires
            old(self).wf(),
        ensures
            final(self).wf(),
            match r {
                Some(id) => id@.len() == CAPTCHA_ID_LEN && (forall|i: int|
                    0 <= i < CAPTCHA_ID_LEN ==> is_alphanumeric_ascii(#[trigger] id@[i]))
                    && index_of_id(old(self)@, id@) == -1
                    && final(self)@ == issue_spec(old(self)@, id@, answer@, now),
                None => final(self)@ == old(self)@,
            },
    {
        let id = generate_rand_id(CAPTCHA_ID_LEN);
        let copy = id.clone();
        if self.insert(id, answer, now) {
            Some(copy)
        } else {
            None
        }
    }

    /// Checks `user_answer` against the answer stored under the id that the
    /// client sent (`None` where it sent none), and removes that answer
    /// whether or not it matched.
    pub fn verify_and_remove(&mut self, id: Option<String>, user_answer: &str) -> (r: bool)
        requires
            old(self).wf(),
        ensures
            final(self).wf(),
            match id {
                None => !r && final(self)@ == old(self)@,
                Some(k) => {
                    let i = index_of_id(old(self)@, k@);
                    if i < 0 {
                        !r && final(self)@ == old(self)@
                    } else {
                        r == (old(self)@[i].1 == user_answer@) && final(self)@ == old(
                            self,
                        )@.remove(i)
                    }
                },
            },
    {
        match id {
            None => false,
            Some(k) => {
                let key = chars_of(k.as_str());
                match self.find(&key) {
                    None => false,
                    Some(i) => {
                        let ghost old_view = self@;
                        let e = self.entries.remove(i);
                        assert(self@ =~= old_view.remove(i as int));
                        let ua = user_answer.to_owned();
                        e.answer.answer == ua
                    },
                }
            },
        }
    }
}

/// A freshly issued answer verifies once, and only once: right after it is
/// issued, verifying with its id finds that answer; after that verification
/// removed it, the id finds nothing.
pub proof fn lemma_issue_then_verify_once(
    s: Seq<EntryView>,
    id: Seq<char>,
    answer: Seq<char>,
    now: u64,
)
    requires
        ids_unique(s),
        index_of_id(s, id) == -1,
    ensures
        ({
            let t = issue_spec(s, id, answer, now);
            let i = index_of_id(t, id);
            &&& 0 <= i < t.len()
            &&& t[i].1 == answer
            &&& index_of_id(t.remove(i), id) == -1
        }),
{
    assert forall|j: int| 0 <= j < s.len() implies s[j].0 != id by {
        if s[j].0 == id {
            lemma_index_of_id_found(s, id, j);
        }
    }
    let t0 = s.push((id, answer, now));
    assert(ids_unique(t0));
    let t = issue_spec(s, id, answer, now);
    if t0.len() > MAX_MAP_SIZE {
        lemma_retain_valid(t0, now);
        assert(t0.drop_last() =~= s);
        lemma_retain_valid(s, now);
    }
    assert(t.last() == (id, answer, now));
    assert(ids_unique(t));
    lemma_index_of_id_found(t, id, t.len() - 1);
    let i = t.len() - 1;
    let u = t.remove(i);
    assert forall|j: int| 0 <= j < u.len() implies u[j].0 != id by {
        assert(u[j] == t[j]);
    }
    lemma_index_of_id(u, id, u.len() as int);
}

/// Relies on `captcha::gen(Difficulty::Medium)` and `Captcha::as_tuple`: a
/// random captcha's answer and its PNG image, or `None` where the image
/// could not be encoded.
#[verifier::external_body]
fn generate_captcha() -> (r: Option<(String, Vec<u8>)>) {
    captcha::gen(captcha::Difficulty::Medium).as_tuple()
}

/// A new captcha for a channel at `now`: its answer is stored under a fresh
/// id, and the channel's cookie name, the id and the PNG image are
/// returned. `None` where the image could not be made or the drawn id was
/// taken; nothing is stored then.
pub fn get_captcha(store: &mut CaptchaStore, channel: usize, now: u64) -> (r: Option<(String, String, Vec<u8>)>)
    requires
        old(store).wf(),
    ensures
        final(store).wf(),
        match r {
            Some((cookie, id, _)) => {
                &&& cookie@ == cookie_name_spec(channel)
                &&& id@.len() == CAPTCHA_ID_LEN
                &&& forall|i: int| 0 <= i < CAPTCHA_ID_LEN ==> is_alphanumeric_ascii(#[trigger] id@[i])
                &&& index_of_id(old(store)@, id@) == -1
                &&& exists|answer: Seq<char>| final(store)@ == issue_spec(old(store)@, id@, answer, now)
            },
            None => final(store)@ == old(store)@,
        },
{
    match generate_captcha() {
        None => None,
        Some((answer, png)) => {
            match store.issue(answer, now) {
                Some(id) => Some((cookie_name(channel), id, png)),
                None => None,
            }
        },
    }
}

/// Verifies a user's answer against the captcha whose id the channel's
/// cookie held (`None` where the request had no such cookie), removing the
/// stored answer either way (see [`CaptchaStore::verify_and_remove`]).
pub fn verify_and_remove_captcha(store: &mut CaptchaStore, cookie_id: Option<String>, user_answer: &str) -> (r: bool)
    requires
        old(store).wf(),
    ensures
        final(store).wf(),
        match cookie_id {
            None => !r && final(store)@ == old(store)@,
            Some(k) => {
                let i = index_of_id(old(store)@, k@);
                if i < 0 {
                    !r && final(store)@ == old(store)@
                } else {
                    r == (old(store)@[i].1 == user_answer@) && final(store)@ == old(store)@.remove(i)
                }
            },
        },
{
    store.verify_and_remove(cookie_id, user_answer)
}

} // verus!
