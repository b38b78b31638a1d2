//! Shelters: their evaluation counters, the flags that say what still has
//! to be rendered and written back, the jobs that do so, and the form of
//! user-submitted shelters.
use vstd::prelude::*;
use crate::feed::{Feed, MAX_START_TIME, next_delay, next_delay_spec, register_feed, registered_spec};
use crate::scheduler::TaskSchedulerBuilder;
use crate::number::Decimal;
use crate::text::chars_of;

verus! {

/// A shelter as the service holds it. `cached` is false while its rendered
/// JSON is stale; `synced` is false while its counters differ from the
/// stored ones.
#[derive(Debug)]
pub struct Shelter {
    pub id: i32,
    pub name: String,
    pub latitude: Decimal,
    pub longitude: Decimal,
    pub info: String,
    pub recent_good: i32,
    pub recent_bad: i32,
    pub cached: bool,
    pub json_cache: String,
    pub synced: bool,
}

/// The shelter after an evaluation of sign `score`: a positive score counts
/// as good, a negative one as bad (each count stops at `i32::MAX`), and
/// either leaves the shelter to be rendered and written back; a zero score
/// changes nothing.
pub open spec fn eval_spec(s: Shelter, score: i32) -> Shelter {
    if score > 0 {
        Shelter {
            recent_good: if s.recent_good < i32::MAX { (s.recent_good + 1) as i32 } else { s.recent_good },
            cached: false,
            synced: false,
            ..s
        }
    } else if score < 0 {
        Shelter {
            recent_bad: if s.recent_bad < i32::MAX { (s.recent_bad + 1) as i32 } else { s.recent_bad },
            cached: false,
            synced: false,
            ..s
        }
    } else {
        s
    }
}

/// The shelter after the hourly write-back: written back, then each
/// non-zero count lowered by one, which leaves it to be rendered and
/// written back again.
pub open spec fn decay_spec(s: Shelter) -> Shelter {
    let g = if s.recent_good > 0 { (s.recent_good - 1) as i32 } else { s.recent_good };
    let b = if s.recent_bad > 0 { (s.recent_bad - 1) as i32 } else { s.recent_bad };
    let changed = s.recent_good > 0 || s.recent_bad > 0;
    Shelter {
        recent_good: g,
        recent_bad: b,
        cached: if changed { false } else { s.cached },
        synced: !changed,
        ..s
    }
}

impl Shelter {
    /// A shelter with no evaluations, in step with the store, not yet
    /// rendered.
    pub fn new(id: i32, name: String, latitude: Decimal, longitude: Decimal, info: String) -> (r: Self)
        ensures
            r.id == id && r.name@ == name@ && r.latitude == latitude && r.longitude == longitude
                && r.info@ == info@,
            r.recent_good == 0 && r.recent_bad == 0,
            !r.cached && r.synced,
    {
        Shelter {
            id,
            name,
            latitude,
            longitude,
            info,
            recent_good: 0,
            recent_bad: 0,
            cached: false,
            json_cache: String::new(),
            synced: true,
        }
    }

    /// Holds a fresh rendering.
    pub fn update_cache(&mut self, json: String)
        ensures
            *final(self) == (Shelter { cached: true, json_cache: json, ..*old(self) }),
    {
        self.json_cache = json;
        self.cached = true;
    }

    /// Marks the shelter to be rendered and written back.
    pub fn reserve_update(&mut self)
        ensures
            *final(self) == (Shelter { cached: false, synced: false, ..*old(self) }),
    {
        self.cached = false;
        self.synced = false;
    }

    /// Counts an evaluation (see [`eval_spec`]).
    pub fn evaluate(&mut self, score: i32)
        ensures
            *final(self) == eval_spec(*old(self), score),
    {
        if score > 0 {
            if self.recent_good < i32::MAX {
                self.recent_good = self.recent_good + 1;
            }
            self.reserve_update();
        } else if score < 0 {
            if self.recent_bad < i32::MAX {
                self.recent_bad = self.recent_bad + 1;
            }
            self.reserve_update();
        }
    }

    /// The hourly write-back and decay (see [`decay_spec`]).
    pub fn decay(&mut self)
        ensures
            *final(self) == decay_spec(*old(self)),
    {
        self.synced = true;
        if self.recent_good > 0 {
            self.recent_good = self.recent_good - 1;
            self.reserve_update();
        }
        if self.recent_bad > 0 {
            self.recent_bad = self.recent_bad - 1;
            self.reserve_update();
        }
    }
}

/// The index of the first shelter with the given id, or -1.
pub open spec fn shelter_index(s: Seq<Shelter>, id: i32) -> int
    decreases s.len(),
{
    if s.len() == 0 {
        -1
    } else if s[0].id == id {
        0
    } else {
        let r = shelter_index(s.drop_first(), id);
        if r < 0 {
            -1
        } else {
            r + 1
        }
    }
}

proof fn lemma_shelter_index(s: Seq<Shelter>, id: i32, i: int)
    requires
        0 <= i <= s.len(),
        forall|j: int| 0 <= j < i ==> s[j].id != id,
        i == s.len() || s[i].id == id,
    ensures
        shelter_index(s, id) == if i == s.len() {
            -1
        } else {
            i
        },
    decreases i,
{
    if i > 0 {
        lemma_shelter_index(s.drop_first(), id, i - 1);
    }
}

/// No two shelters share an id.
pub open spec fn shelter_ids_unique(s: Seq<Shelter>) -> bool {
    forall|i: int, j: int| 0 <= i < j < s.len() ==> #[trigger] s[i].id != #[trigger] s[j].id
}

proof fn lemma_shelter_index_none(s: Seq<Shelter>, id: i32)
    requires
        shelter_index(s, id) == -1,
    ensures
        forall|j: int| 0 <= j < s.len() ==> s[j].id != id,
    decreases s.len(),
{
    if s.len() > 0 {
        lemma_shelter_index_none(s.drop_first(), id);
        assert forall|j: int| 0 <= j < s.len() implies s[j].id != id by {
            if j > 0 {
                assert(s[j] == s.drop_first()[j - 1]);
            }
        }
    }
}

/// A write-back to perform: id, good count, bad count.
pub type ScoreUpdate = (i32, i32, i32);

/// The write-backs that the shelters owe: one for each shelter out of step
/// with the store, in order.
pub open spec fn pending_updates_spec(s: Seq<Shelter>) -> Seq<ScoreUpdate>
    decreases s.len(),
{
    if s.len() == 0 {
        Seq::empty()
    } else {
        let prev = pending_updates_spec(s.drop_last());
        if !s.last().synced {
            prev.push((s.last().id, s.last().recent_good, s.last().recent_bad))
        } else {
            prev
        }
    }
}

/// The ids of the shelters whose rendering is stale, in order.
pub open spec fn stale_ids_spec(s: Seq<Shelter>) -> Seq<i32>
    decreases s.len(),
{
    if s.len() == 0 {
        Seq::empty()
    } else {
        let prev = stale_ids_spec(s.drop_last());
        if !s.last().cached {
            prev.push(s.last().id)
        } else {
            prev
        }
    }
}

/// The shelters of the service, by id.
pub struct ShelterTable {
    shelters: Vec<Shelter>,
}

impl View for ShelterTable {
    type V = Seq<Shelter>;

    closed spec fn view(&self) -> Seq<Shelter> {
        self.shelters@
    }
}

impl ShelterTable {
    /// The table's invariant: ids are unique.
    pub open spec fn wf(&self) -> bool {
        shelter_ids_unique(self@)
    }

    /// No shelters.
    pub fn new() -> (r: Self)
        ensures
            r@ == Seq::<Shelter>::empty(),
            r.wf(),
    {
        ShelterTable { shelters: Vec::new() }
    }

    fn index_of(&self, id: i32) -> (r: Option<usize>)
        ensures
            match r {
                Some(i) => i < self@.len() && shelter_index(self@, id) == i && self@[i as int].id
                    == id,
                None => shelter_index(self@, id) == -1,
            },
    {
        let mut i: usize = 0;
        while i < self.shelters.len()
            invariant
                0 <= i <= self@.len(),
                forall|j: int| 0 <= j < i ==> self@[j].id != id,
            decreases self@.len() - i,
        {
            if self.shelters[i].id == id {
                proof {
                    lemma_shelter_index(self@, id, i as int);
                }
                return Some(i);
            }
            i = i + 1;
        }
        proof {
            lemma_shelter_index(self@, id, i as int);
        }
        None
    }

    /// Adds a shelter, replacing one of the same id.
    pub fn insert(&mut self, s: Shelter)
        requires
            old(self).wf(),
        ensures
            final(self).wf(),
            final(self)@ == if shelter_index(old(self)@, s.id) < 0 {
                old(self)@.push(s)
            } else {
                old(self)@.update(shelter_index(old(self)@, s.id), s)
            },
    {
        let ghost s0 = self@;
        match self.index_of(s.id) {
            Some(i) => {
                self.shelters.set(i, s);
                assert forall|a: int, b: int| 0 <= a < b < self@.len() implies #[trigger] self@[a].id
                    != #[trigger] self@[b].id by {
                    assert(s0[a].id != s0[b].id);
                }
            },
            None => {
                proof {
                    lemma_shelter_index_none(s0, s.id);
                }
                self.shelters.push(s);
                assert forall|a: int, b: int| 0 <= a < b < self@.len() implies #[trigger] self@[a].id
                    != #[trigger] self@[b].id by {
                    if b < s0.len() {
                        assert(s0[a].id != s0[b].id);
                    } else {
                        assert(s0[a].id != s.id);
                    }
                }
            },
        }
    }

    /// Removes the shelter with the given id; whether there was one.
    pub fn remove(&mut self, id: i32) -> (r: bool)
        requires
            old(self).wf(),
        ensures
            final(self).wf(),
            shelter_index(final(self)@, id) == -1,
            r == (shelter_index(old(self)@, id) >= 0),
            final(self)@ == if r {
                old(self)@.remove(shelter_index(old(self)@, id))
            } else {
                old(self)@
            },
    {
        let ghost s0 = self@;
        match self.index_of(id) {
            Some(i) => {
                self.shelters.remove(i);
                assert(self@ =~= s0.remove(i as int));
                assert forall|j: int| 0 <= j < self@.len() implies self@[j].id != id by {
                    if j < i {
                        assert(s0[j].id != s0[i as int].id);
                    } else {
                        assert(s0[j + 1].id != s0[i as int].id);
                    }
                }
                assert forall|a: int, b: int| 0 <= a < b < self@.len() implies #[trigger] self@[a].id
                    != #[trigger] self@[b].id by {
                    let a0 = if a < i { a } else { a + 1 };
                    let b0 = if b < i { b } else { b + 1 };
                    assert(s0[a0].id != s0[b0].id);
                }
                proof {
                    lemma_shelter_index(self@, id, self@.len() as int);
                }
                true
            },
            None => false,
        }
    }

    /// The rendered JSON of the shelter with the given id.
    pub fn get_json(&self, id: i32) -> (r: Option<String>)
        ensures
            match r {
                Some(j) => shelter_index(self@, id) >= 0 && j@ == self@[shelter_index(
                    self@,
                    id,
                )].json_cache@,
                None => shelter_index(self@, id) == -1,
            },
    {
        match self.index_of(id) {
            Some(i) => Some(self.shelters[i].json_cache.clone()),
            None => None,
        }
    }

    /// Counts an evaluation of the shelter with the given id and returns its
    /// counts (good, bad) afterwards; `None` where there is no such shelter.
    pub fn evaluate(&mut self, id: i32, score: i32) -> (r: Option<(i32, i32)>)
        requires
            old(self).wf(),
        ensures
            final(self).wf(),
            ({
                let i = shelter_index(old(self)@, id);
                if i < 0 {
                    r is None && final(self)@ == old(self)@
                } else {
                    let s = eval_spec(old(self)@[i], score);
                    r == Some((s.recent_good, s.recent_bad)) && final(self)@ == old(self)@.update(
                        i,
                        s,
                    )
                }
            }),
    {
        match self.index_of(id) {
            Some(i) => {
                let mut s = self.shelters.remove(i);
                s.evaluate(score);
                let r = (s.recent_good, s.recent_bad);
                self.shelters.insert(i, s);
                assert(self@ =~= old(self)@.update(i as int, eval_spec(old(self)@[i as int], score)));
                assert forall|a: int, b: int| 0 <= a < b < self@.len() implies #[trigger] self@[a].id
                    != #[trigger] self@[b].id by {
                    assert(old(self)@[a].id != old(self)@[b].id);
                }
                Some(r)
            },
            None => None,
        }
    }

    /// The write-backs owed (see [`pending_updates_spec`]).
    pub fn pending_updates(&self) -> (r: Vec<ScoreUpdate>)
        ensures
            r@ == pending_updates_spec(self@),
    {
        let mut out: Vec<ScoreUpdate> = Vec::new();
        let mut i: usize = 0;
        assert(self@.subrange(0, 0) =~= Seq::<Shelter>::empty());
        while i < self.shelters.len()
            invariant
                0 <= i <= self@.len(),
                out@ == pending_updates_spec(self@.subrange(0, i as int)),
            decreases self@.len() - i,
        {
            assert(self@.subrange(0, i + 1).drop_last() =~= self@.subrange(0, i as int));
            let s = &self.shelters[i];
            if !s.synced {
                out.push((s.id, s.recent_good, s.recent_bad));
            }
            i = i + 1;
        }
        assert(self@.subrange(0, self@.len() as int) =~= self@);
        out
    }

    /// Applies the hourly write-back and decay to every shelter.
    pub fn decay_all(&mut self)
        requires
            old(self).wf(),
        ensures
            final(self).wf(),
            final(self)@ == old(self)@.map_values(|s: Shelter| decay_spec(s)),
    {
        let ghost s0 = self@;
        let mut i: usize = 0;
        while i < self.shelters.len()
            invariant
                0 <= i <= s0.len(),
                self@.len() == s0.len(),
                forall|j: int| 0 <= j < i ==> self@[j] == decay_spec(s0[j]),
                forall|j: int| i <= j < s0.len() ==> self@[j] == s0[j],
            decreases s0.len() - i,
        {
            let mut s = self.shelters.remove(i);
            s.decay();
            self.shelters.insert(i, s);
            i = i + 1;
        }
        assert(self@ =~= s0.map_values(|s: Shelter| decay_spec(s)));
        assert forall|a: int, b: int| 0 <= a < b < self@.len() implies #[trigger] self@[a].id
            != #[trigger] self@[b].id by {
            assert(s0[a].id != s0[b].id);
        }
    }

    /// The ids of the shelters whose rendering is stale.
    pub fn stale_ids(&self) -> (r: Vec<i32>)
        ensures
            r@ == stale_ids_spec(self@),
    {
        let mut out: Vec<i32> = Vec::new();
        let mut i: usize = 0;
        assert(self@.subrange(0, 0) =~= Seq::<Shelter>::empty());
        while i < self.shelters.len()
            invariant
                0 <= i <= self@.len(),
                out@ == stale_ids_spec(self@.subrange(0, i as int)),
            decreases self@.len() - i,
        {
            assert(self@.subrange(0, i + 1).drop_last() =~= self@.subrange(0, i as int));
            if !self.shelters[i].cached {
                out.push(self.shelters[i].id);
            }
            i = i + 1;
        }
        assert(self@.subrange(0, self@.len() as int) =~= self@);
        out
    }

    /// Holds a fresh rendering for the shelter with the given id, if any.
    pub fn update_cache(&mut self, id: i32, json: String)
        requires
            old(self).wf(),
        ensures
            final(self).wf(),
            ({
                let i = shelter_index(old(self)@, id);
                if i < 0 {
                    final(self)@ == old(self)@
                } else {
                    final(self)@ == old(self)@.update(
                        i,
                        Shelter { cached: true, json_cache: json, ..old(self)@[i] },
                    )
                }
            }),
    {
        match self.index_of(id) {
            Some(i) => {
                let mut s = self.shelters.remove(i);
                s.update_cache(json);
                self.shelters.insert(i, s);
                assert(self@ =~= old(self)@.update(
                    i as int,
                    Shelter { cached: true, json_cache: json, ..old(self)@[i as int] },
                ));
                assert forall|a: int, b: int| 0 <= a < b < self@.len() implies #[trigger] self@[a].id
                    != #[trigger] self@[b].id by {
                    assert(old(self)@[a].id != old(self)@[b].id);
                }
            },
            None => {},
        }
    }

    /// The shelters, in order.
    pub fn shelters(&self) -> (r: &Vec<Shelter>)
        ensures
            r@ == self@,
    {
        &self.shelters
    }
}

/// Every shelter out of step with the store when the hourly job starts gets
/// its counts written back by that run: the job's write-backs hold, for each
/// such shelter, its id and its current counts.
pub proof fn lemma_unsynced_written_back(s: Seq<Shelter>, k: int)
    requires
        0 <= k < s.len(),
        !s[k].synced,
    ensures
        pending_updates_spec(s).contains((s[k].id, s[k].recent_good, s[k].recent_bad)),
    decreases s.len(),
{
    let p = s.drop_last();
    if k < s.len() - 1 {
        assert(p[k] == s[k]);
        lemma_unsynced_written_back(p, k);
        let prev = pending_updates_spec(p);
        let j = choose|j: int| 0 <= j < prev.len() && prev[j] == (s[k].id, s[k].recent_good, s[k].recent_bad);
        let cur = pending_updates_spec(s);
        if !s.last().synced {
            assert(cur[j] == prev[j]);
        }
    } else {
        let cur = pending_updates_spec(s);
        assert(cur.last() == (s[k].id, s[k].recent_good, s[k].recent_bad));
    }
}

/// Why a user's shelter is refused.
#[derive(Clone, Copy, Debug, PartialEq, Eq, Structural)]
pub enum UserShelterFormError {
    NameTooShort,
    NameTooLong,
    InfoTooLong,
}

impl UserShelterFormError {
    /// The message shown to the user.
    pub fn message(&self) -> String {
        match self {
            UserShelterFormError::NameTooShort => "Name must be at least 2 characters".to_owned(),
            UserShelterFormError::NameTooLong => "Name can not be longer than 10 characters".to_owned(),
            UserShelterFormError::InfoTooLong => "The maximum length of the information is 20".to_owned(),
        }
    }
}

/// A shelter that a user proposes.
#[derive(Debug)]
pub struct UserShelterForm {
    pub captcha: String,
    pub name: String,
    pub latitude: Decimal,
    pub longitude: Decimal,
    pub info: String,
    pub evidence: String,
}

impl UserShelterForm {
    /// The first rule the form breaks: a name of 2 to 10 characters, an
    /// information of at most 20.
    pub fn verify_error(&self) -> (r: Option<UserShelterFormError>)
        ensures
            r == if self.name@.len() < 2 {
                Some(UserShelterFormError::NameTooShort)
            } else if self.name@.len() > 10 {
                Some(UserShelterFormError::NameTooLong)
            } else if self.info@.len() > 20 {
                Some(UserShelterFormError::InfoTooLong)
            } else {
                None
            },
    {
        let name = chars_of(self.name.as_str());
        let info = chars_of(self.info.as_str());
        if name.len() < 2 {
            Some(UserShelterFormError::NameTooShort)
        } else if name.len() > 10 {
            Some(UserShelterFormError::NameTooLong)
        } else if info.len() > 20 {
            Some(UserShelterFormError::InfoTooLong)
        } else {
            None
        }
    }
}

/// A shelter that the administrator adds.
#[derive(Debug)]
pub struct ShelterForm {
    pub admin_id: String,
    pub admin_pwd: String,
    pub name: String,
    pub latitude: Decimal,
    pub longitude: Decimal,
    pub info: String,
}

/// Registers the two shelter jobs: rendering every five minutes and the
/// write-back every hour.
pub fn init_shelter_sys<J>(scheduler: &mut TaskSchedulerBuilder<J>, data_job: J, update_job: J, now: u64)
    requires
        now <= MAX_START_TIME,
    ensures
        final(scheduler).tasks_spec().len() == old(scheduler).tasks_spec().len() + 2,
        registered_spec(
            old(scheduler).tasks_spec(),
            final(scheduler).tasks_spec().drop_last(),
            data_job,
            now,
            next_delay_spec(Feed::ShelterData, true),
        ),
        registered_spec(
            final(scheduler).tasks_spec().drop_last(),
            final(scheduler).tasks_spec(),
            update_job,
            now,
            next_delay_spec(Feed::ShelterUpdate, true),
        ),
{
    register_feed(scheduler, Feed::ShelterData, data_job, true, now);
    register_feed(scheduler, Feed::ShelterUpdate, update_job, true, now);
}

/// The rendering job: the ids of the shelters to render again, and the
/// delay until the next run.
pub fn shelter_data_job(table: &ShelterTable) -> (r: (Vec<i32>, u64))
    ensures
        r.0@ == stale_ids_spec(table@),
        r.1 == next_delay_spec(Feed::ShelterData, true),
{
    (table.stale_ids(), next_delay(Feed::ShelterData, true))
}

/// The write-back job: the write-backs owed when it starts, after which
/// every shelter is written back and decays; and the delay until the next
/// run.
pub fn shelter_update_job(table: &mut ShelterTable) -> (r: (Vec<ScoreUpdate>, u64))
    requires
        old(table).wf(),
    ensures
        final(table).wf(),
        r.0@ == pending_updates_spec(old(table)@),
        final(table)@ == old(table)@.map_values(|s: Shelter| decay_spec(s)),
        r.1 == next_delay_spec(Feed::ShelterUpdate, true),
{
    let updates = table.pending_updates();
    table.decay_all();
    (updates, next_delay(Feed::ShelterUpdate, true))
}

/// An entry of the public shelter map: id, latitude, longitude, good and
/// bad counts.
pub type MapEntry = (i32, Decimal, Decimal, i32, i32);

pub open spec fn map_entry_spec(s: Shelter) -> MapEntry {
    (s.id, s.latitude, s.longitude, s.recent_good, s.recent_bad)
}

impl ShelterTable {
    /// The entries of the public shelter map: one per shelter, in order,
    /// with its current counts.
    pub fn map_entries(&self) -> (r: Vec<MapEntry>)
        ensures
            r@ == self@.map_values(|s: Shelter| map_entry_spec(s)),
    {
        let mut out: Vec<MapEntry> = Vec::new();
        let mut i: usize = 0;
        while i < self.shelters.len()
            invariant
                0 <= i <= self@.len(),
                out@ == self@.subrange(0, i as int).map_values(|s: Shelter| map_entry_spec(s)),
            decreases self@.len() - i,
        {
            let s = &self.shelters[i];
            out.push((s.id, s.latitude, s.longitude, s.recent_good, s.recent_bad));
            i = i + 1;
            assert(out@ =~= self@.subrange(0, i as int).map_values(|s: Shelter| map_entry_spec(s)));
        }
        assert(self@.subrange(0, self@.len() as int) =~= self@);
        out
    }
}

} // verus!
