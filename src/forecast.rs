//! The fire-danger forecast: the national level read from each district's
//! forecast page, and the retry budget shared by the fetches of one run.
use vstd::prelude::*;
use crate::feed::{Feed, MAX_START_TIME, next_delay_spec, register_feed, registered_spec};
use crate::scheduler::TaskSchedulerBuilder;
use crate::number::{Decimal, parse_decimal, parse_decimal_spec};
use crate::text::{
    chars_of, find_char_from, find_char_spec, find_from, find_spec, lemma_find_char_bounds,
    lemma_find_spec_bounds, rfind_before, rfind_spec, slice_of, strip_tags, strip_tags_spec,
};

verus! {

/// The landmark of the national row: `>전국<`.
pub open spec fn pat_nation() -> Seq<char> {
    seq!['>', '전', '국', '<']
}

pub open spec fn pat_table_close() -> Seq<char> {
    seq!['<', '/', 't', 'a', 'b', 'l', 'e']
}

pub open spec fn pat_td_open() -> Seq<char> {
    seq!['<', 't', 'd']
}

pub open spec fn pat_td_close() -> Seq<char> {
    seq!['<', '/', 't', 'd']
}

/// The text of the level cell: the last `<td` before the `</table` that
/// follows the national landmark, from its `>` to the next `</td`, tags
/// removed.
pub open spec fn level_text_spec(h: Seq<char>) -> Option<Seq<char>> {
    let a = find_spec(h, pat_nation(), 0);
    if a < 0 {
        None
    } else {
        let b = find_spec(h, pat_table_close(), a);
        if b < 0 {
            None
        } else {
            let c = rfind_spec(h, pat_td_open(), b);
            if c < 0 {
                None
            } else {
                let d = find_char_spec(h, '>', c);
                if d < 0 {
                    None
                } else {
                    let e = find_spec(h, pat_td_close(), d);
                    if e < d + 1 {
                        None
                    } else {
                        Some(strip_tags_spec(h.subrange(d + 1, e), false))
                    }
                }
            }
        }
    }
}

/// The national fire-danger level of a forecast page.
pub open spec fn forecast_level_spec(h: Seq<char>) -> Option<Decimal> {
    match level_text_spec(h) {
        Some(t) => parse_decimal_spec(t),
        None => None,
    }
}

/// Reads the national fire-danger level of a forecast page (see
/// [`level_text_spec`]).
pub fn parse_forecast_level(html: &str) -> (r: Option<Decimal>)
    ensures
        r == forecast_level_spec(html@),
{
    let h = chars_of(html);
    let nation: [char; 4] = ['>', '전', '국', '<'];
    let table_close: [char; 7] = ['<', '/', 't', 'a', 'b', 'l', 'e'];
    let td_open: [char; 3] = ['<', 't', 'd'];
    let td_close: [char; 4] = ['<', '/', 't', 'd'];
    assert(nation@ =~= pat_nation());
    assert(table_close@ =~= pat_table_close());
    assert(td_open@ =~= pat_td_open());
    assert(td_close@ =~= pat_td_close());
    let a = match find_from(h.as_slice(), &nation, 0) {
        Some(a) => a,
        None => return None,
    };
    let b = match find_from(h.as_slice(), &table_close, a) {
        Some(b) => b,
        None => return None,
    };
    proof {
        lemma_find_spec_bounds(h@, pat_table_close(), a as int);
    }
    let c = match rfind_before(h.as_slice(), &td_open, b) {
        Some(c) => c,
        None => return None,
    };
    let d = match find_char_from(h.as_slice(), '>', c) {
        Some(d) => d,
        None => return None,
    };
    let e = match find_from(h.as_slice(), &td_close, d) {
        Some(e) => e,
        None => return None,
    };
    if e < d + 1 {
        return None;
    }
    proof {
        lemma_find_spec_bounds(h@, pat_td_close(), d as int);
    }
    let raw = slice_of(h.as_slice(), d + 1, e);
    let text = strip_tags(raw.as_slice());
    parse_decimal(text.as_slice())
}

/// A district's forecast.
#[derive(Debug)]
pub struct Forecast {
    pub code: String,
    pub level: Decimal,
}

/// What the forecast run does after a fetch.
#[derive(Clone, Copy, Debug, PartialEq, Eq, Structural)]
pub enum ForecastStep {
    /// Fetch the page of the district at this position of the list.
    Fetch(usize),
    /// Every district has its level.
    Done,
    /// The retry budget ran out.
    Failed,
}

/// A forecast as the contracts see it: district code and level.
pub type ForecastView = (Seq<char>, Decimal);

/// One run over the district list: each district's page is fetched until
/// its level is read, and failures draw on a budget shared by the whole
/// run.
pub struct ForecastRun {
    codes: Vec<String>,
    next: usize,
    left: usize,
    forecasts: Vec<Forecast>,
}

impl ForecastRun {
    /// The district codes, in order.
    pub closed spec fn codes_spec(&self) -> Seq<Seq<char>> {
        self.codes@.map_values(|c: String| c@)
    }

    pub closed spec fn next_spec(&self) -> nat {
        self.next as nat
    }

    pub closed spec fn left_spec(&self) -> nat {
        self.left as nat
    }

    /// The forecasts read so far, in district order.
    pub closed spec fn forecasts_spec(&self) -> Seq<ForecastView> {
        self.forecasts@.map_values(|f: Forecast| (f.code@, f.level))
    }

    /// The districts before the current one have their forecasts, each
    /// under its own code.
    pub open spec fn wf(&self) -> bool {
        &&& self.next_spec() <= self.codes_spec().len()
        &&& self.forecasts_spec().len() == self.next_spec()
        &&& forall|i: int| 0 <= i < self.next_spec() ==> #[trigger] self.forecasts_spec()[i].0 == self.codes_spec()[i]
    }

    /// A run over the given districts with `retry_cnt` retries in all.
    pub fn new(codes: Vec<String>, retry_cnt: usize) -> (r: Self)
        ensures
            r.wf(),
            r.codes_spec() == codes@.map_values(|c: String| c@),
            r.next_spec() == 0,
            r.left_spec() == retry_cnt,
    {
        let r = ForecastRun { codes, next: 0, left: retry_cnt, forecasts: Vec::new() };
        assert(r.forecasts_spec() =~= Seq::<ForecastView>::empty());
        r
    }

    /// What to do first.
    pub fn first_step(&self) -> (r: ForecastStep)
        requires
            self.wf(),
        ensures
            r == if self.next_spec() < self.codes_spec().len() {
                ForecastStep::Fetch(self.next_spec() as usize)
            } else {
                ForecastStep::Done
            },
    {
        if self.next < self.codes.len() {
            ForecastStep::Fetch(self.next)
        } else {
            ForecastStep::Done
        }
    }

    /// The code of the district whose page is to be fetched.
    pub fn current_code(&self) -> (r: &String)
        requires
            self.wf(),
            self.next_spec() < self.codes_spec().len(),
        ensures
            r@ == self.codes_spec()[self.next_spec() as int],
    {
        &self.codes[self.next]
    }

    /// Takes the page fetched for the current district (`Err` where the
    /// fetch failed) and says what to do next: a page whose level reads
    /// records the district's forecast and moves on to the next district;
    /// any other outcome retries the same district while the budget lasts,
    /// and fails the run once it is spent.
    pub fn on_page(&mut self, page: Result<String, String>) -> (r: ForecastStep)
        requires
            old(self).wf(),
            old(self).next_spec() < old(self).codes_spec().len(),
        ensures
            final(self).wf(),
            final(self).codes_spec() == old(self).codes_spec(),
            ({
                let level = match page {
                    Ok(h) => forecast_level_spec(h@),
                    Err(_) => None,
                };
                match level {
                    Some(l) => {
                        &&& final(self).next_spec() == old(self).next_spec() + 1
                        &&& final(self).left_spec() == old(self).left_spec()
                        &&& final(self).forecasts_spec() == old(self).forecasts_spec().push(
                            (old(self).codes_spec()[old(self).next_spec() as int], l),
                        )
                        &&& r == if final(self).next_spec() < final(self).codes_spec().len() {
                            ForecastStep::Fetch(final(self).next_spec() as usize)
                        } else {
                            ForecastStep::Done
                        }
                    },
                    None => {
                        &&& final(self).next_spec() == old(self).next_spec()
                        &&& final(self).forecasts_spec() == old(self).forecasts_spec()
                        &&& if old(self).left_spec() > 0 {
                            final(self).left_spec() == old(self).left_spec() - 1 && r
                                == ForecastStep::Fetch(old(self).next_spec() as usize)
                        } else {
                            final(self).left_spec() == 0 && r == ForecastStep::Failed
                        }
                    },
                }
            }),
    {
        let level = match page {
            Ok(h) => parse_forecast_level(h.as_str()),
            Err(_) => None,
        };
        match level {
            Some(l) => {
                let n = self.codes.len();
                assert(self.next < n);
                let ghost before = self.forecasts_spec();
                let code = self.codes[self.next].clone();
                self.forecasts.push(Forecast { code, level: l });
                assert(self.forecasts_spec() =~= before.push((self.codes_spec()[self.next as int], l)));
                self.next = self.next + 1;
                if self.next < self.codes.len() {
                    ForecastStep::Fetch(self.next)
                } else {
                    ForecastStep::Done
                }
            },
            None => {
                if self.left > 0 {
                    self.left = self.left - 1;
                    ForecastStep::Fetch(self.next)
                } else {
                    ForecastStep::Failed
                }
            },
        }
    }

    /// The forecasts read, in district order.
    pub fn into_forecasts(self) -> (r: Vec<Forecast>)
        ensures
            r@.map_values(|f: Forecast| (f.code@, f.level)) == self.forecasts_spec(),
    {
        self.forecasts
    }
}

/// When a run is done, it holds one forecast for each district, in the
/// order of the list, each under its district's code.
pub proof fn lemma_done_run_has_every_district(run: ForecastRun)
    requires
        run.wf(),
        run.next_spec() == run.codes_spec().len(),
    ensures
        run.forecasts_spec().len() == run.codes_spec().len(),
        forall|i: int| 0 <= i < run.codes_spec().len() ==> #[trigger] run.forecasts_spec()[i].0 == run.codes_spec()[i],
{
}

/// Registers the fire-forecast job; `first_run_ok` is the outcome of the run made
/// at start-up, which decides when the job first runs.
pub fn init_fire_forecast_sys<J>(scheduler: &mut TaskSchedulerBuilder<J>, job: J, first_run_ok: bool, now: u64)
    requires
        now <= MAX_START_TIME,
    ensures
        registered_spec(
            old(scheduler).tasks_spec(),
            final(scheduler).tasks_spec(),
            job,
            now,
            next_delay_spec(Feed::Forecast, first_run_ok),
        ),
{
    register_feed(scheduler, Feed::Forecast, job, first_run_ok, now);
}

} // verus!
