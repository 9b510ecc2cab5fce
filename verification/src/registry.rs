//! The registry: an immutable mapping from day number to that day's
//! execution wrapper, built once from a registration list. Lookup dispatches
//! a run; enumeration lists the registered days in ascending order.

use vstd::prelude::*;
use crate::num::dec_str_nat;
use crate::num::u64_dec_string;
use crate::solution::Solution;
use crate::solution::OutputEvent;
use crate::solution::RunError;
use crate::solution::RunErrorModel;
use crate::solution::run_error_model;
use crate::solution::run_post;
use crate::day1;

verus! {

/// The execution wrapper of one registered day: a uniform way to run its
/// strongly typed implementation on raw input bytes.
#[derive(Clone, Copy)]
pub enum DayImpl {
    /// Day 1, [`day1::Day`].
    Day1,
}

/// What running wrapper `d` on `input` returns.
pub open spec fn dispatch_post(
    d: DayImpl,
    input: Seq<u8>,
    timing: bool,
    r: Result<Vec<OutputEvent>, RunError>,
) -> bool {
    match d {
        DayImpl::Day1 => run_post::<day1::Day>(input, timing, r),
    }
}

/// Runs wrapper `d` on `input`.
fn dispatch(d: DayImpl, input: &Vec<u8>, timing: bool) -> (r: Result<Vec<OutputEvent>, RunError>)
    ensures
        dispatch_post(d, input@, timing, r),
{
    match d {
        DayImpl::Day1 => day1::Day::run(input, timing),
    }
}

/// The mapping a registration list builds: later entries with the same day
/// number replace earlier ones.
pub open spec fn table(s: Seq<(u32, DayImpl)>) -> Map<u32, DayImpl>
    decreases s.len(),
{
    if s.len() == 0 {
        Map::empty()
    } else {
        table(s.drop_last()).insert(s.last().0, s.last().1)
    }
}

/// The day-number-to-wrapper mapping, immutable once built.
pub struct Registry {
    entries: Vec<(u32, DayImpl)>,
}

impl View for Registry {
    type V = Map<u32, DayImpl>;

    closed spec fn view(&self) -> Map<u32, DayImpl> {
        table(self.entries@)
    }
}

/// What [`Registry::run_day`] returns: the day's run when it is registered,
/// a lookup failure otherwise.
pub open spec fn run_day_post(
    m: Map<u32, DayImpl>,
    day: u32,
    input: Seq<u8>,
    timing: bool,
    r: Result<Vec<OutputEvent>, RunError>,
) -> bool {
    if m.contains_key(day) {
        dispatch_post(m[day], input, timing, r)
    } else {
        r is Err && run_error_model(r->Err_0) == RunErrorModel::Lookup(day)
    }
}

impl Registry {
    /// Builds the registry from a registration list; a later entry with the
    /// same day number replaces an earlier one.
    pub fn new(solutions: Vec<(u32, DayImpl)>) -> (r: Registry)
        ensures
            r@ == table(solutions@),
    {
        Registry { entries: solutions }
    }

    /// Runs the registered day `day` on `input`, or fails with a lookup
    /// error when no such day is registered. Nothing of the day runs in
    /// that case.
    pub fn run_day(&self, day: u32, input: &Vec<u8>, timing: bool) -> (r: Result<
        Vec<OutputEvent>,
        RunError,
    >)
        ensures
            run_day_post(self@, day, input@, timing, r),
    {
        let ghost s = self.entries@;
        let n = self.entries.len();
        let mut i = n;
        proof {
            assert(s.take(n as int) =~= s);
        }
        while i > 0
            invariant
                0 <= i <= n,
                n == s.len(),
                s == self.entries@,
                table(s).contains_key(day) ==> table(s.take(i as int)).contains_key(day),
                table(s.take(i as int)).contains_key(day) ==> table(s).contains_key(day) && table(
                    s,
                )[day] == table(s.take(i as int))[day],
            decreases i,
        {
            let idx = i - 1;
            let e = self.entries[idx];
            proof {
                assert(s.take(idx + 1).drop_last() =~= s.take(idx as int));
                assert(s.take(idx + 1).last() == s[idx as int]);
            }
            if e.0 == day {
                proof {
                    assert(table(s.take(idx + 1)).contains_key(day));
                    assert(table(s.take(idx + 1))[day] == e.1);
                }
                return dispatch(e.1, input, timing);
            }
            i = idx;
        }
        proof {
            assert(s.take(0) =~= Seq::<(u32, DayImpl)>::empty());
            assert(!table(s.take(0)).contains_key(day));
            assert(!table(s).contains_key(day));
        }
        Result::Err(RunError::Lookup(day))
    }

    /// The registered day numbers, ascending, without duplicates.
    pub fn available_days(&self) -> (r: Vec<u32>)
        ensures
            forall|i: int, j: int| 0 <= i < j < r@.len() ==> r@[i] < r@[j],
            forall|d: u32| r@.contains(d) <==> self@.contains_key(d),
    {
        let ghost s = self.entries@;
        let n = self.entries.len();
        let mut days: Vec<u32> = Vec::new();
        let mut i: usize = 0;
        proof {
            assert(s.take(0) =~= Seq::<(u32, DayImpl)>::empty());
        }
        while i < n
            invariant
                0 <= i <= n,
                n == s.len(),
                s == self.entries@,
                forall|p: int, q: int| 0 <= p < q < days@.len() ==> days@[p] < days@[q],
                forall|d: u32| days@.contains(d) <==> table(s.take(i as int)).contains_key(d),
            decreases n - i,
        {
            let k = self.entries[i].0;
            let mut j: usize = 0;
            while j < days.len() && days[j] < k
                invariant
                    0 <= j <= days@.len(),
                    forall|t: int| 0 <= t < j ==> days@[t] < k,
                decreases days@.len() - j,
            {
                j += 1;
            }
            let ghost prev = days@;
            let present = j < days.len() && days[j] == k;
            if !present {
                days.insert(j, k);
            }
            proof {
                assert(s.take(i + 1).drop_last() =~= s.take(i as int));
                assert(s.take(i + 1).last() == s[i as int]);
                assert(table(s.take(i + 1)) == table(s.take(i as int)).insert(k, s[i as int].1));
                if present {
                    assert(days@.contains(k)) by {
                        assert(days@[j as int] == k);
                    }
                } else {
                    prev.insert_ensures(j as int, k);
                    // still strictly ascending around position j
                    assert forall|p: int, q: int| 0 <= p < q < days@.len() implies days@[p]
                        < days@[q] by {
                        if q < j {
                            assert(days@[p] == prev[p] && days@[q] == prev[q]);
                        } else if p > j {
                            assert(days@[p] == prev[p - 1] && days@[q] == prev[q - 1]);
                        } else if p < j && q == j {
                            assert(days@[p] == prev[p] && days@[q] == k);
                        } else if p == j && q > j {
                            assert(days@[p] == k && days@[q] == prev[q - 1]);
                            assert(prev[j as int] > k || j as int == prev.len());
                        } else if p < j && q > j {
                            assert(days@[p] == prev[p] && days@[q] == prev[q - 1]);
                            assert(prev[q - 1] >= k || prev[q - 1] > k);
                            assert(prev[p] < k);
                        }
                    }
                    // contents gained exactly `k`
                    assert forall|d: u32| days@.contains(d) <==> (prev.contains(d) || d == k) by {
                        if days@.contains(d) {
                            let ix = choose|ix: int| 0 <= ix < days@.len() && days@[ix] == d;
                            if ix < j {
                                assert(prev[ix] == d);
                            } else if ix > j {
                                assert(prev[ix - 1] == d);
                            }
                        }
                        if prev.contains(d) {
                            let ix = choose|ix: int| 0 <= ix < prev.len() && prev[ix] == d;
                            if ix < j {
                                assert(days@[ix] == d);
                            } else {
                                assert(days@[ix + 1] == d);
                            }
                        }
                        if d == k {
                            assert(days@[j as int] == d);
                        }
                    }
                }
                assert forall|d: u32| days@.contains(d) <==> table(s.take(i + 1)).contains_key(
                    d,
                ) by {
                    let m0 = table(s.take(i as int));
                    let m1 = table(s.take(i + 1));
                    assert(m1 == m0.insert(k, s[i as int].1));
                    assert(m1.contains_key(d) <==> (d == k || m0.contains_key(d)));
                    assert(prev.contains(d) <==> m0.contains_key(d));
                    if present {
                        assert(days@ == prev);
                        if d == k {
                            assert(days@.contains(k));
                        }
                    } else {
                        assert(days@.contains(d) <==> (prev.contains(d) || d == k));
                    }
                }
            }
            i += 1;
        }
        proof {
            assert(s.take(n as int) =~= s);
        }
        days
    }

    /// One step of running every registered day: maps a failed input fetch
    /// to a resource error and otherwise runs the day on the fetched bytes.
    /// The caller drives the days in the order [`Registry::available_days`]
    /// gives and stops at the first failure.
    pub fn run_all_step(&self, day: u32, fetched: Result<Vec<u8>, String>, timing: bool) -> (r:
        Result<Vec<OutputEvent>, RunError>)
        ensures
            match fetched {
                Result::Ok(b) => run_day_post(self@, day, input_view(b), timing, r),
                Result::Err(m) => r is Err && run_error_model(r->Err_0) == RunErrorModel::Resource(
                    m@,
                ),
            },
    {
        match fetched {
            Result::Ok(b) => self.run_day(day, &b, timing),
            Result::Err(m) => Result::Err(RunError::Resource(m)),
        }
    }
}

/// The view of fetched input bytes.
pub open spec fn input_view(b: Vec<u8>) -> Seq<u8> {
    b@
}

/// The conventional input path of a day: `inputs/day<N>.txt`.
pub open spec fn day_input_path(day: u32) -> Seq<char> {
    "inputs/day"@ + dec_str_nat(day as nat) + ".txt"@
}

/// Builds the conventional input path of `day`.
pub fn input_path_for(day: u32) -> (r: String)
    ensures
        r@ == day_input_path(day),
{
    let mut s = String::from_str("inputs/day");
    let digits = u64_dec_string(day as u64);
    s.append(digits.as_str());
    s.append(".txt");
    s
}

} // verus!
