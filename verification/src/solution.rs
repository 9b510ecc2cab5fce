//! The uniform contract every day's implementation satisfies, and the
//! orchestration that runs one: parse the input, compute each part that is
//! implemented, and report results and optional timing as a sequence of
//! output events for the caller to display.

use vstd::prelude::*;

verus! {

/// A failure while reading a day's input text.
#[derive(Debug)]
pub enum ParseError {
    /// A line does not have the shape the day expects; holds the line.
    InvalidLineFormat(Vec<u8>),
    /// A token could not be read as a number; holds the token.
    InvalidNumber(Vec<u8>),
}

/// The mathematical shape of a [`ParseError`].
pub enum ParseErrorModel {
    InvalidLineFormat(Seq<u8>),
    InvalidNumber(Seq<u8>),
}

/// The model of `e`.
pub open spec fn parse_error_model(e: ParseError) -> ParseErrorModel {
    match e {
        ParseError::InvalidLineFormat(l) => ParseErrorModel::InvalidLineFormat(l@),
        ParseError::InvalidNumber(t) => ParseErrorModel::InvalidNumber(t@),
    }
}

/// Why a run could not complete.
#[derive(Debug)]
pub enum RunError {
    /// The input text did not parse.
    Parse(ParseError),
    /// The requested day has no registered implementation.
    Lookup(u32),
    /// The input source could not be opened or read; holds a description.
    Resource(String),
}

/// The mathematical shape of a [`RunError`].
pub enum RunErrorModel {
    Parse(ParseErrorModel),
    Lookup(u32),
    Resource(Seq<char>),
}

/// The model of `e`.
pub open spec fn run_error_model(e: RunError) -> RunErrorModel {
    match e {
        RunError::Parse(p) => RunErrorModel::Parse(parse_error_model(p)),
        RunError::Lookup(d) => RunErrorModel::Lookup(d),
        RunError::Resource(m) => RunErrorModel::Resource(m@),
    }
}

/// The description [`RunError::describe`] renders.
pub open spec fn describe_spec(m: RunErrorModel) -> Seq<char> {
    match m {
        RunErrorModel::Parse(ParseErrorModel::InvalidLineFormat(_)) => "Invalid line format"@,
        RunErrorModel::Parse(ParseErrorModel::InvalidNumber(_)) => "Invalid number"@,
        RunErrorModel::Lookup(d) => "Day "@ + crate::num::dec_str_nat(d as nat)
            + " not implemented"@,
        RunErrorModel::Resource(s) => s,
    }
}

impl RunError {
    /// A short human-readable description of the failure; a lookup failure
    /// states the day number.
    pub fn describe(&self) -> (r: String)
        ensures
            r@ == describe_spec(run_error_model(*self)),
    {
        match self {
            RunError::Parse(ParseError::InvalidLineFormat(_)) => String::from_str(
                "Invalid line format",
            ),
            RunError::Parse(ParseError::InvalidNumber(_)) => String::from_str("Invalid number"),
            RunError::Lookup(d) => {
                let mut s = String::from_str("Day ");
                let digits = crate::num::u64_dec_string(*d as u64);
                s.append(digits.as_str());
                s.append(" not implemented");
                s
            },
            RunError::Resource(m) => String::from_str(m.as_str()),
        }
    }
}

/// One line of a run's report, in the order produced. Rendering (colors,
/// units) is left to the caller.
#[derive(Debug)]
pub enum OutputEvent {

    /// The first part's rendered answer.
    Part1(String),
    /// The second part's rendered answer.
    Part2(String),
    /// How long parsing took, in nanoseconds.
    ParseTime(u64),
    /// How long the first part took, in nanoseconds.
    Part1Time(u64),
    /// How long the second part took, in nanoseconds.
    Part2Time(u64),
}

/// The mathematical shape of an [`OutputEvent`].
pub enum EventModel {
    Part1(Seq<char>),
    Part2(Seq<char>),
    ParseTime(u64),
    Part1Time(u64),
    Part2Time(u64),
}

/// The model of `e`.
pub open spec fn event_model(e: OutputEvent) -> EventModel {
    match e {
        OutputEvent::Part1(s) => EventModel::Part1(s@),
        OutputEvent::Part2(s) => EventModel::Part2(s@),
        OutputEvent::ParseTime(t) => EventModel::ParseTime(t),
        OutputEvent::Part1Time(t) => EventModel::Part1Time(t),
        OutputEvent::Part2Time(t) => EventModel::Part2Time(t),
    }
}

/// The models of a run's events, in order.
pub open spec fn events_model(ev: Seq<OutputEvent>) -> Seq<EventModel> {
    ev.map_values(|e: OutputEvent| event_model(e))
}

/// The events one part contributes: nothing when the part is unimplemented,
/// its answer line, and, when timing is on, its duration line.
pub open spec fn part_models(first: bool, p: Option<Seq<char>>, timing: bool, t: u64) -> Seq<
    EventModel,
> {
    match p {
        Option::None => seq![],
        Option::Some(s) => {
            let line = if first {
                EventModel::Part1(s)
            } else {
                EventModel::Part2(s)
            };
            let tline = if first {
                EventModel::Part1Time(t)
            } else {
                EventModel::Part2Time(t)
            };
            if timing {
                seq![line, tline]
            } else {
                seq![line]
            }
        },
    }
}

/// The full report of a successful run: the parse duration when timing is
/// on, then each implemented part's answer followed by its duration.
pub open spec fn expected_models(
    p1: Option<Seq<char>>,
    p2: Option<Seq<char>>,
    timing: bool,
    t0: u64,
    t1: u64,
    t2: u64,
) -> Seq<EventModel> {
    (if timing {
        seq![EventModel::ParseTime(t0)]
    } else {
        seq![]
    }) + part_models(true, p1, timing, t1) + part_models(false, p2, timing, t2)
}

#[verifier::external_type_specification]
#[verifier::external_body]
pub struct ExInstant(std::time::Instant);

/// Relies on std::time::Instant::now: a reading of the monotonic clock.
/// Nothing can be promised of its value.
#[verifier::external_body]
fn instant_now() -> std::time::Instant {
    std::time::Instant::now()
}

/// Relies on std::time::Instant::elapsed and Duration::as_nanos: the
/// nanoseconds since `start`, truncated to 64 bits. Nothing can be promised
/// of its value.
#[verifier::external_body]
fn elapsed_nanos(start: &std::time::Instant) -> u64 {
    start.elapsed().as_nanos() as u64
}

/// The rendering of an optional answer.
pub open spec fn render_opt<S: Solution>(p: Option<S::Output>) -> Option<Seq<char>> {
    match p {
        Option::None => Option::None,
        Option::Some(o) => Option::Some(S::render_spec(o)),
    }
}

/// Whether `ev` reports answers `p1` and `p2`: the event sequence has
/// exactly the expected shape for some measured durations.
pub open spec fn report_matches(
    ev: Seq<OutputEvent>,
    p1: Option<Seq<char>>,
    p2: Option<Seq<char>>,
    timing: bool,
) -> bool {
    exists|t0: u64, t1: u64, t2: u64|
        events_model(ev) == expected_models(p1, p2, timing, t0, t1, t2)
}

/// The uniform lifecycle of one day's puzzle: parse the input into the
/// day's own representation, then compute up to two independent answers
/// over it. Each implementation also supplies the specification-level
/// description of its own behaviour, so that every method's contract is
/// exact.
pub trait Solution: Sized {
    /// The day's parsed input representation.
    type Input;

    /// The day's answer type.
    type Output;

    /// Whether `input` is well-formed for this day.
    spec fn parse_ok(input: Seq<u8>) -> bool;

    /// The error reported for ill-formed `input`.
    spec fn parse_err_of(input: Seq<u8>) -> ParseErrorModel;

    /// Whether `v` is a correct parse of well-formed `input`.
    spec fn good_parse(input: Seq<u8>, v: Self::Input) -> bool;

    /// The first part's answer over a parsed input, or `None` when the part
    /// is not implemented for it.
    spec fn part1_spec(v: Self::Input) -> Option<Self::Output>;

    /// The second part's answer, independent of the first.
    spec fn part2_spec(v: Self::Input) -> Option<Self::Output>;

    /// The rendering of an answer as text.
    spec fn render_spec(o: Self::Output) -> Seq<char>;

    /// Reads the raw input text into the day's representation, failing
    /// exactly on ill-formed input, with the error [`Self::parse_err_of`]
    /// describes.
    fn parse(input: &Vec<u8>) -> (r: Result<Self::Input, ParseError>)
        ensures
            match r {
                Result::Ok(v) => Self::parse_ok(input@) && Self::good_parse(input@, v),
                Result::Err(e) => !Self::parse_ok(input@) && parse_error_model(e)
                    == Self::parse_err_of(input@),
            },
    ;

    /// Computes the first part's answer.
    fn part1(v: &Self::Input) -> (r: Option<Self::Output>)
        ensures
            r == Self::part1_spec(*v),
    ;

    /// Computes the second part's answer.
    fn part2(v: &Self::Input) -> (r: Option<Self::Output>)
        ensures
            r == Self::part2_spec(*v),
    ;

    /// Renders an answer as text.
    fn render(o: &Self::Output) -> (r: String)
        ensures
            r@ == Self::render_spec(*o),
    ;

    /// Runs this day on `input`: parse, then each implemented part, timing
    /// every step when `timing` is on. Returns the report as ordered output
    /// events; parse failures propagate as the run's error.
    fn run(input: &Vec<u8>, timing: bool) -> (r: Result<Vec<OutputEvent>, RunError>)
        ensures
            Self::parse_ok(input@) ==> r is Ok && exists|v: Self::Input|
                #[trigger] Self::good_parse(input@, v) && report_matches(
                    r->Ok_0@,
                    match Self::part1_spec(v) {
                        Option::None => Option::None,
                        Option::Some(o) => Option::Some(Self::render_spec(o)),
                    },
                    match Self::part2_spec(v) {
                        Option::None => Option::None,
                        Option::Some(o) => Option::Some(Self::render_spec(o)),
                    },
                    timing,
                ),
            !Self::parse_ok(input@) ==> r is Err && run_error_model(r->Err_0)
                == RunErrorModel::Parse(Self::parse_err_of(input@)),
    {
        let start = instant_now();
        let parsed = match Self::parse(input) {
            Result::Ok(v) => v,
            Result::Err(e) => {
                return Result::Err(RunError::Parse(e));
            },
        };
        let parse_nanos = elapsed_nanos(&start);
        let mut events: Vec<OutputEvent> = Vec::new();
        if timing {
            events.push(OutputEvent::ParseTime(parse_nanos));
        }
        let t1 = instant_now();
        let p1 = Self::part1(&parsed);
        let n1 = elapsed_nanos(&t1);
        match p1 {
            Option::Some(out) => {
                events.push(OutputEvent::Part1(Self::render(&out)));
                if timing {
                    events.push(OutputEvent::Part1Time(n1));
                }
            },
            Option::None => {},
        }
        let t2 = instant_now();
        let p2 = Self::part2(&parsed);
        let n2 = elapsed_nanos(&t2);
        match p2 {
            Option::Some(out) => {
                events.push(OutputEvent::Part2(Self::render(&out)));
                if timing {
                    events.push(OutputEvent::Part2Time(n2));
                }
            },
            Option::None => {},
        }
        proof {
            let gv = parsed;
            let p1m = match Self::part1_spec(gv) {
                Option::None => Option::None,
                Option::Some(o) => Option::Some(Self::render_spec(o)),
            };
            let p2m = match Self::part2_spec(gv) {
                Option::None => Option::None,
                Option::Some(o) => Option::Some(Self::render_spec(o)),
            };
            assert(events_model(events@) =~= expected_models(
                p1m,
                p2m,
                timing,
                parse_nanos,
                n1,
                n2,
            ));
            assert(report_matches(events@, p1m, p2m, timing));
            assert(Self::good_parse(input@, gv));
        }
        Result::Ok(events)
    }
}

/// What running day `S` on `input` returns: the parse error when the input
/// does not parse, otherwise a report of some parsed value of the input.
/// This restates the contract of [`Solution::run`] as one predicate.
pub open spec fn run_post<S: Solution>(
    input: Seq<u8>,
    timing: bool,
    r: Result<Vec<OutputEvent>, RunError>,
) -> bool {
    if S::parse_ok(input) {
        &&& r is Ok
        &&& exists|v: S::Input|
            #[trigger] S::good_parse(input, v) && report_matches(
                r->Ok_0@,
                render_opt::<S>(S::part1_spec(v)),
                render_opt::<S>(S::part2_spec(v)),
                timing,
            )
    } else {
        &&& r is Err
        &&& run_error_model(r->Err_0) == RunErrorModel::Parse(S::parse_err_of(input))
    }
}

/// An unimplemented part is silent and is no failure: a report of a run
/// whose first part has no answer holds no first-part events, and likewise
/// for the second part.
pub proof fn lemma_silent_part(
    ev: Seq<OutputEvent>,
    p1: Option<Seq<char>>,
    p2: Option<Seq<char>>,
    timing: bool,
)
    requires
        report_matches(ev, p1, p2, timing),
    ensures
        p1 is None ==> forall|i: int|
            0 <= i < ev.len() ==> !(#[trigger] event_model(ev[i]) is Part1) && !(event_model(
                ev[i],
            ) is Part1Time),
        p2 is None ==> forall|i: int|
            0 <= i < ev.len() ==> !(#[trigger] event_model(ev[i]) is Part2) && !(event_model(
                ev[i],
            ) is Part2Time),
{
    let (t0, t1, t2) = choose|t0: u64, t1: u64, t2: u64|
        events_model(ev) == expected_models(p1, p2, timing, t0, t1, t2);
    let em = events_model(ev);
    let pref = if timing {
        seq![EventModel::ParseTime(t0)]
    } else {
        seq![]
    };
    let b1 = part_models(true, p1, timing, t1);
    let b2 = part_models(false, p2, timing, t2);
    assert(em == pref + b1 + b2);
    assert forall|i: int| 0 <= i < ev.len() implies em[i] == event_model(ev[i]) by {}
    if p1 is None {
        assert forall|i: int| 0 <= i < ev.len() implies !(#[trigger] event_model(ev[i]) is Part1)
            && !(event_model(ev[i]) is Part1Time) by {
            assert(em[i] == event_model(ev[i]));
            if i < pref.len() {
                assert((pref + b1)[i] == pref[i]);
                assert(em[i] == pref[i]);
            } else {
                assert(b1 =~= Seq::<EventModel>::empty());
                assert(em[i] == b2[i - pref.len() - b1.len()]);
            }
        }
    }
    if p2 is None {
        assert forall|i: int| 0 <= i < ev.len() implies !(#[trigger] event_model(ev[i]) is Part2)
            && !(event_model(ev[i]) is Part2Time) by {
            assert(em[i] == event_model(ev[i]));
            if i < pref.len() {
                assert((pref + b1)[i] == pref[i]);
                assert(em[i] == pref[i]);
            } else {
                assert(b2 =~= Seq::<EventModel>::empty());
                assert(em[i] == b1[i - pref.len()]);
            }
        }
    }
}

} // verus!
