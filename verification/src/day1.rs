//! Day 1: two columns of integers. The input is one pair of numbers per
//! line; both columns are sorted after parsing. Part one sums the absolute
//! differences of the columns paired by rank; part two sums each left value
//! weighted by how often it occurs on the right.

use vstd::prelude::*;
use crate::num::i64_of;
use crate::num::dec_str_int;
use crate::num::parse_i64;
use crate::num::i64_dec_string;
use crate::text::lines_spec;
use crate::text::tokens_spec;
use crate::text::split_lines;
use crate::text::first_two_tokens;
use crate::text::views_of;
use crate::sorting::sorted;
use crate::sorting::sort_i64;
use crate::sorting::lemma_sorted_unique;
use crate::solution::Solution;
use crate::solution::ParseError;
use crate::solution::ParseErrorModel;

verus! {

/// Day 1's parsed input: the two columns, each sorted ascending.
pub struct State {
    first: Vec<i64>,
    second: Vec<i64>,
}

impl State {
    /// The left column, ascending.
    pub closed spec fn first_values(&self) -> Seq<i64> {
        self.first@
    }

    /// The right column, ascending.
    pub closed spec fn second_values(&self) -> Seq<i64> {
        self.second@
    }

    /// The left column.
    pub fn first(&self) -> (r: &Vec<i64>)
        ensures
            r@ == self.first_values(),
    {
        &self.first
    }

    /// The right column.
    pub fn second(&self) -> (r: &Vec<i64>)
        ensures
            r@ == self.second_values(),
    {
        &self.second
    }
}

/// Whether a line has at least two tokens whose first two are i64 numerals.
pub open spec fn line_ok(l: Seq<u8>) -> bool {
    &&& tokens_spec(l).len() >= 2
    &&& i64_of(tokens_spec(l)[0]) is Some
    &&& i64_of(tokens_spec(l)[1]) is Some
}

/// Whether every line is well-formed.
pub open spec fn lines_ok(ls: Seq<Seq<u8>>) -> bool {
    forall|i: int| 0 <= i < ls.len() ==> line_ok(ls[i])
}

/// Index of the first ill-formed line.
pub open spec fn first_bad(ls: Seq<Seq<u8>>) -> int
    decreases ls.len(),
{
    if ls.len() == 0 {
        0
    } else if !line_ok(ls[0]) {
        0
    } else {
        1 + first_bad(ls.drop_first())
    }
}

/// The error an ill-formed line produces: the line itself when a second
/// token is missing, otherwise the first token that is not a numeral.
pub open spec fn line_err(l: Seq<u8>) -> ParseErrorModel {
    if tokens_spec(l).len() < 2 {
        ParseErrorModel::InvalidLineFormat(l)
    } else if i64_of(tokens_spec(l)[0]) is None {
        ParseErrorModel::InvalidNumber(tokens_spec(l)[0])
    } else {
        ParseErrorModel::InvalidNumber(tokens_spec(l)[1])
    }
}

/// The value of token `c` of a well-formed line.
pub open spec fn col_val(l: Seq<u8>, c: int) -> i64 {
    i64_of(tokens_spec(l)[c])->Some_0 as i64
}

/// Column `c` of the input: the value of token `c` of each line, in input
/// order.
pub open spec fn col_vals(ls: Seq<Seq<u8>>, c: int) -> Seq<i64> {
    ls.map_values(|l: Seq<u8>| col_val(l, c))
}

/// The absolute difference of two values.
pub open spec fn abs_diff(x: i64, y: i64) -> int {
    if x >= y {
        x - y
    } else {
        y - x
    }
}

/// Sum of the absolute differences of the first `n` pairs.
pub open spec fn sum_abs_to(a: Seq<i64>, b: Seq<i64>, n: int) -> int
    decreases n,
{
    if n <= 0 {
        0
    } else {
        sum_abs_to(a, b, n - 1) + abs_diff(a[n - 1], b[n - 1])
    }
}

/// How many pairs the two columns form.
pub open spec fn pair_count(a: Seq<i64>, b: Seq<i64>) -> int {
    if a.len() <= b.len() {
        a.len() as int
    } else {
        b.len() as int
    }
}

/// Sum of the absolute differences of the paired columns.
pub open spec fn sum_abs(a: Seq<i64>, b: Seq<i64>) -> int {
    sum_abs_to(a, b, pair_count(a, b))
}

/// Occurrences of `x` among the first `n` elements of `b`.
pub open spec fn count_to(b: Seq<i64>, x: i64, n: int) -> int
    decreases n,
{
    if n <= 0 {
        0
    } else {
        count_to(b, x, n - 1) + if b[n - 1] == x {
            1int
        } else {
            0int
        }
    }
}

/// Occurrences of `x` in `b`.
pub open spec fn count_of(b: Seq<i64>, x: i64) -> int {
    count_to(b, x, b.len() as int)
}

/// Similarity sum over the first `n` elements of `a`: each element weighted
/// by its occurrence count in `b`.
pub open spec fn sim_to(a: Seq<i64>, b: Seq<i64>, n: int) -> int
    decreases n,
{
    if n <= 0 {
        0
    } else {
        sim_to(a, b, n - 1) + a[n - 1] * count_of(b, a[n - 1])
    }
}

/// Whether `v` fits an `i128`.
pub open spec fn fits_i128(v: int) -> bool {
    i128::MIN <= v <= i128::MAX
}

/// Whether `v` fits an `i64`.
pub open spec fn fits_i64(v: int) -> bool {
    i64::MIN <= v <= i64::MAX
}

/// Day 1's implementation.
pub struct Day;

proof fn lemma_first_bad_is(ls: Seq<Seq<u8>>, k: int)
    requires
        0 <= k <= ls.len(),
        forall|j: int| 0 <= j < k ==> line_ok(ls[j]),
        k < ls.len() ==> !line_ok(ls[k]),
    ensures
        first_bad(ls) == k,
    decreases ls.len(),
{
    if ls.len() > 0 && line_ok(ls[0]) {
        let r = ls.drop_first();
        assert forall|j: int| 0 <= j < k - 1 implies line_ok(r[j]) by {
            assert(r[j] == ls[j + 1]);
        }
        lemma_first_bad_is(r, k - 1);
    }
}

proof fn lemma_sum_abs_to_mono(a: Seq<i64>, b: Seq<i64>, m: int, n: int)
    requires
        0 <= m <= n,
    ensures
        sum_abs_to(a, b, m) <= sum_abs_to(a, b, n),
    decreases n - m,
{
    if m < n {
        lemma_sum_abs_to_mono(a, b, m, n - 1);
    }
}

impl Solution for Day {
    type Input = State;

    type Output = i64;

    open spec fn parse_ok(input: Seq<u8>) -> bool {
        lines_ok(lines_spec(input))
    }

    open spec fn parse_err_of(input: Seq<u8>) -> ParseErrorModel {
        line_err(lines_spec(input)[first_bad(lines_spec(input))])
    }

    open spec fn good_parse(input: Seq<u8>, v: State) -> bool {
        &&& sorted(v.first_values())
        &&& sorted(v.second_values())
        &&& v.first_values().to_multiset() == col_vals(lines_spec(input), 0).to_multiset()
        &&& v.second_values().to_multiset() == col_vals(lines_spec(input), 1).to_multiset()
    }

    open spec fn part1_spec(v: State) -> Option<i64> {
        if sum_abs(v.first_values(), v.second_values()) <= i64::MAX {
            Option::Some(sum_abs(v.first_values(), v.second_values()) as i64)
        } else {
            Option::None
        }
    }

    open spec fn part2_spec(v: State) -> Option<i64> {
        let a = v.first_values();
        let b = v.second_values();
        let n = a.len() as int;
        if (forall|j: int| 0 <= j <= n ==> fits_i128(sim_to(a, b, j))) && fits_i64(sim_to(a, b, n)) {
            Option::Some(sim_to(a, b, n) as i64)
        } else {
            Option::None
        }
    }

    open spec fn render_spec(o: i64) -> Seq<char> {
        dec_str_int(o as int)
    }

    fn parse(input: &Vec<u8>) -> (r: Result<State, ParseError>) {
        let lines = split_lines(input);
        let ghost ls = lines_spec(input@);
        let n = lines.len();
        let mut first: Vec<i64> = Vec::new();
        let mut second: Vec<i64> = Vec::new();
        let mut idx: usize = 0;
        proof {
            assert(first@ =~= col_vals(ls, 0).take(0));
            assert(second@ =~= col_vals(ls, 1).take(0));
        }
        while idx < n
            invariant
                0 <= idx <= n,
                n == lines@.len(),
                views_of(lines@) == ls,
                ls == lines_spec(input@),
                forall|j: int| 0 <= j < idx ==> line_ok(ls[j]),
                first@ == col_vals(ls, 0).take(idx as int),
                second@ == col_vals(ls, 1).take(idx as int),
            decreases n - idx,
        {
            let line = &lines[idx];
            proof {
                assert(line@ == ls[idx as int]);
            }
            let pair = match first_two_tokens(line) {
                Option::Some(p) => p,
                Option::None => {
                    proof {
                        assert(!line_ok(ls[idx as int]));
                        lemma_first_bad_is(ls, idx as int);
                    }
                    return Result::Err(ParseError::InvalidLineFormat(copy_bytes(line)));
                },
            };
            let a = match parse_i64(&pair.0) {
                Option::Some(x) => x,
                Option::None => {
                    proof {
                        assert(!line_ok(ls[idx as int]));
                        lemma_first_bad_is(ls, idx as int);
                    }
                    return Result::Err(ParseError::InvalidNumber(pair.0));
                },
            };
            let b = match parse_i64(&pair.1) {
                Option::Some(x) => x,
                Option::None => {
                    proof {
                        assert(!line_ok(ls[idx as int]));
                        lemma_first_bad_is(ls, idx as int);
                    }
                    return Result::Err(ParseError::InvalidNumber(pair.1));
                },
            };
            first.push(a);
            second.push(b);
            proof {
                assert(line_ok(ls[idx as int]));
                assert(col_vals(ls, 0)[idx as int] == col_val(ls[idx as int], 0));
                assert(first@ =~= col_vals(ls, 0).take(idx + 1));
                assert(second@ =~= col_vals(ls, 1).take(idx + 1));
            }
            idx += 1;
        }
        proof {
            assert(first@ =~= col_vals(ls, 0));
            assert(second@ =~= col_vals(ls, 1));
        }
        sort_i64(&mut first);
        sort_i64(&mut second);
        Result::Ok(State { first, second })
    }

    fn part1(v: &State) -> (r: Option<i64>) {
        let a = &v.first;
        let b = &v.second;
        let m: usize = if a.len() <= b.len() {
            a.len()
        } else {
            b.len()
        };
        let mut acc: i128 = 0;
        let mut i: usize = 0;
        while i < m
            invariant
                0 <= i <= m,
                m == pair_count(a@, b@),
                a@ == v.first_values(),
                b@ == v.second_values(),
                acc == sum_abs_to(a@, b@, i as int),
                acc >= 0,
            decreases m - i,
        {
            let d: i128 = (a[i] as i128) - (b[i] as i128);
            let t: i128 = if d < 0 {
                -d
            } else {
                d
            };
            match acc.checked_add(t) {
                Option::Some(s) => {
                    acc = s;
                },
                Option::None => {
                    proof {
                        lemma_sum_abs_to_mono(a@, b@, i + 1, pair_count(a@, b@));
                    }
                    return Option::None;
                },
            }
            i += 1;
        }
        if acc <= i64::MAX as i128 {
            Option::Some(acc as i64)
        } else {
            Option::None
        }
    }

    fn part2(v: &State) -> (r: Option<i64>) {
        let a = &v.first;
        let b = &v.second;
        let n = a.len();
        let mut acc: i128 = 0;
        let mut i: usize = 0;
        while i < n
            invariant
                0 <= i <= n,
                n == a@.len(),
                a@ == v.first_values(),
                b@ == v.second_values(),
                acc == sim_to(a@, b@, i as int),
                forall|j: int| 0 <= j <= i ==> fits_i128(sim_to(a@, b@, j)),
            decreases n - i,
        {
            let x = a[i];
            let c = count_occurrences(b, x);
            proof {
                let xi = x as int;
                let ci = c as int;
                assert(0 <= ci < 0x1_0000_0000_0000_0000);
                assert((-0x8000_0000_0000_0000_0000_0000_0000_0000 <= xi * ci
                    <= 0x7fff_ffff_ffff_ffff_ffff_ffff_ffff_ffff) && (xi * ci == (x as int) * (
                c as int))) by (nonlinear_arith)
                    requires
                        0 <= ci < 0x1_0000_0000_0000_0000,
                        -0x8000_0000_0000_0000 <= xi < 0x8000_0000_0000_0000,
                        xi == x as int,
                        ci == c as int,
                ;
            }
            let t: i128 = (x as i128) * (c as i128);
            proof {
                assert(t == (x as int) * (c as int));
                assert(c as int == count_of(b@, x));
            }
            match acc.checked_add(t) {
                Option::Some(s) => {
                    acc = s;
                },
                Option::None => {
                    proof {
                        assert(!fits_i128(sim_to(a@, b@, i + 1)));
                    }
                    return Option::None;
                },
            }
            i += 1;
        }
        if i64::MIN as i128 <= acc && acc <= i64::MAX as i128 {
            Option::Some(acc as i64)
        } else {
            Option::None
        }
    }

    fn render(o: &i64) -> (r: String) {
        i64_dec_string(*o)
    }
}

/// A fresh copy of a byte vector.
fn copy_bytes(v: &Vec<u8>) -> (r: Vec<u8>)
    ensures
        r@ == v@,
{
    let mut r: Vec<u8> = Vec::new();
    let n = v.len();
    let mut i: usize = 0;
    while i < n
        invariant
            0 <= i <= n,
            n == v@.len(),
            r@ =~= v@.take(i as int),
        decreases n - i,
    {
        r.push(v[i]);
        proof {
            assert(r@ =~= v@.take(i + 1));
        }
        i += 1;
    }
    proof {
        assert(r@ =~= v@);
    }
    r
}

/// Occurrences of `x` in `b`, exactly as [`count_of`] describes.
fn count_occurrences(b: &Vec<i64>, x: i64) -> (r: usize)
    ensures
        r as int == count_of(b@, x),
{
    let n = b.len();
    let mut c: usize = 0;
    let mut i: usize = 0;
    while i < n
        invariant
            0 <= i <= n,
            n == b@.len(),
            c as int == count_to(b@, x, i as int),
            c <= i,
        decreases n - i,
    {
        if b[i] == x {
            c += 1;
        }
        i += 1;
    }
    c
}

/// Parsing is deterministic: two correct parses of the same input hold the
/// same columns. Each column is an ascending arrangement of fixed contents,
/// and such an arrangement is unique.
pub proof fn lemma_parse_deterministic(input: Seq<u8>, s1: State, s2: State)
    requires
        Day::good_parse(input, s1),
        Day::good_parse(input, s2),
    ensures
        s1.first_values() == s2.first_values(),
        s1.second_values() == s2.second_values(),
{
    lemma_sorted_unique(s1.first_values(), s2.first_values());
    lemma_sorted_unique(s1.second_values(), s2.second_values());
}

} // verus!
