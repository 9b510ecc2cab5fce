//! Line-oriented text handling: splitting raw input bytes into lines and
//! lines into whitespace-separated tokens.
//!
//! A line ends at a newline byte; a carriage return just before the newline
//! is dropped, and input that does not end in a newline still yields its
//! final partial line. Tokens are maximal runs of non-whitespace bytes.

use vstd::prelude::*;

verus! {

/// Whether `b` is an ASCII whitespace byte.
pub open spec fn is_ws(b: u8) -> bool {
    b == 32 || b == 9 || b == 10 || b == 11 || b == 12 || b == 13
}

/// Index of the first newline byte of `s`, or `s.len()` when there is none.
pub open spec fn first_nl(s: Seq<u8>) -> int
    decreases s.len(),
{
    if s.len() == 0 {
        0
    } else if s[0] == 10 {
        0
    } else {
        1 + first_nl(s.drop_first())
    }
}

/// `l` without a trailing carriage return, if it has one.
pub open spec fn strip_cr(l: Seq<u8>) -> Seq<u8> {
    if l.len() > 0 && l.last() == 13 {
        l.drop_last()
    } else {
        l
    }
}

/// The lines of `s`: segments between newline bytes, each stripped of a
/// carriage return before its newline; a final segment without a newline is
/// kept as it stands, and a trailing newline does not open an empty line.
pub open spec fn lines_spec(s: Seq<u8>) -> Seq<Seq<u8>>
    decreases s.len(),
{
    if s.len() == 0 {
        seq![]
    } else {
        let k = first_nl(s);
        if 0 <= k < s.len() {
            seq![strip_cr(s.take(k))] + lines_spec(s.skip(k + 1))
        } else {
            seq![s]
        }
    }
}

proof fn lemma_first_nl_is(s: Seq<u8>, k: int)
    requires
        0 <= k <= s.len(),
        forall|j: int| 0 <= j < k ==> s[j] != 10,
        k < s.len() ==> s[k] == 10,
    ensures
        first_nl(s) == k,
    decreases s.len(),
{
    if s.len() > 0 && s[0] != 10 {
        let r = s.drop_first();
        assert forall|j: int| 0 <= j < k - 1 implies r[j] != 10 by {
            assert(r[j] == s[j + 1]);
        }
        lemma_first_nl_is(r, k - 1);
    }
}

/// Splitting at a newline: the bytes before the first newline form one line
/// and the rest is split on its own.
proof fn lemma_lines_step(pre: Seq<u8>, rest: Seq<u8>)
    requires
        forall|j: int| 0 <= j < pre.len() ==> pre[j] != 10,
    ensures
        lines_spec(pre + seq![10u8] + rest) == seq![strip_cr(pre)] + lines_spec(rest),
{
    let s = pre + seq![10u8] + rest;
    assert(s.len() > 0);
    lemma_first_nl_is(s, pre.len() as int);
    assert(s.take(pre.len() as int) =~= pre);
    assert(s.skip(pre.len() as int + 1) =~= rest);
}

/// A nonempty byte string without newlines is a single line.
proof fn lemma_lines_whole(l: Seq<u8>)
    requires
        l.len() > 0,
        forall|j: int| 0 <= j < l.len() ==> l[j] != 10,
    ensures
        lines_spec(l) == seq![l],
{
    lemma_first_nl_is(l, l.len() as int);
}

/// The view of each element of `v`.
pub open spec fn views_of(v: Seq<Vec<u8>>) -> Seq<Seq<u8>> {
    v.map_values(|x: Vec<u8>| x@)
}

/// Splits `input` into its lines, exactly as [`lines_spec`] describes.
pub fn split_lines(input: &Vec<u8>) -> (r: Vec<Vec<u8>>)
    ensures
        views_of(r@) == lines_spec(input@),
{
    let n = input.len();
    let mut r: Vec<Vec<u8>> = Vec::new();
    let mut cur: Vec<u8> = Vec::new();
    let mut i: usize = 0;
    proof {
        assert(views_of(r@) =~= Seq::<Seq<u8>>::empty());
        assert(cur@ + input@.skip(0) =~= input@);
        assert(views_of(r@) + lines_spec(input@) =~= lines_spec(input@));
    }
    while i < n
        invariant
            0 <= i <= n,
            n == input@.len(),
            forall|j: int| 0 <= j < cur@.len() ==> cur@[j] != 10,
            lines_spec(input@) == views_of(r@) + lines_spec(cur@ + input@.skip(i as int)),
        decreases n - i,
    {
        let b = input[i];
        if b == 10 {
            let ghost prev_r = r@;
            let ghost prev_cur = cur@;
            // close the current line, dropping a carriage return before the newline
            if cur.len() > 0 && cur[cur.len() - 1] == 13 {
                cur.pop();
            }
            proof {
                assert(cur@ =~= strip_cr(prev_cur));
            }
            r.push(cur);
            cur = Vec::new();
            proof {
                assert(prev_cur + input@.skip(i as int) =~= prev_cur + seq![10u8] + input@.skip(
                    i + 1,
                ));
                lemma_lines_step(prev_cur, input@.skip(i + 1));
                assert(views_of(r@) =~= views_of(prev_r).push(strip_cr(prev_cur)));
                assert(views_of(r@) + lines_spec(input@.skip(i + 1)) =~= views_of(prev_r) + (seq![
                    strip_cr(prev_cur),
                ] + lines_spec(input@.skip(i + 1))));
                assert(cur@ + input@.skip(i + 1) =~= input@.skip(i + 1));
            }
        } else {
            let ghost prev_cur = cur@;
            cur.push(b);
            proof {
                assert(cur@ + input@.skip(i + 1) =~= prev_cur + input@.skip(i as int));
            }
        }
        i += 1;
    }
    proof {
        assert(cur@ + input@.skip(n as int) =~= cur@);
    }
    if cur.len() > 0 {
        let ghost prev_r = r@;
        let ghost cur_v = cur@;
        proof {
            lemma_lines_whole(cur@);
        }
        r.push(cur);
        proof {
            assert(views_of(r@) =~= views_of(prev_r) + seq![cur_v]);
        }
    } else {
        proof {
            assert(views_of(r@) + lines_spec(cur@) =~= views_of(r@));
        }
    }
    r
}

/// Length of the leading run of non-whitespace bytes of `l`.
pub open spec fn tok_end(l: Seq<u8>) -> int
    decreases l.len(),
{
    if l.len() == 0 {
        0
    } else if is_ws(l[0]) {
        0
    } else {
        1 + tok_end(l.drop_first())
    }
}

/// The whitespace-separated tokens of `l`, in order.
pub open spec fn tokens_spec(l: Seq<u8>) -> Seq<Seq<u8>>
    decreases l.len(),
{
    if l.len() == 0 {
        seq![]
    } else if is_ws(l[0]) {
        tokens_spec(l.drop_first())
    } else {
        let k = tok_end(l);
        if 1 <= k <= l.len() {
            seq![l.take(k)] + tokens_spec(l.skip(k))
        } else {
            seq![]
        }
    }
}

proof fn lemma_tok_end_bounds(l: Seq<u8>)
    ensures
        0 <= tok_end(l) <= l.len(),
        forall|j: int| 0 <= j < tok_end(l) ==> !is_ws(l[j]),
        tok_end(l) < l.len() ==> is_ws(l[tok_end(l)]),
    decreases l.len(),
{
    if l.len() > 0 && !is_ws(l[0]) {
        lemma_tok_end_bounds(l.drop_first());
        assert forall|j: int| 0 <= j < tok_end(l) implies !is_ws(l[j]) by {
            if j > 0 {
                assert(l.drop_first()[j - 1] == l[j]);
            }
        }
    }
}

proof fn lemma_tok_end_is(l: Seq<u8>, k: int)
    requires
        0 <= k <= l.len(),
        forall|j: int| 0 <= j < k ==> !is_ws(l[j]),
        k < l.len() ==> is_ws(l[k]),
    ensures
        tok_end(l) == k,
    decreases l.len(),
{
    if l.len() > 0 && !is_ws(l[0]) {
        let r = l.drop_first();
        assert forall|j: int| 0 <= j < k - 1 implies !is_ws(r[j]) by {
            assert(r[j] == l[j + 1]);
        }
        lemma_tok_end_is(r, k - 1);
    }
}

/// Skipping one leading whitespace byte does not change the tokens.
proof fn lemma_tokens_skip_ws(l: Seq<u8>)
    requires
        l.len() > 0,
        is_ws(l[0]),
    ensures
        tokens_spec(l) == tokens_spec(l.drop_first()),
{
}

/// A token starts at a non-whitespace byte and runs to `tok_end`.
proof fn lemma_tokens_head(l: Seq<u8>)
    requires
        l.len() > 0,
        !is_ws(l[0]),
    ensures
        tokens_spec(l) == seq![l.take(tok_end(l))] + tokens_spec(l.skip(tok_end(l))),
{
    lemma_tok_end_bounds(l);
}

/// Finds the first two tokens of `line`, exactly when it has at least two.
pub fn first_two_tokens(line: &Vec<u8>) -> (r: Option<(Vec<u8>, Vec<u8>)>)
    ensures
        match r {
            Option::Some(p) => tokens_spec(line@).len() >= 2 && p.0@ == tokens_spec(line@)[0]
                && p.1@ == tokens_spec(line@)[1],
            Option::None => tokens_spec(line@).len() < 2,
        },
{
    let n = line.len();
    let mut toks: Vec<Vec<u8>> = Vec::new();
    let mut i: usize = 0;
    proof {
        assert(line@.skip(0) =~= line@);
    }
    while i < n && toks.len() < 2
        invariant
            0 <= i <= n,
            n == line@.len(),
            toks@.len() <= 2,
            tokens_spec(line@) =~= views_of(toks@) + tokens_spec(line@.skip(i as int)),
        decreases n - i,
    {
        let b = line[i];
        if b == 32 || b == 9 || b == 10 || b == 11 || b == 12 || b == 13 {
            proof {
                lemma_tokens_skip_ws(line@.skip(i as int));
                assert(line@.skip(i as int).drop_first() =~= line@.skip(i + 1));
            }
            i += 1;
        } else {
            // scan the token that starts here
            let s = i;
            let mut tok: Vec<u8> = Vec::new();
            while i < n && !(line[i] == 32 || line[i] == 9 || line[i] == 10 || line[i] == 11
                || line[i] == 12 || line[i] == 13)
                invariant
                    0 <= s <= i <= n,
                    n == line@.len(),
                    forall|j: int| s <= j < i ==> !is_ws(line@[j]),
                    tok@ =~= line@.subrange(s as int, i as int),
                decreases n - i,
            {
                tok.push(line[i]);
                proof {
                    assert(tok@ =~= line@.subrange(s as int, i + 1));
                }
                i += 1;
            }
            proof {
                let rest = line@.skip(s as int);
                assert forall|j: int| 0 <= j < i - s implies !is_ws(rest[j]) by {
                    assert(rest[j] == line@[s + j]);
                }
                assert(i < n ==> is_ws(rest[i - s]));
                lemma_tok_end_is(rest, i - s);
                lemma_tokens_head(rest);
                assert(rest.take(i - s) =~= line@.subrange(s as int, i as int));
                assert(rest.skip(i - s) =~= line@.skip(i as int));
            }
            let ghost prev_toks = toks@;
            toks.push(tok);
            proof {
                assert(views_of(toks@) =~= views_of(prev_toks).push(line@.subrange(
                    s as int,
                    i as int,
                )));
                assert(views_of(prev_toks) + (seq![line@.subrange(s as int, i as int)]
                    + tokens_spec(line@.skip(i as int))) =~= views_of(toks@) + tokens_spec(
                    line@.skip(i as int),
                ));
            }
        }
    }
    if toks.len() < 2 {
        // fewer than two tokens in the whole line
        proof {
            if i == n {
                assert(tokens_spec(line@.skip(n as int)) =~= Seq::<Seq<u8>>::empty());
                assert(tokens_spec(line@) =~= views_of(toks@));
            }
        }
        return Option::None;
    }
    let second = toks.pop().unwrap();
    let first = toks.pop().unwrap();
    proof {
        assert(tokens_spec(line@).len() >= 2);
        assert(first@ == tokens_spec(line@)[0]);
        assert(second@ == tokens_spec(line@)[1]);
    }
    Option::Some((first, second))
}

} // verus!
