//! Laws of the grammar, stated and proved once and for all inputs: which
//! whole classes of lines the parser rejects, and that the parse cannot see
//! whitespace except as a token separator.
//!
//! [`crate::parser::parse_job`] returns exactly what [`p_job`] says of the
//! line's token stream, so everything proved here of `p_job` and
//! [`toks_from`] holds of the executable parser.

use vstd::prelude::*;

use crate::parser::{all_term, drop_words, is_delim, is_space, is_term, lemma_p_stage_len,
    lemma_word_len_bytes, lemma_words_prefix, p_job, p_pipes, p_redirs, p_stage, toks_from,
    word_len, words_prefix, POut, PStage, Tok};

verus! {

/// A line whose first token is not a command word is rejected: a leading
/// `|`, `&`, `<`, `>` or terminator, or a line of nothing but whitespace,
/// never parses to a job.
pub proof fn job_rejected_without_command(ts: Seq<Tok>)
    requires
        ts.len() == 0 || !(ts[0] is Word),
    ensures
        p_job(ts) is Err,
{
    assert(words_prefix(ts).len() == 0);
}

/// The byte-level form of [`job_rejected_without_command`]: if the first
/// byte that is not a space or tab is a delimiter, or the line holds only
/// spaces and tabs, the line is rejected. `i` names the position of that
/// first byte.
pub proof fn parse_rejects_leading_delimiter(s: Seq<u8>, i: int)
    requires
        0 <= i <= s.len(),
        forall|k: int| 0 <= k < i ==> is_space(#[trigger] s[k]),
        i == s.len() || (is_delim(s[i]) && !is_space(s[i])),
    ensures
        p_job(toks_from(s, 0)) is Err,
{
    lemma_toks_skip_spaces(s, 0, i);
    if i < s.len() {
        assert(toks_from(s, i).len() >= 1 && !(toks_from(s, i)[0] is Word));
    }
    job_rejected_without_command(toks_from(s, 0));
}

/// Skipping spaces does not change the token stream.
proof fn lemma_toks_skip_spaces(s: Seq<u8>, i: int, j: int)
    requires
        0 <= i <= j <= s.len(),
        forall|k: int| i <= k < j ==> is_space(#[trigger] s[k]),
    ensures
        toks_from(s, i) == toks_from(s, j),
    decreases j - i,
{
    if i < j {
        lemma_toks_skip_spaces(s, i + 1, j);
    }
}

/// What a stage parse leaves of a pipe-terminated stream is itself
/// pipe-terminated and non-empty: neither the argument words nor the
/// redirects can consume a `|`.
proof fn lemma_p_redirs_keeps_last_pipe(ts: Seq<Tok>, st: PStage)
    requires
        ts.len() >= 1,
        ts.last() is Pipe,
    ensures
        p_redirs(ts, st) matches Ok((st2, rest)) ==> rest.len() >= 1 && rest.last() is Pipe,
    decreases ts.len(),
{
    if ts.len() >= 2 && ts[0] is Lt && st.input is None {
        match ts[1] {
            Tok::Word(w) => {
                if vstd::utf8::valid_utf8(w) {
                    assert(ts.len() >= 3);
                    assert(ts.skip(2).last() == ts.last());
                    lemma_p_redirs_keeps_last_pipe(ts.skip(2), PStage { input: Some(w), ..st });
                }
            },
            _ => {},
        }
    } else if ts.len() >= 2 && (ts[0] is Gt || ts[0] is GtGt) && st.output is None {
        match ts[1] {
            Tok::Word(w) => {
                if vstd::utf8::valid_utf8(w) {
                    assert(ts.len() >= 3);
                    assert(ts.skip(2).last() == ts.last());
                    lemma_p_redirs_keeps_last_pipe(
                        ts.skip(2),
                        PStage {
                            output: Some(
                                if ts[0] is Gt {
                                    POut::Trunc(w)
                                } else {
                                    POut::Append(w)
                                },
                            ),
                            ..st
                        },
                    );
                }
            },
            _ => {},
        }
    }
}

/// As [`lemma_p_redirs_keeps_last_pipe`], for a whole stage.
proof fn lemma_p_stage_keeps_last_pipe(ts: Seq<Tok>)
    requires
        ts.len() >= 1,
        ts.last() is Pipe,
    ensures
        p_stage(ts) matches Ok((st, rest)) ==> rest.len() >= 1 && rest.last() is Pipe,
{
    let ws = words_prefix(ts);
    if ws.len() >= 1 {
        lemma_words_prefix(ts);
        if ws.len() == ts.len() {
            assert(ts[ts.len() - 1] == Tok::Word(ws[ts.len() - 1]));
        }
        assert(ws.len() < ts.len());
        assert(drop_words(ts).last() == ts.last());
        lemma_p_redirs_keeps_last_pipe(
            drop_words(ts),
            PStage { args: ws, input: None, output: None },
        );
    }
}

/// A pipe that no stage follows fails the rest of the pipeline.
proof fn lemma_p_pipes_trailing_pipe(ts: Seq<Tok>, stages: Seq<PStage>)
    requires
        ts.len() >= 1,
        ts.last() is Pipe,
    ensures
        p_pipes(ts, stages) is Err,
    decreases ts.len(),
{
    if ts[0] is Pipe {
        if !(stages.last().output is Some) {
            if ts.len() == 1 {
                assert(ts.drop_first().len() == 0);
            } else {
                assert(ts.drop_first().last() == ts.last());
                lemma_p_stage_keeps_last_pipe(ts.drop_first());
                match p_stage(ts.drop_first()) {
                    Ok(p) => {
                        if !(p.0.input is Some) {
                            lemma_p_stage_len(ts.drop_first());
                            lemma_p_pipes_trailing_pipe(p.1, stages.push(p.0));
                        }
                    },
                    Err(_) => {},
                }
            }
        }
    } else {
        let bg = ts.len() >= 1 && ts[0] is Amp;
        let rest = if bg {
            ts.drop_first()
        } else {
            ts
        };
        if bg {
            assert(ts.len() >= 2);
            assert(rest.last() == ts.last());
        }
        assert(!(rest[rest.len() - 1] is Term));
        assert(!all_term(rest));
    }
}

/// A word run is whatever maximal run of non-delimiter bytes stands at a
/// position; anything with those two properties is its length.
proof fn lemma_word_len_determined(s: Seq<u8>, i: int, n: int)
    requires
        0 <= i,
        0 <= n,
        i + n <= s.len(),
        forall|k: int| i <= k < i + n ==> !is_delim(#[trigger] s[k]),
        i + n == s.len() || is_delim(s[i + n]),
    ensures
        word_len(s, i) == n,
    decreases n,
{
    if n > 0 {
        lemma_word_len_determined(s, i + 1, n - 1);
    }
}

/// The token stream from a position inside the right part of a
/// concatenation depends on that part alone.
proof fn lemma_toks_suffix(x: Seq<u8>, y: Seq<u8>, j: int)
    requires
        0 <= j <= y.len(),
    ensures
        toks_from(x + y, x.len() + j) == toks_from(y, j),
    decreases y.len() - j,
{
    let s = x + y;
    let k = x.len() as int;
    if j < y.len() {
        let b = y[j];
        assert(s[k + j] == b);
        if is_space(b) || b == 60 || b == 124 || b == 38 || is_term(b) {
            lemma_toks_suffix(x, y, j + 1);
        } else if b == 62 {
            if j + 1 < y.len() {
                assert(s[k + j + 1] == y[j + 1]);
            }
            if j + 1 < y.len() && y[j + 1] == 62 {
                lemma_toks_suffix(x, y, j + 2);
            } else {
                lemma_toks_suffix(x, y, j + 1);
            }
        } else {
            lemma_word_len_bytes(y, j);
            let n = word_len(y, j) as int;
            assert(forall|t: int| k + j <= t < k + j + n ==> !is_delim(#[trigger] s[t]));
            if j + n < y.len() {
                assert(s[k + j + n] == y[j + n]);
            }
            lemma_word_len_determined(s, k + j, n);
            assert(s.subrange(k + j, k + j + n) =~= y.subrange(j, j + n));
            lemma_toks_suffix(x, y, j + n);
        }
    }
}

/// Inserting one whitespace byte after `a` leaves the token stream of
/// `a + b` unchanged from any position in `a`, provided the insertion
/// point is neither inside a word nor between the two `>` of an append
/// redirect.
proof fn lemma_insert_space_at(a: Seq<u8>, sp: u8, b: Seq<u8>, i: int)
    requires
        is_space(sp),
        0 <= i <= a.len(),
        !(a.len() > 0 && b.len() > 0 && !is_delim(a.last()) && !is_delim(b[0])),
        !(a.len() > 0 && b.len() > 0 && a.last() == 62 && b[0] == 62),
    ensures
        toks_from(a + seq![sp] + b, i) == toks_from(a + b, i),
    decreases a.len() - i,
{
    let s = a + b;
    let s2 = a + seq![sp] + b;
    let k = a.len() as int;
    assert(forall|t: int| 0 <= t < k ==> #[trigger] s2[t] == a[t] && s[t] == a[t]);
    if i == k {
        assert(s2[k] == sp);
        lemma_toks_suffix(a + seq![sp], b, 0);
        lemma_toks_suffix(a, b, 0);
        assert(toks_from(s2, k + 1) == toks_from(b, 0));
        assert(toks_from(s, k) == toks_from(b, 0));
        if k + 1 <= s2.len() {
            assert(toks_from(s2, k) == toks_from(s2, k + 1));
        }
    } else {
        let c = a[i];
        assert(s[i] == c && s2[i] == c);
        if is_space(c) || c == 60 || c == 124 || c == 38 || is_term(c) {
            lemma_insert_space_at(a, sp, b, i + 1);
        } else if c == 62 {
            if i + 1 < k {
                assert(s[i + 1] == a[i + 1] && s2[i + 1] == a[i + 1]);
                if a[i + 1] == 62 {
                    lemma_insert_space_at(a, sp, b, i + 2);
                } else {
                    lemma_insert_space_at(a, sp, b, i + 1);
                }
            } else {
                assert(s2[k] == sp);
                if k < s.len() {
                    assert(s[k] == b[0]);
                    assert(s[k] != 62);
                }
                lemma_insert_space_at(a, sp, b, i + 1);
            }
        } else {
            lemma_word_len_bytes(s, i);
            let n = word_len(s, i) as int;
            if i + n > k {
                assert(!is_delim(s[k]));
                assert(!is_delim(s[k - 1]));
                assert(s[k] == b[0]);
                assert(false);
            }
            assert(forall|t: int| i <= t < i + n ==> !is_delim(#[trigger] s2[t]));
            if i + n < k {
                assert(s2[i + n] == s[i + n]);
            } else {
                assert(s2[i + n] == sp);
            }
            lemma_word_len_determined(s2, i, n);
            assert(s2.subrange(i, i + n) =~= s.subrange(i, i + n));
            lemma_insert_space_at(a, sp, b, i + n);
        }
    }
}

/// Whitespace is insignificant except as a token separator: inserting a
/// space or tab anywhere but inside a token, or between the two `>` of an
/// append redirect, leaves the token stream — and with it the whole parse
/// — unchanged. Extra runs of whitespace are this insertion repeated.
pub proof fn parse_unchanged_by_inserted_space(a: Seq<u8>, sp: u8, b: Seq<u8>)
    requires
        is_space(sp),
        !(a.len() > 0 && b.len() > 0 && !is_delim(a.last()) && !is_delim(b[0])),
        !(a.len() > 0 && b.len() > 0 && a.last() == 62 && b[0] == 62),
    ensures
        toks_from(a + seq![sp] + b, 0) == toks_from(a + b, 0),
        p_job(toks_from(a + seq![sp] + b, 0)) == p_job(toks_from(a + b, 0)),
{
    lemma_insert_space_at(a, sp, b, 0);
}

/// A line that ends in `|` (the pipe has no following command) is
/// rejected.
pub proof fn job_rejected_with_trailing_pipe(ts: Seq<Tok>)
    requires
        ts.len() >= 1,
        ts.last() is Pipe,
    ensures
        p_job(ts) is Err,
{
    lemma_p_stage_keeps_last_pipe(ts);
    match p_stage(ts) {
        Ok(p) => {
            lemma_p_pipes_trailing_pipe(p.1, seq![p.0]);
        },
        Err(_) => {},
    }
}

} // verus!
