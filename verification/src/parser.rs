//! The grammar parser: one raw byte line becomes a [`Job`] or a
//! [`ParseError`].
//!
//! The grammar, whitespace skipped:
//!
//! ```text
//! token    := one or more bytes not in { < > | & space tab ; CR LF }
//! arg_list := token+
//! redir_in  := "<" token
//! redir_out := (">" | ">>") token
//! process  := arg_list (redir_in redir_out? | redir_out redir_in?)?
//! pipeline := process ("|" process)*
//! job      := pipeline "&"? end_of_job
//! end_of_job := end-of-input | one or more of { ";" CR LF }
//! ```
//!
//! A stage that is followed by `|` must not carry an output redirect, and a
//! stage that follows a `|` must not carry an input redirect: the pipe already
//! claims that stream.
//!
//! The specification is layered. [`toks_from`] reduces the byte line to its
//! token stream, collapsing whitespace; the `p_*` functions define the parse
//! of that token stream. Every executable parser function is proved to agree
//! with them, so whatever holds of the token-level functions holds of the
//! code.

use vstd::prelude::*;
use vstd::utf8::{decode_utf8, valid_utf8};

use crate::errors::ParseError;
use crate::job::{output_v, Input, InputV, Job, JobMode, JobV, Output, OutputRedirect, OutputV,
    Process, StageV};

verus! {

/// Whitespace: space or tab. It only separates tokens.
pub open spec fn is_space(b: u8) -> bool {
    b == 32 || b == 9
}

/// A byte that terminates the job: `;`, CR or LF.
pub open spec fn is_term(b: u8) -> bool {
    b == 59 || b == 13 || b == 10
}

/// A byte that cannot be part of a token.
pub open spec fn is_delim(b: u8) -> bool {
    is_space(b) || is_term(b) || b == 60 || b == 62 || b == 124 || b == 38
}

/// How many token bytes stand at `i`: the length of the longest run of
/// non-delimiter bytes starting there.
pub open spec fn word_len(s: Seq<u8>, i: int) -> nat
    decreases s.len() - i,
{
    if 0 <= i < s.len() && !is_delim(s[i]) {
        1 + word_len(s, i + 1)
    } else {
        0
    }
}

/// One lexical token of the grammar.
pub ghost enum Tok {
    /// A run of non-delimiter bytes: a command, argument or file name.
    Word(Seq<u8>),
    /// `<`
    Lt,
    /// `>`
    Gt,
    /// `>>` (two adjacent `>` bytes)
    GtGt,
    /// `|`
    Pipe,
    /// `&`
    Amp,
    /// `;`, CR or LF
    Term,
}

/// The token stream of `s` from position `i` on. Whitespace disappears here,
/// which is the whole of its meaning: the parse is a function of this stream
/// alone.
pub open spec fn toks_from(s: Seq<u8>, i: int) -> Seq<Tok>
    decreases s.len() - i,
    via toks_from_decreases
{
    if i < 0 || i >= s.len() {
        Seq::empty()
    } else if is_space(s[i]) {
        toks_from(s, i + 1)
    } else if s[i] == 60 {
        seq![Tok::Lt] + toks_from(s, i + 1)
    } else if s[i] == 62 {
        if i + 1 < s.len() && s[i + 1] == 62 {
            seq![Tok::GtGt] + toks_from(s, i + 2)
        } else {
            seq![Tok::Gt] + toks_from(s, i + 1)
        }
    } else if s[i] == 124 {
        seq![Tok::Pipe] + toks_from(s, i + 1)
    } else if s[i] == 38 {
        seq![Tok::Amp] + toks_from(s, i + 1)
    } else if is_term(s[i]) {
        seq![Tok::Term] + toks_from(s, i + 1)
    } else {
        seq![Tok::Word(s.subrange(i, i + word_len(s, i)))] + toks_from(s, i + word_len(s, i))
    }
}

#[via_fn]
proof fn toks_from_decreases(s: Seq<u8>, i: int) {
    if 0 <= i < s.len() && !is_delim(s[i]) {
        lemma_word_len_le(s, i);
    }
}

/// A word run never reaches past the end of the sequence.
pub proof fn lemma_word_len_le(s: Seq<u8>, i: int)
    requires
        0 <= i <= s.len(),
    ensures
        i + word_len(s, i) <= s.len(),
    decreases s.len() - i,
{
    if i < s.len() && !is_delim(s[i]) {
        lemma_word_len_le(s, i + 1);
    }
}

/// The bytes of a word run are exactly the non-delimiter bytes up to the
/// first delimiter or the end of the sequence.
pub proof fn lemma_word_len_bytes(s: Seq<u8>, i: int)
    requires
        0 <= i <= s.len(),
    ensures
        i + word_len(s, i) <= s.len(),
        forall|k: int| i <= k < i + word_len(s, i) ==> !is_delim(#[trigger] s[k]),
        i + word_len(s, i) == s.len() || is_delim(s[i + word_len(s, i)]),
    decreases s.len() - i,
{
    if i < s.len() && !is_delim(s[i]) {
        lemma_word_len_bytes(s, i + 1);
    }
}

/// One process stage as the token-level parse sees it: the argument words
/// and the redirects that were written, before its place in the pipeline
/// decides what its pipe wiring is.
pub ghost struct PStage {
    pub args: Seq<Seq<u8>>,
    pub input: Option<Seq<u8>>,
    pub output: Option<POut>,
}

/// A parsed output redirect, before decoding.
pub ghost enum POut {
    Trunc(Seq<u8>),
    Append(Seq<u8>),
}

/// The leading run of `Word` tokens.
pub open spec fn words_prefix(ts: Seq<Tok>) -> Seq<Seq<u8>>
    decreases ts.len(),
{
    if ts.len() == 0 {
        Seq::empty()
    } else {
        match ts[0] {
            Tok::Word(w) => seq![w] + words_prefix(ts.drop_first()),
            _ => Seq::empty(),
        }
    }
}

/// The token stream with its leading `Word` run removed.
pub open spec fn drop_words(ts: Seq<Tok>) -> Seq<Tok> {
    ts.skip(words_prefix(ts).len() as int)
}

/// `words_prefix` never collects more tokens than there are, and what is
/// left after it starts with a non-`Word` token if anything is left.
pub proof fn lemma_words_prefix(ts: Seq<Tok>)
    ensures
        words_prefix(ts).len() <= ts.len(),
        drop_words(ts).len() == ts.len() - words_prefix(ts).len(),
        drop_words(ts).len() > 0 ==> !(drop_words(ts)[0] is Word),
        forall|k: int|
            0 <= k < words_prefix(ts).len() ==> ts[k] == Tok::Word(#[trigger] words_prefix(
                ts,
            )[k]),
    decreases ts.len(),
{
    if ts.len() > 0 && ts[0] is Word {
        lemma_words_prefix(ts.drop_first());
        assert(drop_words(ts) =~= drop_words(ts.drop_first()));
    }
}

/// Parse the redirects that follow a stage's argument list: at most one
/// input redirect and at most one output redirect, in either order. A
/// repeated redirect is left in the stream for the caller to refuse.
pub open spec fn p_redirs(ts: Seq<Tok>, st: PStage) -> Result<(PStage, Seq<Tok>), ParseError>
    decreases ts.len(),
{
    if ts.len() >= 1 && ts[0] is Lt && st.input is None {
        if ts.len() < 2 {
            Err(ParseError::Incomplete)
        } else {
            match ts[1] {
                Tok::Word(w) => if valid_utf8(w) {
                    p_redirs(ts.skip(2), PStage { input: Some(w), ..st })
                } else {
                    Err(ParseError::Malformed)
                },
                _ => Err(ParseError::Malformed),
            }
        }
    } else if ts.len() >= 1 && (ts[0] is Gt || ts[0] is GtGt) && st.output is None {
        if ts.len() < 2 {
            Err(ParseError::Incomplete)
        } else {
            match ts[1] {
                Tok::Word(w) => if valid_utf8(w) {
                    p_redirs(
                        ts.skip(2),
                        PStage {
                            output: Some(
                                if ts[0] is Gt {
                                    POut::Trunc(w)
                                } else {
                                    POut::Append(w)
                                },
                            ),
                            ..st
                        },
                    )
                } else {
                    Err(ParseError::Malformed)
                },
                _ => Err(ParseError::Malformed),
            }
        }
    } else {
        Ok((st, ts))
    }
}

/// Parse one process stage: a non-empty argument list, then redirects.
/// An argument that is not valid UTF-8 is malformed.
pub open spec fn p_stage(ts: Seq<Tok>) -> Result<(PStage, Seq<Tok>), ParseError> {
    let ws = words_prefix(ts);
    if ws.len() == 0 {
        if ts.len() == 0 {
            Err(ParseError::Incomplete)
        } else {
            Err(ParseError::Malformed)
        }
    } else if exists|k: int| 0 <= k < ws.len() && !valid_utf8(#[trigger] ws[k]) {
        Err(ParseError::Malformed)
    } else {
        p_redirs(drop_words(ts), PStage { args: ws, input: None, output: None })
    }
}

/// The specification-level input wiring of a parsed stage, given whether a
/// stage precedes it.
pub open spec fn opt_input_v(pin: Option<Seq<u8>>, first: bool) -> InputV {
    if !first {
        InputV::Pipe
    } else {
        match pin {
            None => InputV::Inherit,
            Some(w) => InputV::Redirect(decode_utf8(w)),
        }
    }
}

/// The specification-level output wiring of a parsed stage, given whether a
/// stage follows it.
pub open spec fn opt_output_v(pout: Option<POut>, last: bool) -> OutputV {
    if !last {
        OutputV::Pipe
    } else {
        match pout {
            None => OutputV::Inherit,
            Some(POut::Trunc(w)) => OutputV::Truncate(decode_utf8(w)),
            Some(POut::Append(w)) => OutputV::Append(decode_utf8(w)),
        }
    }
}

/// The words of an argument list, decoded.
pub open spec fn decode_words(ws: Seq<Seq<u8>>) -> Seq<Seq<char>> {
    ws.map_values(|w: Seq<u8>| decode_utf8(w))
}

/// A parsed stage as a stage of the job view, its words decoded and its
/// place in the pipeline fixed.
pub open spec fn stage_v(ps: PStage, first: bool, last: bool) -> StageV {
    StageV {
        args: decode_words(ps.args),
        input: opt_input_v(ps.input, first),
        output: opt_output_v(ps.output, last),
    }
}

/// The job view of a sequence of parsed stages.
pub open spec fn stages_v(ps: Seq<PStage>) -> Seq<StageV> {
    Seq::new(ps.len(), |i: int| stage_v(ps[i], i == 0, i == ps.len() - 1))
}

/// True when only job terminators are left.
pub open spec fn all_term(ts: Seq<Tok>) -> bool {
    forall|k: int| 0 <= k < ts.len() ==> ts[k] is Term
}

/// Parse the end of a job: an optional `&` for background mode, then
/// nothing but terminators.
pub open spec fn p_end(ts: Seq<Tok>, stages: Seq<PStage>) -> Result<JobV, ParseError> {
    let bg = ts.len() >= 1 && ts[0] is Amp;
    let rest = if bg {
        ts.drop_first()
    } else {
        ts
    };
    if all_term(rest) {
        Ok(
            JobV {
                stages: stages_v(stages),
                mode: if bg {
                    JobMode::BackGround
                } else {
                    JobMode::ForeGround
                },
            },
        )
    } else {
        Err(ParseError::Malformed)
    }
}

/// Parse the rest of a pipeline after its first stage: each `|` must be
/// followed by a stage without an input redirect, and must not follow a
/// stage with an output redirect.
pub open spec fn p_pipes(ts: Seq<Tok>, stages: Seq<PStage>) -> Result<JobV, ParseError>
    recommends
        stages.len() >= 1,
    decreases ts.len(),
    via p_pipes_decreases
{
    if ts.len() >= 1 && ts[0] is Pipe {
        if stages.last().output is Some {
            Err(ParseError::Malformed)
        } else {
            match p_stage(ts.drop_first()) {
                Err(e) => Err(e),
                Ok((st, rest)) => if st.input is Some {
                    Err(ParseError::Malformed)
                } else {
                    p_pipes(rest, stages.push(st))
                },
            }
        }
    } else {
        p_end(ts, stages)
    }
}

#[via_fn]
proof fn p_pipes_decreases(ts: Seq<Tok>, stages: Seq<PStage>) {
    if ts.len() >= 1 && ts[0] is Pipe {
        lemma_p_stage_len(ts.drop_first());
    }
}

/// `p_redirs` never lengthens the stream.
pub proof fn lemma_p_redirs_len(ts: Seq<Tok>, st: PStage)
    ensures
        p_redirs(ts, st) matches Ok((st2, rest)) ==> rest.len() <= ts.len(),
    decreases ts.len(),
{
    if ts.len() >= 2 && ts[0] is Lt && st.input is None {
        match ts[1] {
            Tok::Word(w) => {
                if valid_utf8(w) {
                    lemma_p_redirs_len(ts.skip(2), PStage { input: Some(w), ..st });
                }
            },
            _ => {},
        }
    } else if ts.len() >= 2 && (ts[0] is Gt || ts[0] is GtGt) && st.output is None {
        match ts[1] {
            Tok::Word(w) => {
                if valid_utf8(w) {
                    lemma_p_redirs_len(
                        ts.skip(2),
                        PStage {
                            output: Some(
                                if ts[0] is Gt {
                                    POut::Trunc(w)
                                } else {
                                    POut::Append(w)
                                },
                            ),
                            ..st
                        },
                    );
                }
            },
            _ => {},
        }
    }
}

/// A successfully parsed stage consumes at least one token.
pub proof fn lemma_p_stage_len(ts: Seq<Tok>)
    ensures
        p_stage(ts) matches Ok((st, rest)) ==> rest.len() < ts.len(),
{
    let ws = words_prefix(ts);
    if ws.len() >= 1 {
        lemma_words_prefix(ts);
        lemma_p_redirs_len(drop_words(ts), PStage { args: ws, input: None, output: None });
    }
}

/// Parse a whole job from its token stream.
pub open spec fn p_job(ts: Seq<Tok>) -> Result<JobV, ParseError> {
    match p_stage(ts) {
        Err(e) => Err(e),
        Ok((st, rest)) => p_pipes(rest, seq![st]),
    }
}

/// Decide [`is_delim`] on a byte.
fn delim_byte(b: u8) -> (r: bool)
    ensures
        r == is_delim(b),
{
    b == 32 || b == 9 || b == 59 || b == 13 || b == 10 || b == 60 || b == 62
        || b == 124 || b == 38
}

/// Relies on `String::from_utf8`: it returns the string whose characters
/// decode the given bytes exactly when the bytes are valid UTF-8, and
/// reports the bytes otherwise.
#[verifier::external_body]
fn string_from_utf8(bytes: Vec<u8>) -> (r: Option<String>)
    ensures
        match r {
            Some(t) => valid_utf8(bytes@) && t@ == decode_utf8(bytes@),
            None => !valid_utf8(bytes@),
        },
{
    String::from_utf8(bytes).ok()
}

/// Advance past spaces and tabs, which carry no tokens.
fn skip_spaces(s: &[u8], i: usize) -> (j: usize)
    requires
        i <= s@.len(),
    ensures
        i <= j <= s@.len(),
        toks_from(s@, j as int) == toks_from(s@, i as int),
        j == s@.len() || !is_space(s@[j as int]),
{
    let mut j = i;
    loop
        invariant
            i <= j <= s@.len(),
            toks_from(s@, j as int) == toks_from(s@, i as int),
        decreases s@.len() - j,
    {
        if j < s.len() {
            let b = s[j];
            if b == 32 || b == 9 {
                proof {
                    assert(toks_from(s@, j + 1) == toks_from(s@, j as int));
                }
                j = j + 1;
            } else {
                return j;
            }
        } else {
            return j;
        }
    }
}

/// Read one token: the longest run of non-delimiter bytes at `i`, decoded
/// as UTF-8. The position is taken literally: leading whitespace is not
/// skipped, and the position after the token is returned with it.
pub fn token(s: &[u8], i: usize) -> (r: Result<(String, usize), ParseError>)
    requires
        i <= s@.len(),
    ensures
        match r {
            Ok(p) => {
                let (tok, j) = p;
                &&& i < j <= s@.len()
                &&& i < s@.len() && !is_delim(s@[i as int])
                &&& j == i + word_len(s@, i as int)
                &&& valid_utf8(s@.subrange(i as int, j as int))
                &&& tok@ == decode_utf8(s@.subrange(i as int, j as int))
                &&& tok@.len() >= 1
                &&& toks_from(s@, i as int) == seq![
                    Tok::Word(s@.subrange(i as int, j as int)),
                ] + toks_from(s@, j as int)
            },
            Err(ParseError::Incomplete) => i == s@.len(),
            Err(ParseError::Malformed) => i < s@.len() && (is_delim(s@[i as int])
                || !valid_utf8(
                s@.subrange(i as int, i + word_len(s@, i as int)),
            )),
        },
{
    if i == s.len() {
        return Err(ParseError::Incomplete);
    }
    if delim_byte(s[i]) {
        return Err(ParseError::Malformed);
    }
    let mut j = i;
    let mut bytes: Vec<u8> = Vec::new();
    loop
        invariant_except_break
            i <= j <= s@.len(),
            bytes@ == s@.subrange(i as int, j as int),
            word_len(s@, i as int) == j - i + word_len(s@, j as int),
        ensures
            i <= j <= s@.len(),
            bytes@ == s@.subrange(i as int, j as int),
            j == i + word_len(s@, i as int),
        decreases s@.len() - j,
    {
        if j < s.len() {
            let b = s[j];
            if !delim_byte(b) {
                bytes.push(b);
                proof {
                    assert(s@.subrange(i as int, j + 1) =~= s@.subrange(i as int, j as int).push(
                        s@[j as int],
                    ));
                }
                j = j + 1;
            } else {
                break;
            }
        } else {
            break;
        }
    }
    match string_from_utf8(bytes) {
        Some(tok) => {
            proof {
                assert(decode_utf8(s@.subrange(i as int, j as int)).len() >= 1);
            }
            Ok((tok, j))
        },
        None => Err(ParseError::Malformed),
    }
}

/// Splitting one leading word off a token stream splits its word prefix.
proof fn lemma_words_cons(w: Seq<u8>, rest: Seq<Tok>)
    ensures
        words_prefix(seq![Tok::Word(w)] + rest) == seq![w] + words_prefix(rest),
        drop_words(seq![Tok::Word(w)] + rest) == drop_words(rest),
{
    let ts = seq![Tok::Word(w)] + rest;
    assert(ts[0] == Tok::Word(w));
    assert(ts.drop_first() =~= rest);
    lemma_words_prefix(rest);
    assert(drop_words(ts) =~= drop_words(rest));
}

/// A token stream headed by anything but a word has no word prefix.
proof fn lemma_words_none(ts: Seq<Tok>)
    requires
        ts.len() == 0 || !(ts[0] is Word),
    ensures
        words_prefix(ts).len() == 0,
        drop_words(ts) == ts,
{
    assert(drop_words(ts) =~= ts);
}

/// Read an argument list: one or more tokens separated by whitespace, with
/// surrounding whitespace consumed.
pub fn argument_list(s: &[u8], i: usize) -> (r: Result<(Vec<String>, usize), ParseError>)
    requires
        i <= s@.len(),
    ensures
        match r {
            Ok(p) => {
                let (args, j) = p;
                let ws = words_prefix(toks_from(s@, i as int));
                &&& i <= j <= s@.len()
                &&& ws.len() >= 1
                &&& args@.len() == ws.len()
                &&& args.deep_view() == decode_words(ws)
                &&& forall|k: int| 0 <= k < ws.len() ==> valid_utf8(#[trigger] ws[k])
                &&& toks_from(s@, j as int) == drop_words(toks_from(s@, i as int))
            },
            Err(ParseError::Incomplete) => toks_from(s@, i as int).len() == 0,
            Err(ParseError::Malformed) => ({
                let ts = toks_from(s@, i as int);
                let ws = words_prefix(ts);
                ts.len() > 0 && (ws.len() == 0 || exists|k: int|
                    0 <= k < ws.len() && !valid_utf8(#[trigger] ws[k]))
            }),
        },
{
    let ghost ts0 = toks_from(s@, i as int);
    let mut args: Vec<String> = Vec::new();
    let ghost mut ws_done: Seq<Seq<u8>> = Seq::empty();
    let mut cur = i;
    proof {
        assert(ws_done + words_prefix(ts0) =~= words_prefix(ts0));
        assert(args.deep_view() =~= decode_words(ws_done));
    }
    loop
        invariant_except_break
            i <= cur <= s@.len(),
            ts0 == toks_from(s@, i as int),
            words_prefix(ts0) == ws_done + words_prefix(toks_from(s@, cur as int)),
            drop_words(ts0) == drop_words(toks_from(s@, cur as int)),
            args.deep_view() == decode_words(ws_done),
            args@.len() == ws_done.len(),
            forall|k: int| 0 <= k < ws_done.len() ==> valid_utf8(#[trigger] ws_done[k]),
        ensures
            i <= cur <= s@.len(),
            ts0 == toks_from(s@, i as int),
            words_prefix(ts0) == ws_done,
            toks_from(s@, cur as int) == drop_words(ts0),
            args.deep_view() == decode_words(ws_done),
            args@.len() == ws_done.len(),
            forall|k: int| 0 <= k < ws_done.len() ==> valid_utf8(#[trigger] ws_done[k]),
            cur == s@.len() || toks_from(s@, cur as int).len() >= 1,
        decreases s@.len() - cur,
    {
        let j = skip_spaces(s, cur);
        if j == s.len() {
            cur = j;
            proof {
                lemma_words_none(toks_from(s@, cur as int));
                assert(words_prefix(ts0) =~= ws_done);
            }
            break;
        }
        if delim_byte(s[j]) {
            cur = j;
            proof {
                assert(toks_from(s@, cur as int).len() >= 1 && !(toks_from(s@, cur as int)[0]
                    is Word));
                lemma_words_none(toks_from(s@, cur as int));
                assert(words_prefix(ts0) =~= ws_done);
            }
            break;
        }
        match token(s, j) {
            Ok(p) => {
                let (t, j2) = p;
                proof {
                    let w = s@.subrange(j as int, j2 as int);
                    lemma_words_cons(w, toks_from(s@, j2 as int));
                    assert(ws_done + (seq![w] + words_prefix(toks_from(s@, j2 as int)))
                        =~= ws_done.push(w) + words_prefix(toks_from(s@, j2 as int)));
                    assert(decode_words(ws_done.push(w)) =~= decode_words(ws_done).push(
                        decode_utf8(w),
                    ));
                }
                let ghost w = s@.subrange(j as int, j2 as int);
                args.push(t);
                proof {
                    ws_done = ws_done.push(w);
                    assert(args.deep_view() =~= decode_words(ws_done));
                }
                cur = j2;
            },
            Err(_) => {
                proof {
                    let w = s@.subrange(j as int, j + word_len(s@, j as int));
                    lemma_word_len_le(s@, j as int);
                    lemma_words_cons(w, toks_from(s@, j + word_len(s@, j as int)));
                    lemma_words_prefix(ts0);
                    let ws = words_prefix(ts0);
                    assert(ws[ws_done.len() as int] == w && !valid_utf8(w));
                }
                return Err(ParseError::Malformed);
            },
        }
    }
    if args.len() == 0 {
        proof {
            assert(drop_words(ts0) =~= ts0);
        }
        if cur == s.len() {
            return Err(ParseError::Incomplete);
        } else {
            return Err(ParseError::Malformed);
        }
    }
    Ok((args, cur))
}

/// Read an input redirect: `<` followed by a file name token, whitespace
/// around both consumed.
pub fn redirect_in(s: &[u8], i: usize) -> (r: Result<(Input, usize), ParseError>)
    requires
        i <= s@.len(),
    ensures
        match r {
            Ok(p) => {
                let (inp, j) = p;
                let ts = toks_from(s@, i as int);
                &&& i <= j <= s@.len()
                &&& ts.len() >= 2 && ts[0] is Lt
                &&& ts[1] matches Tok::Word(w) && valid_utf8(w) && (inp matches Input::Redirect(
                    f,
                ) && f@ == decode_utf8(w) && f@.len() >= 1)
                &&& toks_from(s@, j as int) == ts.skip(2)
            },
            Err(ParseError::Incomplete) => ({
                let ts = toks_from(s@, i as int);
                ts.len() == 0 || (ts.len() == 1 && ts[0] is Lt)
            }),
            Err(ParseError::Malformed) => ({
                let ts = toks_from(s@, i as int);
                ||| ts.len() >= 1 && !(ts[0] is Lt)
                ||| ts.len() >= 2 && ts[0] is Lt && !(ts[1] matches Tok::Word(w) && valid_utf8(
                    w,
                ))
            }),
        },
{
    let j0 = skip_spaces(s, i);
    if j0 == s.len() {
        return Err(ParseError::Incomplete);
    }
    if s[j0] != 60 {
        proof {
            assert(toks_from(s@, j0 as int).len() >= 1 && !(toks_from(s@, j0 as int)[0] is Lt));
        }
        return Err(ParseError::Malformed);
    }
    let ghost rest = toks_from(s@, j0 + 1);
    proof {
        assert(toks_from(s@, j0 as int) == seq![Tok::Lt] + rest);
    }
    match token(s, skip_spaces(s, j0 + 1)) {
        Ok(p) => {
            let (t, j2) = p;
            let j3 = skip_spaces(s, j2);
            proof {
                assert(toks_from(s@, i as int).skip(2) =~= toks_from(s@, j3 as int));
            }
            Ok((Input::Redirect(t), j3))
        },
        Err(ParseError::Incomplete) => {
            proof {
                assert(toks_from(s@, i as int) =~= seq![Tok::Lt]);
            }
            Err(ParseError::Incomplete)
        },
        Err(ParseError::Malformed) => Err(ParseError::Malformed),
    }
}

/// Read an output redirect: `>` (truncate) or two adjacent `>` (append)
/// followed by a file name token, whitespace around both consumed.
pub fn redirect_out(s: &[u8], i: usize) -> (r: Result<(Output, usize), ParseError>)
    requires
        i <= s@.len(),
    ensures
        match r {
            Ok(p) => {
                let (outp, j) = p;
                let ts = toks_from(s@, i as int);
                &&& i <= j <= s@.len()
                &&& ts.len() >= 2 && (ts[0] is Gt || ts[0] is GtGt)
                &&& ts[1] matches Tok::Word(w) && valid_utf8(w) && (outp matches
                Output::Redirect(rd) && (match rd {
                    OutputRedirect::Truncate(f) => ts[0] is Gt && f@ == decode_utf8(w)
                        && f@.len() >= 1,
                    OutputRedirect::Append(f) => ts[0] is GtGt && f@ == decode_utf8(w)
                        && f@.len() >= 1,
                }))
                &&& toks_from(s@, j as int) == ts.skip(2)
            },
            Err(ParseError::Incomplete) => ({
                let ts = toks_from(s@, i as int);
                ts.len() == 0 || (ts.len() == 1 && (ts[0] is Gt || ts[0] is GtGt))
            }),
            Err(ParseError::Malformed) => ({
                let ts = toks_from(s@, i as int);
                ||| ts.len() >= 1 && !(ts[0] is Gt || ts[0] is GtGt)
                ||| ts.len() >= 2 && (ts[0] is Gt || ts[0] is GtGt) && !(ts[1] matches
                Tok::Word(w) && valid_utf8(w))
            }),
        },
{
    let j0 = skip_spaces(s, i);
    if j0 == s.len() {
        return Err(ParseError::Incomplete);
    }
    if s[j0] != 62 {
        proof {
            assert(toks_from(s@, j0 as int).len() >= 1 && !(toks_from(s@, j0 as int)[0] is Gt)
                && !(toks_from(s@, j0 as int)[0] is GtGt));
        }
        return Err(ParseError::Malformed);
    }
    let append = j0 + 1 < s.len() && s[j0 + 1] == 62;
    let after = if append {
        j0 + 2
    } else {
        j0 + 1
    };
    let ghost rest = toks_from(s@, after as int);
    proof {
        if append {
            assert(toks_from(s@, j0 as int) == seq![Tok::GtGt] + rest);
        } else {
            assert(toks_from(s@, j0 as int) == seq![Tok::Gt] + rest);
        }
    }
    match token(s, skip_spaces(s, after)) {
        Ok(p) => {
            let (t, j2) = p;
            let j3 = skip_spaces(s, j2);
            proof {
                assert(toks_from(s@, i as int).skip(2) =~= toks_from(s@, j3 as int));
            }
            if append {
                Ok((Output::Redirect(OutputRedirect::Append(t)), j3))
            } else {
                Ok((Output::Redirect(OutputRedirect::Truncate(t)), j3))
            }
        },
        Err(ParseError::Incomplete) => {
            proof {
                if append {
                    assert(toks_from(s@, i as int) =~= seq![Tok::GtGt]);
                } else {
                    assert(toks_from(s@, i as int) =~= seq![Tok::Gt]);
                }
            }
            Err(ParseError::Incomplete)
        },
        Err(ParseError::Malformed) => Err(ParseError::Malformed),
    }
}

/// The executable input wiring carries the same file name as the parsed
/// one, and a redirect exactly where one was parsed.
pub open spec fn input_corresponds(inp: Input, pin: Option<Seq<u8>>) -> bool {
    match pin {
        None => inp == Input::Inherit,
        Some(w) => inp matches Input::Redirect(f) && f@ == decode_utf8(w),
    }
}

/// The executable output wiring carries the same file name and mode as the
/// parsed one, and a redirect exactly where one was parsed.
pub open spec fn output_corresponds(outp: Output, pout: Option<POut>) -> bool {
    match pout {
        None => outp == Output::Inherit,
        Some(POut::Trunc(w)) => outp matches Output::Redirect(rd) && rd matches
            OutputRedirect::Truncate(f) && f@ == decode_utf8(w),
        Some(POut::Append(w)) => outp matches Output::Redirect(rd) && rd matches
            OutputRedirect::Append(f) && f@ == decode_utf8(w),
    }
}

/// Parse one stage: its argument list, then at most one input redirect and
/// at most one output redirect in either order. The returned wiring never
/// mentions a pipe; the caller decides that from the stage's place.
fn parse_stage(s: &[u8], i: usize) -> (r: Result<(Vec<String>, Input, Output, usize), ParseError>)
    requires
        i <= s@.len(),
    ensures
        match r {
            Ok(p) => {
                let (args, inp, outp, j) = p;
                &&& i <= j <= s@.len()
                &&& p_stage(toks_from(s@, i as int)) matches Ok((pst, rest)) && {
                    &&& rest == toks_from(s@, j as int)
                    &&& args.deep_view() == decode_words(pst.args)
                    &&& args@.len() == pst.args.len()
                    &&& pst.args.len() >= 1
                    &&& input_corresponds(inp, pst.input)
                    &&& output_corresponds(outp, pst.output)
                }
                &&& inp matches Input::Redirect(f) ==> f@.len() >= 1
                &&& outp matches Output::Redirect(rd) ==> (match rd {
                    OutputRedirect::Truncate(f) => f@.len() >= 1,
                    OutputRedirect::Append(f) => f@.len() >= 1,
                })
            },
            Err(e) => p_stage(toks_from(s@, i as int)) == Err::<(PStage, Seq<Tok>),
                ParseError,
            >(e),
        },
{
    let ghost ts0 = toks_from(s@, i as int);
    let (args, start) = match argument_list(s, i) {
        Ok(p) => p,
        Err(e) => {
            return Err(e);
        },
    };
    let mut inp = Input::Inherit;
    let mut outp = Output::Inherit;
    let mut cur = start;
    let ghost mut pst = PStage { args: words_prefix(ts0), input: None, output: None };
    loop
        invariant_except_break
            i <= cur <= s@.len(),
            ts0 == toks_from(s@, i as int),
            p_stage(ts0) == p_redirs(toks_from(s@, cur as int), pst),
            args.deep_view() == decode_words(pst.args),
            args@.len() == pst.args.len(),
            pst.args.len() >= 1,
            input_corresponds(inp, pst.input),
            output_corresponds(outp, pst.output),
            inp matches Input::Redirect(f) ==> f@.len() >= 1,
            outp matches Output::Redirect(rd) ==> (match rd {
                OutputRedirect::Truncate(f) => f@.len() >= 1,
                OutputRedirect::Append(f) => f@.len() >= 1,
            }),
        ensures
            i <= cur <= s@.len(),
            p_stage(ts0) == Ok::<(PStage, Seq<Tok>), ParseError>((pst, toks_from(s@, cur as int))),
            ts0 == toks_from(s@, i as int),
            args.deep_view() == decode_words(pst.args),
            args@.len() == pst.args.len(),
            pst.args.len() >= 1,
            input_corresponds(inp, pst.input),
            output_corresponds(outp, pst.output),
            inp matches Input::Redirect(f) ==> f@.len() >= 1,
            outp matches Output::Redirect(rd) ==> (match rd {
                OutputRedirect::Truncate(f) => f@.len() >= 1,
                OutputRedirect::Append(f) => f@.len() >= 1,
            }),
        decreases s@.len() - cur,
    {
        let peek = skip_spaces(s, cur);
        if peek == s.len() {
            cur = peek;
            break;
        }
        let b = s[peek];
        if b == 60 && matches!(inp, Input::Inherit) {
            match redirect_in(s, cur) {
                Ok(p) => {
                    let (inp2, j) = p;
                    proof {
                        let ts = toks_from(s@, cur as int);
                        let w = ts[1]->Word_0;
                        pst = PStage { input: Some(w), ..pst };
                    }
                    inp = inp2;
                    cur = j;
                },
                Err(e) => {
                    return Err(e);
                },
            }
        } else if b == 62 && matches!(outp, Output::Inherit) {
            match redirect_out(s, cur) {
                Ok(p) => {
                    let (outp2, j) = p;
                    proof {
                        let ts = toks_from(s@, cur as int);
                        let w = ts[1]->Word_0;
                        pst = PStage {
                            output: Some(
                                if ts[0] is Gt {
                                    POut::Trunc(w)
                                } else {
                                    POut::Append(w)
                                },
                            ),
                            ..pst
                        };
                    }
                    outp = outp2;
                    cur = j;
                },
                Err(e) => {
                    return Err(e);
                },
            }
        } else {
            cur = peek;
            proof {
                let ts = toks_from(s@, cur as int);
                assert(ts.len() >= 1);
                if b == 60 {
                    assert(ts[0] is Lt && pst.input is Some);
                } else if b == 62 {
                    assert((ts[0] is Gt || ts[0] is GtGt) && pst.output is Some);
                } else {
                    assert(!(ts[0] is Lt) && !(ts[0] is Gt) && !(ts[0] is GtGt));
                }
            }
            break;
        }
    }
    Ok((args, inp, outp, cur))
}

/// Parse one whole process stage into a [`Process`] whose streams are
/// inherited unless redirected; the stage is viewed as a pipeline of its
/// own, so no pipe appears in its wiring.
pub fn process_car(s: &[u8], i: usize) -> (r: Result<(Process, usize), ParseError>)
    requires
        i <= s@.len(),
    ensures
        match r {
            Ok(p) => {
                let (proc, j) = p;
                &&& i <= j <= s@.len()
                &&& p_stage(toks_from(s@, i as int)) matches Ok((pst, rest)) && rest
                    == toks_from(s@, j as int) && proc@ == seq![stage_v(pst, true, true)]
            },
            Err(e) => p_stage(toks_from(s@, i as int)) == Err::<(PStage, Seq<Tok>),
                ParseError,
            >(e),
        },
{
    match parse_stage(s, i) {
        Ok(p) => {
            let (args, inp, outp, j) = p;
            let proc = Process::new(args, inp, outp);
            proof {
                assert(proc@ =~= seq![proc.head_stage()]);
            }
            Ok((proc, j))
        },
        Err(e) => Err(e),
    }
}

/// Link parsed stages into the owned pipeline chain, head first: every
/// stage but the first receives via pipe, every stage but the last sends
/// via pipe.
fn assemble(parts: Vec<(Vec<String>, Input, Output)>) -> (r: Process)
    requires
        parts@.len() >= 1,
        forall|k: int| 0 <= k < parts@.len() ==> !((#[trigger] parts@[k]).2 is Pipe),
    ensures
        r.stages().len() == parts@.len(),
        forall|k: int|
            0 <= k < parts@.len() ==> #[trigger] r.stages()[k] == (StageV {
                args: parts@[k].0.deep_view(),
                input: if k == 0 {
                    parts@[k].1@
                } else {
                    InputV::Pipe
                },
                output: if k == parts@.len() - 1 {
                    output_v(parts@[k].2)
                } else {
                    OutputV::Pipe
                },
            }),
{
    let ghost parts0 = parts@;
    let mut parts = parts;
    let p = parts.pop().unwrap();
    let mut chain = if parts.len() == 0 {
        Process::new(p.0, p.1, p.2)
    } else {
        Process::new(p.0, Input::Pipe, p.2)
    };
    proof {
        assert(chain.stages() =~= seq![chain.head_stage()]);
        assert(parts@ =~= parts0.take(parts@.len() as int));
    }
    loop
        invariant_except_break
            1 <= parts@.len() + 1 <= parts0.len(),
            parts@ == parts0.take(parts@.len() as int),
            chain.stages().len() == parts0.len() - parts@.len(),
            forall|t: int|
                0 <= t < chain.stages().len() ==> #[trigger] chain.stages()[t] == (StageV {
                    args: parts0[parts@.len() + t].0.deep_view(),
                    input: if parts@.len() + t == 0 {
                        parts0[parts@.len() + t].1@
                    } else {
                        InputV::Pipe
                    },
                    output: if parts@.len() + t == parts0.len() - 1 {
                        output_v(parts0[parts@.len() + t].2)
                    } else {
                        OutputV::Pipe
                    },
                }),
        ensures
            chain.stages().len() == parts0.len(),
            forall|t: int|
                0 <= t < chain.stages().len() ==> #[trigger] chain.stages()[t] == (StageV {
                    args: parts0[t].0.deep_view(),
                    input: if t == 0 {
                        parts0[t].1@
                    } else {
                        InputV::Pipe
                    },
                    output: if t == parts0.len() - 1 {
                        output_v(parts0[t].2)
                    } else {
                        OutputV::Pipe
                    },
                }),
        decreases parts@.len(),
    {
        if parts.len() == 0 {
            break;
        }
        let ghost old_parts = parts@;
        let ghost old_chain = chain;
        let q = parts.pop().unwrap();
        let inp = if parts.len() == 0 {
            q.1
        } else {
            Input::Pipe
        };
        chain = Process::new(q.0, inp, Output::Pipe(Box::new(chain)));
        proof {
            assert(old_parts.take(old_parts.len() - 1) =~= parts0.take(parts@.len() as int));
            assert(chain.stages() =~= seq![chain.head_stage()] + old_chain.stages());
        }
    }
    chain
}

/// The executable parts of one parsed stage agree with the token-level
/// parse of that stage.
pub open spec fn part_corresponds(part: (Vec<String>, Input, Output), pst: PStage) -> bool {
    &&& part.0.deep_view() == decode_words(pst.args)
    &&& part.0@.len() == pst.args.len()
    &&& pst.args.len() >= 1
    &&& input_corresponds(part.1, pst.input)
    &&& output_corresponds(part.2, pst.output)
    &&& !(part.2 is Pipe)
    &&& part.1 matches Input::Redirect(f) ==> f@.len() >= 1
    &&& part.2 matches Output::Redirect(rd) ==> (match rd {
        OutputRedirect::Truncate(f) => f@.len() >= 1,
        OutputRedirect::Append(f) => f@.len() >= 1,
    })
}

/// Check that nothing but job terminators (and whitespace) is left.
fn end_of_job(s: &[u8], i: usize) -> (r: bool)
    requires
        i <= s@.len(),
    ensures
        r == all_term(toks_from(s@, i as int)),
{
    let ghost rest0 = toks_from(s@, i as int);
    let mut e = i;
    loop
        invariant_except_break
            i <= e <= s@.len(),
            rest0 == toks_from(s@, i as int),
            all_term(rest0) == all_term(toks_from(s@, e as int)),
        ensures
            all_term(rest0),
        decreases s@.len() - e,
    {
        if e == s.len() {
            break;
        }
        let b = s[e];
        if b == 32 || b == 9 {
            proof {
                assert(toks_from(s@, e + 1) == toks_from(s@, e as int));
            }
            e = e + 1;
        } else if b == 59 || b == 13 || b == 10 {
            proof {
                let a = toks_from(s@, e as int);
                let t = toks_from(s@, e + 1);
                assert(a == seq![Tok::Term] + t);
                assert(all_term(a) <==> all_term(t)) by {
                    if all_term(t) {
                        assert forall|k: int| 0 <= k < a.len() implies (#[trigger] a[k])
                            is Term by {
                            if k >= 1 {
                                assert(a[k] == t[k - 1]);
                            }
                        }
                    }
                    if all_term(a) {
                        assert forall|k: int| 0 <= k < t.len() implies (#[trigger] t[k])
                            is Term by {
                            assert(t[k] == a[k + 1]);
                        }
                    }
                }
            }
            e = e + 1;
        } else {
            proof {
                assert(toks_from(s@, e as int).len() >= 1 && !(toks_from(s@, e as int)[0]
                    is Term));
                assert(!all_term(toks_from(s@, e as int)));
            }
            return false;
        }
    }
    true
}

/// Parse one line into a job, or report precisely why it cannot be one.
///
/// The contract ties the result to the token-level grammar: the function
/// returns exactly what [`p_job`] says of the line's token stream, so the
/// parse depends on the tokens alone and whitespace only separates them.
#[verifier::rlimit(50)]
pub fn parse_job(input: &[u8]) -> (r: Result<Job, ParseError>)
    ensures
        match r {
            Ok(job) => p_job(toks_from(input@, 0)) == Ok::<JobV, ParseError>(job@)
                && job@.wf(),
            Err(e) => p_job(toks_from(input@, 0)) == Err::<JobV, ParseError>(e),
        },
{
    let s = input;
    let ghost ts0 = toks_from(s@, 0);
    let (args0, inp0, outp0, c0) = match parse_stage(s, 0) {
        Ok(p) => p,
        Err(e) => {
            return Err(e);
        },
    };
    let mut prev_out_inherit = matches!(outp0, Output::Inherit);
    let mut parts: Vec<(Vec<String>, Input, Output)> = Vec::new();
    let ghost mut psts: Seq<PStage> = seq![p_stage(ts0)->Ok_0.0];
    parts.push((args0, inp0, outp0));
    let mut cur = c0;
    loop
        invariant_except_break
            s == input,
            cur <= s@.len(),
            ts0 == toks_from(s@, 0),
            psts.len() == parts@.len(),
            psts.len() >= 1,
            p_job(ts0) == p_pipes(toks_from(s@, cur as int), psts),
            forall|k: int|
                0 <= k < psts.len() ==> part_corresponds(#[trigger] parts@[k], psts[k]),
            forall|k: int| 1 <= k < psts.len() ==> (#[trigger] psts[k]).input is None,
            forall|k: int| 0 <= k < psts.len() - 1 ==> (#[trigger] psts[k]).output is None,
            prev_out_inherit <==> psts.last().output is None,
        ensures
            s == input,
            cur <= s@.len(),
            ts0 == toks_from(s@, 0),
            psts.len() == parts@.len(),
            psts.len() >= 1,
            p_job(ts0) == p_end(toks_from(s@, cur as int), psts),
            forall|k: int|
                0 <= k < psts.len() ==> part_corresponds(#[trigger] parts@[k], psts[k]),
            forall|k: int| 1 <= k < psts.len() ==> (#[trigger] psts[k]).input is None,
            forall|k: int| 0 <= k < psts.len() - 1 ==> (#[trigger] psts[k]).output is None,
        decreases s@.len() - cur,
    {
        let peek = skip_spaces(s, cur);
        if peek == s.len() {
            cur = peek;
            break;
        }
        if s[peek] != 124 {
            cur = peek;
            proof {
                assert(toks_from(s@, cur as int).len() >= 1 && !(toks_from(s@, cur as int)[0]
                    is Pipe));
            }
            break;
        }
        proof {
            assert(toks_from(s@, peek as int) == seq![Tok::Pipe] + toks_from(s@, peek + 1));
        }
        if !prev_out_inherit {
            proof {
                assert(p_pipes(toks_from(s@, cur as int), psts) == Err::<JobV, ParseError>(
                    ParseError::Malformed,
                ));
            }
            return Err(ParseError::Malformed);
        }
        cur = peek + 1;
        proof {
            assert((seq![Tok::Pipe] + toks_from(s@, cur as int)).drop_first() =~= toks_from(
                s@,
                cur as int,
            ));
        }
        match parse_stage(s, cur) {
            Err(e) => {
                return Err(e);
            },
            Ok(p) => {
                let (args, inp, outp, j) = p;
                if !matches!(inp, Input::Inherit) {
                    return Err(ParseError::Malformed);
                }
                prev_out_inherit = matches!(outp, Output::Inherit);
                let ghost old_psts = psts;
                let ghost old_parts = parts@;
                proof {
                    psts = psts.push(p_stage(toks_from(s@, cur as int))->Ok_0.0);
                }
                parts.push((args, inp, outp));
                cur = j;
                proof {
                    assert(forall|k: int|
                        0 <= k < old_psts.len() ==> #[trigger] psts[k] == old_psts[k]
                            && parts@[k] == old_parts[k]);
                }
            },
        }
    }
    let peek = skip_spaces(s, cur);
    let bg = if peek < s.len() {
        s[peek] == 38
    } else {
        false
    };
    let e = if bg {
        peek + 1
    } else {
        peek
    };
    let ghost rest0 = toks_from(s@, e as int);
    proof {
        if bg {
            assert(toks_from(s@, peek as int) == seq![Tok::Amp] + rest0);
            assert((seq![Tok::Amp] + rest0).drop_first() =~= rest0);
            assert(toks_from(s@, peek as int).len() >= 1 && toks_from(s@, peek as int)[0]
                is Amp);
        } else {
            if peek < s@.len() {
                assert(toks_from(s@, peek as int).len() == 0 || !(toks_from(s@, peek as int)[0]
                    is Amp));
            }
        }
    }
    if !end_of_job(s, e) {
        proof {
            assert(p_end(toks_from(s@, cur as int), psts) == Err::<JobV, ParseError>(
                ParseError::Malformed,
            ));
        }
        return Err(ParseError::Malformed);
    }
    let mode = if bg {
        JobMode::BackGround
    } else {
        JobMode::ForeGround
    };
    let chain = assemble(parts);
    let job = Job::new(chain, mode);
    proof {
        assert forall|k: int| 0 <= k < psts.len() implies chain.stages()[k] == stages_v(
            psts,
        )[k] by {
            assert(part_corresponds(parts@[k], psts[k]));
        }
        assert(job@.stages =~= stages_v(psts));
        assert forall|k: int| 0 <= k < job@.stages.len() implies {
            &&& (#[trigger] job@.stages[k]).args.len() >= 1
            &&& (job@.stages[k].input is Pipe <==> k > 0)
            &&& (job@.stages[k].output is Pipe <==> k < job@.stages.len() - 1)
            &&& (job@.stages[k].input matches InputV::Redirect(f) ==> f.len() >= 1)
            &&& {
                ||| job@.stages[k].output matches OutputV::Truncate(f) && f.len() >= 1
                ||| job@.stages[k].output matches OutputV::Append(f) && f.len() >= 1
                ||| job@.stages[k].output is Inherit
                ||| job@.stages[k].output is Pipe
            }
        } by {
            assert(part_corresponds(parts@[k], psts[k]));
            assert(chain.stages()[k] == job@.stages[k]);
        }
        assert(job@.wf());
    }
    Ok(job)
}

} // verus!
