//! The shell lexer: a character-by-character state machine over an input
//! line.  It tracks a quote mode (none, single, double), a pending-escape
//! flag and an accumulating token buffer, and emits one token per word.
//! Adjacent quoted and unquoted runs that no unquoted blank separates merge
//! into a single token.

use vstd::prelude::*;
use crate::ParseError;
use crate::strutil::{views, chars_of, string_from_chars, lemma_views_push};

verus! {

/// The quoting context the lexer is in.
#[derive(Clone, Copy, Debug, PartialEq, Eq, Structural)]
pub enum QuoteMode {
    Unquoted,
    InSingle,
    InDouble,
}

/// The lexer's whole state: tokens already emitted, the buffer of the word
/// being built (`None` between words), the quote mode, and whether a
/// backslash is waiting for the character it escapes.
pub struct LexState {
    pub toks: Seq<Seq<char>>,
    pub cur: Option<Seq<char>>,
    pub mode: QuoteMode,
    pub esc: bool,
}

/// Unquoted blanks end a word: space or tab.
pub open spec fn is_blank(c: char) -> bool {
    c == ' ' || c == '\t'
}

/// Inside double quotes a backslash escapes only these characters.
pub open spec fn dq_special(c: char) -> bool {
    c == '\\' || c == '$' || c == '"' || c == '\n'
}

/// The buffer of the word being built; empty between words.
pub open spec fn cur_buf(st: LexState) -> Seq<char> {
    match st.cur {
        Some(b) => b,
        None => Seq::empty(),
    }
}

pub open spec fn lex_init() -> LexState {
    LexState { toks: Seq::empty(), cur: None, mode: QuoteMode::Unquoted, esc: false }
}

/// One character of lexing.
pub open spec fn lex_step(st: LexState, c: char) -> LexState {
    if st.esc {
        if st.mode is InDouble && !dq_special(c) {
            LexState { cur: Some(cur_buf(st).push('\\').push(c)), esc: false, ..st }
        } else {
            LexState { cur: Some(cur_buf(st).push(c)), esc: false, ..st }
        }
    } else {
        match st.mode {
            QuoteMode::Unquoted => {
                if is_blank(c) {
                    match st.cur {
                        Some(b) => LexState { toks: st.toks.push(b), cur: None, ..st },
                        None => st,
                    }
                } else if c == '\'' {
                    LexState { cur: Some(cur_buf(st)), mode: QuoteMode::InSingle, ..st }
                } else if c == '"' {
                    LexState { cur: Some(cur_buf(st)), mode: QuoteMode::InDouble, ..st }
                } else if c == '\\' {
                    LexState { cur: Some(cur_buf(st)), esc: true, ..st }
                } else {
                    LexState { cur: Some(cur_buf(st).push(c)), ..st }
                }
            },
            QuoteMode::InSingle => {
                if c == '\'' {
                    LexState { mode: QuoteMode::Unquoted, ..st }
                } else {
                    LexState { cur: Some(cur_buf(st).push(c)), ..st }
                }
            },
            QuoteMode::InDouble => {
                if c == '"' {
                    LexState { mode: QuoteMode::Unquoted, ..st }
                } else if c == '\\' {
                    LexState { esc: true, ..st }
                } else {
                    LexState { cur: Some(cur_buf(st).push(c)), ..st }
                }
            },
        }
    }
}

/// Lexing a whole character sequence from a given state.
pub open spec fn lex_run(st: LexState, s: Seq<char>) -> LexState
    decreases s.len(),
{
    if s.len() == 0 {
        st
    } else {
        lex_run(lex_step(st, s[0]), s.drop_first())
    }
}

/// End of input: a pending backslash is kept literally, and an open word is
/// emitted as the final token.
pub open spec fn lex_finish(st: LexState) -> Seq<Seq<char>> {
    match st.cur {
        Some(b) => st.toks.push(if st.esc {
            b.push('\\')
        } else {
            b
        }),
        None => st.toks,
    }
}

/// A line is well formed when every quoted run is closed by end of input.
pub open spec fn lex_ok(s: Seq<char>) -> bool {
    lex_run(lex_init(), s).mode is Unquoted
}

/// The token list a well-formed line lexes to.
pub open spec fn lex_spec(s: Seq<char>) -> Seq<Seq<char>> {
    lex_finish(lex_run(lex_init(), s))
}

pub proof fn lemma_lex_run_snoc(st: LexState, s: Seq<char>, c: char)
    ensures
        lex_run(st, s.push(c)) == lex_step(lex_run(st, s), c),
    decreases s.len(),
{
    if s.len() == 0 {
        assert(s.push(c)[0] == c);
        assert(s.push(c).drop_first() =~= Seq::<char>::empty());
        assert(lex_run(st, s.push(c)) == lex_run(lex_step(st, c), Seq::<char>::empty()));
        assert(lex_run(lex_step(st, c), Seq::<char>::empty()) == lex_step(st, c));
    } else {
        assert(s.push(c)[0] == s[0]);
        assert(s.push(c).drop_first() =~= s.drop_first().push(c));
        lemma_lex_run_snoc(lex_step(st, s[0]), s.drop_first(), c);
    }
}

/// Split an input line into its tokens under the quoting and escape rules.
/// A quoted run left open at end of input is refused.
pub fn parse_arguments(input: &str) -> (r: Result<Vec<String>, ParseError>)
    ensures
        lex_ok(input@) ==> (r matches Ok(toks) && views(toks@) == lex_spec(input@)),
        !lex_ok(input@) ==> r == Err::<Vec<String>, ParseError>(ParseError::UnterminatedQuote),
{
    let cs = chars_of(input);
    let n = cs.len();
    let mut i: usize = 0;
    let mut toks: Vec<String> = Vec::new();
    let mut buf: Vec<char> = Vec::new();
    let mut in_word = false;
    let mut mode = QuoteMode::Unquoted;
    let mut esc = false;
    proof {
        assert(input@.take(0) =~= Seq::<char>::empty());
        assert(views(toks@) =~= Seq::<Seq<char>>::empty());
    }
    while i < n
        invariant
            i <= n,
            n == cs@.len(),
            cs@ == input@,
            !in_word ==> buf@ == Seq::<char>::empty(),
            esc ==> in_word,
            !(mode is Unquoted) ==> in_word,
            lex_run(lex_init(), input@.take(i as int)) == (LexState {
                toks: views(toks@),
                cur: if in_word {
                    Some(buf@)
                } else {
                    None
                },
                mode: mode,
                esc: esc,
            }),
        decreases n - i,
    {
        let ghost st_before = lex_run(lex_init(), input@.take(i as int));
        let c = cs[i];
        if esc {
            match mode {
                QuoteMode::InDouble => {
                    if c == '\\' || c == '$' || c == '"' || c == '\n' {
                        buf.push(c);
                    } else {
                        buf.push('\\');
                        buf.push(c);
                    }
                },
                _ => {
                    buf.push(c);
                },
            }
            esc = false;
        } else {
            match mode {
                QuoteMode::Unquoted => {
                    if c == ' ' || c == '\t' {
                        if in_word {
                            let t = string_from_chars(&buf);
                            proof {
                                lemma_views_push(toks@, t);
                            }
                            toks.push(t);
                            buf = Vec::new();
                            in_word = false;
                        }
                    } else if c == '\'' {
                        in_word = true;
                        mode = QuoteMode::InSingle;
                    } else if c == '"' {
                        in_word = true;
                        mode = QuoteMode::InDouble;
                    } else if c == '\\' {
                        in_word = true;
                        esc = true;
                    } else {
                        in_word = true;
                        buf.push(c);
                    }
                },
                QuoteMode::InSingle => {
                    if c == '\'' {
                        mode = QuoteMode::Unquoted;
                    } else {
                        buf.push(c);
                    }
                },
                QuoteMode::InDouble => {
                    if c == '"' {
                        mode = QuoteMode::Unquoted;
                    } else if c == '\\' {
                        esc = true;
                    } else {
                        buf.push(c);
                    }
                },
            }
        }
        i += 1;
        proof {
            assert(input@.take(i as int) =~= input@.take(i - 1).push(input@[i - 1]));
            lemma_lex_run_snoc(lex_init(), input@.take(i - 1), input@[i - 1]);
        }
    }
    proof {
        assert(input@.take(n as int) =~= input@);
    }
    match mode {
        QuoteMode::Unquoted => {
            if esc {
                buf.push('\\');
            }
            if in_word {
                let t = string_from_chars(&buf);
                proof {
                    lemma_views_push(toks@, t);
                }
                toks.push(t);
            }
            Ok(toks)
        },
        _ => Err(ParseError::UnterminatedQuote),
    }
}

pub proof fn lemma_lex_run_app(st: LexState, a: Seq<char>, b: Seq<char>)
    ensures
        lex_run(st, a + b) == lex_run(lex_run(st, a), b),
    decreases a.len(),
{
    if a.len() == 0 {
        assert(a + b =~= b);
    } else {
        assert((a + b).drop_first() =~= a.drop_first() + b);
        assert((a + b)[0] == a[0]);
        lemma_lex_run_app(lex_step(st, a[0]), a.drop_first(), b);
    }
}

proof fn lemma_lex_run_one(st: LexState, c: char)
    ensures
        lex_run(st, seq![c]) == lex_step(st, c),
{
    assert(seq![c][0] == c);
    assert(seq![c].drop_first() =~= Seq::<char>::empty());
    assert(lex_run(lex_step(st, c), Seq::<char>::empty()) == lex_step(st, c));
}

/// Lexing inside single quotes appends every character literally until the
/// closing quote.
proof fn lemma_single_mode_run(st: LexState, body: Seq<char>)
    requires
        st.mode is InSingle,
        !st.esc,
        st.cur is Some,
        forall|k: int| 0 <= k < body.len() ==> body[k] != '\'',
    ensures
        lex_run(st, body) == (LexState {
            toks: st.toks,
            cur: Some(cur_buf(st) + body),
            mode: QuoteMode::InSingle,
            esc: false,
        }),
    decreases body.len(),
{
    if body.len() == 0 {
        assert(cur_buf(st) + body =~= cur_buf(st));
    } else {
        let st2 = lex_step(st, body[0]);
        lemma_single_mode_run(st2, body.drop_first());
        assert(cur_buf(st2) + body.drop_first() =~= cur_buf(st) + body);
    }
}

/// Law: every character inside a single-quoted run appears literally in the
/// token under construction — lexing `'body'` from any unquoted,
/// escape-free state emits nothing and appends exactly `body` to the
/// current word.
pub proof fn lemma_single_quotes_literal(st: LexState, body: Seq<char>)
    requires
        st.mode is Unquoted,
        !st.esc,
        forall|k: int| 0 <= k < body.len() ==> body[k] != '\'',
    ensures
        lex_run(st, seq!['\''] + body + seq!['\'']) == (LexState {
            toks: st.toks,
            cur: Some(cur_buf(st) + body),
            mode: QuoteMode::Unquoted,
            esc: false,
        }),
{
    let open = seq!['\''];
    let close = seq!['\''];
    lemma_lex_run_app(st, open + body, close);
    lemma_lex_run_app(st, open, body);
    let st1 = lex_step(st, '\'');
    lemma_lex_run_one(st, '\'');
    assert(st1.cur == Some(cur_buf(st)));
    lemma_single_mode_run(st1, body);
    let st2 = lex_run(st1, body);
    assert(cur_buf(st1) + body =~= cur_buf(st) + body);
    lemma_lex_run_one(st2, '\'');
}

/// The canonical quoting of one character: a backslash escape.
pub open spec fn escape_all(t: Seq<char>) -> Seq<char>
    decreases t.len(),
{
    if t.len() == 0 {
        Seq::empty()
    } else {
        seq!['\\', t[0]] + escape_all(t.drop_first())
    }
}

/// The canonical quoting of one token: every character backslash-escaped,
/// and an empty token written as a pair of single quotes.
pub open spec fn quote_token(t: Seq<char>) -> Seq<char> {
    if t.len() == 0 {
        seq!['\'', '\'']
    } else {
        escape_all(t)
    }
}

/// The canonical quoting of a token list: quoted tokens joined by single
/// spaces.
pub open spec fn requote(ts: Seq<Seq<char>>) -> Seq<char>
    decreases ts.len(),
{
    if ts.len() == 0 {
        Seq::empty()
    } else if ts.len() == 1 {
        quote_token(ts[0])
    } else {
        quote_token(ts[0]) + seq![' '] + requote(ts.drop_first())
    }
}

proof fn lemma_escape_all_run(st: LexState, t: Seq<char>)
    requires
        st.mode is Unquoted,
        !st.esc,
        t.len() > 0,
    ensures
        lex_run(st, escape_all(t)) == (LexState {
            toks: st.toks,
            cur: Some(cur_buf(st) + t),
            mode: QuoteMode::Unquoted,
            esc: false,
        }),
    decreases t.len(),
{
    let pair = seq!['\\', t[0]];
    assert(escape_all(t) == pair + escape_all(t.drop_first()));
    lemma_lex_run_app(st, pair, escape_all(t.drop_first()));
    let stb = lex_step(st, '\\');
    let st2 = lex_step(stb, t[0]);
    assert(pair =~= seq!['\\'] + seq![t[0]]);
    lemma_lex_run_app(st, seq!['\\'], seq![t[0]]);
    lemma_lex_run_one(st, '\\');
    lemma_lex_run_one(stb, t[0]);
    assert(lex_run(st, pair) == st2);
    assert(st2.cur == Some(cur_buf(st).push(t[0])));
    if t.drop_first().len() == 0 {
        assert(lex_run(st2, escape_all(t.drop_first())) == st2);
        assert(cur_buf(st).push(t[0]) =~= cur_buf(st) + t);
    } else {
        lemma_escape_all_run(st2, t.drop_first());
        assert(cur_buf(st2) + t.drop_first() =~= cur_buf(st) + t);
    }
}

proof fn lemma_quote_token_run(st: LexState, t: Seq<char>)
    requires
        st.mode is Unquoted,
        !st.esc,
        st.cur is None,
    ensures
        lex_run(st, quote_token(t)) == (LexState {
            toks: st.toks,
            cur: Some(t),
            mode: QuoteMode::Unquoted,
            esc: false,
        }),
{
    if t.len() == 0 {
        lemma_single_quotes_literal(st, Seq::empty());
        assert(seq!['\''] + Seq::<char>::empty() + seq!['\''] =~= quote_token(t));
        assert(cur_buf(st) + Seq::<char>::empty() =~= t);
    } else {
        lemma_escape_all_run(st, t);
        assert(cur_buf(st) + t =~= t);
    }
}

proof fn lemma_requote_run(st: LexState, ts: Seq<Seq<char>>)
    requires
        st.mode is Unquoted,
        !st.esc,
        st.cur is None,
        ts.len() > 0,
    ensures
        lex_run(st, requote(ts)) == (LexState {
            toks: st.toks + ts.drop_last(),
            cur: Some(ts.last()),
            mode: QuoteMode::Unquoted,
            esc: false,
        }),
    decreases ts.len(),
{
    if ts.len() == 1 {
        lemma_quote_token_run(st, ts[0]);
        assert(st.toks + ts.drop_last() =~= st.toks);
    } else {
        let q = quote_token(ts[0]);
        let sp = seq![' '];
        let rest = requote(ts.drop_first());
        assert(requote(ts) == q + sp + rest);
        lemma_lex_run_app(st, q + sp, rest);
        lemma_lex_run_app(st, q, sp);
        lemma_quote_token_run(st, ts[0]);
        let st1 = lex_run(st, q);
        let st2 = lex_step(st1, ' ');
        lemma_lex_run_one(st1, ' ');
        assert(lex_run(st1, sp) == st2);
        assert(st2 == (LexState {
            toks: st.toks.push(ts[0]),
            cur: None::<Seq<char>>,
            mode: QuoteMode::Unquoted,
            esc: false,
        }));
        lemma_requote_run(st2, ts.drop_first());
        assert(st.toks.push(ts[0]) + ts.drop_first().drop_last() =~= st.toks + ts.drop_last());
        assert(ts.drop_first().last() == ts.last());
    }
}

/// Law: re-quoting any token list under the canonical quoting and lexing
/// the result yields exactly that token list again.
pub proof fn lemma_requote_round_trip(ts: Seq<Seq<char>>)
    ensures
        lex_ok(requote(ts)),
        lex_spec(requote(ts)) == ts,
{
    if ts.len() == 0 {
        assert(lex_run(lex_init(), requote(ts)) == lex_init());
        assert(lex_spec(requote(ts)) =~= ts);
    } else {
        lemma_requote_run(lex_init(), ts);
        let st = lex_run(lex_init(), requote(ts));
        assert(lex_spec(requote(ts)) == st.toks.push(ts.last()));
        assert(Seq::<Seq<char>>::empty() + ts.drop_last() =~= ts.drop_last());
        assert(ts.drop_last().push(ts.last()) =~= ts);
    }
}

/// Law: lexing a well-formed line, re-quoting the tokens canonically and
/// lexing again gives the same token list.
pub proof fn lemma_lex_requote_round_trip(line: Seq<char>)
    requires
        lex_ok(line),
    ensures
        lex_ok(requote(lex_spec(line))),
        lex_spec(requote(lex_spec(line))) == lex_spec(line),
{
    lemma_requote_round_trip(lex_spec(line));
}

proof fn lemma_escape_all_push(t: Seq<char>, c: char)
    ensures
        escape_all(t.push(c)) == escape_all(t) + seq!['\\', c],
    decreases t.len(),
{
    if t.len() == 0 {
        assert(t.push(c)[0] == c);
        assert(t.push(c).drop_first() =~= Seq::<char>::empty());
        assert(escape_all(Seq::<char>::empty()) == Seq::<char>::empty());
        assert(escape_all(t.push(c)) =~= seq!['\\', c]);
        assert(escape_all(t) + seq!['\\', c] =~= seq!['\\', c]);
    } else {
        assert(t.push(c)[0] == t[0]);
        assert(t.push(c).drop_first() =~= t.drop_first().push(c));
        lemma_escape_all_push(t.drop_first(), c);
        assert(seq!['\\', t[0]] + (escape_all(t.drop_first()) + seq!['\\', c]) =~= (seq!['\\', t[0]]
            + escape_all(t.drop_first())) + seq!['\\', c]);
    }
}

proof fn lemma_requote_push(ts: Seq<Seq<char>>, t: Seq<char>)
    ensures
        requote(ts.push(t)) == if ts.len() == 0 {
            quote_token(t)
        } else {
            (requote(ts) + seq![' '] + quote_token(t))
        },
    decreases ts.len(),
{
    if ts.len() == 0 {
        assert(ts.push(t)[0] == t);
    } else {
        assert(ts.push(t)[0] == ts[0]);
        assert(ts.push(t).drop_first() =~= ts.drop_first().push(t));
        lemma_requote_push(ts.drop_first(), t);
        if ts.len() > 1 {
            assert(quote_token(ts[0]) + seq![' '] + (requote(ts.drop_first()) + seq![' ']
                + quote_token(t)) =~= (quote_token(ts[0]) + seq![' '] + requote(ts.drop_first()))
                + seq![' '] + quote_token(t));
        }
    }
}

/// Quote a token list canonically: each character backslash-escaped, empty
/// tokens as `''`, tokens joined by single spaces.  Lexing the result gives
/// the same tokens back.
pub fn requote_tokens(toks: &Vec<String>) -> (r: String)
    ensures
        r@ == requote(views(toks@)),
{
    let mut out: Vec<char> = Vec::new();
    let mut i: usize = 0;
    while i < toks.len()
        invariant
            i <= toks@.len(),
            out@ == requote(views(toks@).take(i as int)),
        decreases toks@.len() - i,
    {
        if i > 0 {
            out.push(' ');
        }
        let ghost base = out@;
        let cs = chars_of(toks[i].as_str());
        if cs.len() == 0 {
            out.push('\'');
            out.push('\'');
            proof {
                assert(out@ =~= base + quote_token(toks@[i as int]@));
            }
        } else {
            let m = cs.len();
            let mut j: usize = 0;
            while j < m
                invariant
                    j <= m,
                    m == cs@.len(),
                    out@ == base + escape_all(cs@.take(j as int)),
                decreases m - j,
            {
                out.push('\\');
                out.push(cs[j]);
                j += 1;
                proof {
                    assert(cs@.take(j as int) =~= cs@.take(j - 1).push(cs@[j - 1]));
                    lemma_escape_all_push(cs@.take(j - 1), cs@[j - 1]);
                    assert(base + (escape_all(cs@.take(j - 1)) + seq!['\\', cs@[j - 1]]) =~= (base
                        + escape_all(cs@.take(j - 1))) + seq!['\\', cs@[j - 1]]);
                }
            }
            proof {
                assert(cs@.take(m as int) =~= cs@);
            }
        }
        i += 1;
        proof {
            assert(views(toks@).take(i as int) =~= views(toks@).take(i - 1).push(toks@[i - 1]@));
            lemma_requote_push(views(toks@).take(i - 1), toks@[i - 1]@);
            if i > 1 {
                assert(out@ =~= (requote(views(toks@).take(i - 1)) + seq![' ']) + quote_token(
                    toks@[i - 1]@,
                ));
                assert((requote(views(toks@).take(i - 1)) + seq![' ']) + quote_token(toks@[i - 1]@)
                    =~= requote(views(toks@).take(i - 1)) + seq![' '] + quote_token(toks@[i - 1]@));
            }
        }
    }
    proof {
        assert(views(toks@).take(toks@.len() as int) =~= views(toks@));
    }
    string_from_chars(&out)
}

} // verus!
