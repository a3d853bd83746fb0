//! The tab-completion engine.  Given the line, the cursor and the candidate
//! names (built-ins and PATH entries), it computes the word under the
//! cursor, the matching candidates sorted and without duplicates, and the
//! completion policy: extend by the longest common prefix, finish a unique
//! match with a trailing space, ring the bell on the first fruitless press,
//! and list the matches on the second.

use vstd::prelude::*;
use vstd::string::*;
use crate::lexer::is_blank;
use crate::strutil::{views, clone_strings, is_prefix, str_eq, str_starts_with};

verus! {

/// Where the word under the cursor begins: scanning left from `pos`, the
/// first position whose left neighbour is a blank.
pub open spec fn word_start(line: Seq<char>, pos: int) -> int
    decreases pos,
{
    if pos <= 0 {
        0
    } else if is_blank(line[pos - 1]) {
        pos
    } else {
        word_start(line, pos - 1)
    }
}

/// The run of non-blank characters ending at the cursor.
pub open spec fn word_at(line: Seq<char>, pos: int) -> Seq<char> {
    line.subrange(word_start(line, pos), pos)
}

/// The current word: the run of non-blank characters ending at the cursor.
pub fn current_word(line: &str, pos: usize) -> (r: String)
    requires
        pos <= line@.len(),
    ensures
        r@ == word_at(line@, pos as int),
{
    let mut start: usize = pos;
    let mut scanning = true;
    while scanning
        invariant
            0 <= start <= pos <= line@.len(),
            word_start(line@, pos as int) == word_start(line@, start as int),
            !scanning ==> word_start(line@, start as int) == start as int,
        decreases start, (if scanning {
            1int
        } else {
            0int
        }),
    {
        if start == 0 {
            scanning = false;
        } else {
            let c = line.get_char(start - 1);
            if c == ' ' || c == '\t' {
                scanning = false;
            } else {
                start -= 1;
            }
        }
    }
    let w = line.substring_char(start, pos);
    String::from_str(w)
}

/// Strict lexicographic order on character sequences, by code point.
pub open spec fn lex_lt(a: Seq<char>, b: Seq<char>) -> bool
    decreases a.len(),
{
    if b.len() == 0 {
        false
    } else if a.len() == 0 {
        true
    } else if (a[0] as int) < (b[0] as int) {
        true
    } else if a[0] == b[0] {
        lex_lt(a.drop_first(), b.drop_first())
    } else {
        false
    }
}

pub proof fn lemma_lex_lt_connected(a: Seq<char>, b: Seq<char>)
    ensures
        lex_lt(a, b) || lex_lt(b, a) || a == b,
    decreases a.len(),
{
    if a.len() == 0 && b.len() == 0 {
        assert(a =~= b);
    } else if a.len() > 0 && b.len() > 0 && a[0] == b[0] {
        lemma_lex_lt_connected(a.drop_first(), b.drop_first());
        if a.drop_first() == b.drop_first() {
            assert(a =~= seq![a[0]] + a.drop_first());
            assert(b =~= seq![b[0]] + b.drop_first());
        }
    }
}

pub proof fn lemma_lex_lt_asymmetric(a: Seq<char>, b: Seq<char>)
    ensures
        !(lex_lt(a, b) && lex_lt(b, a)),
    decreases a.len(),
{
    if a.len() > 0 && b.len() > 0 && a[0] == b[0] {
        lemma_lex_lt_asymmetric(a.drop_first(), b.drop_first());
    }
}

pub proof fn lemma_lex_lt_transitive(a: Seq<char>, b: Seq<char>, c: Seq<char>)
    requires
        lex_lt(a, b),
        lex_lt(b, c),
    ensures
        lex_lt(a, c),
    decreases a.len(),
{
    if a.len() > 0 && b.len() > 0 && c.len() > 0 && a[0] == b[0] && b[0] == c[0] {
        lemma_lex_lt_transitive(a.drop_first(), b.drop_first(), c.drop_first());
    }
}

/// Compare two strings in the lexicographic order.
pub fn str_less(a: &str, b: &str) -> (r: bool)
    ensures
        r == lex_lt(a@, b@),
{
    let na = a.unicode_len();
    let nb = b.unicode_len();
    let mut i: usize = 0;
    proof {
        assert(a@.skip(0) =~= a@);
        assert(b@.skip(0) =~= b@);
    }
    while i < na && i < nb
        invariant
            i <= na,
            i <= nb,
            na == a@.len(),
            nb == b@.len(),
            lex_lt(a@, b@) == lex_lt(a@.skip(i as int), b@.skip(i as int)),
        decreases na - i,
    {
        let ca = a.get_char(i);
        let cb = b.get_char(i);
        let ghost sa = a@.skip(i as int);
        let ghost sb = b@.skip(i as int);
        proof {
            assert(sa[0] == a@[i as int]);
            assert(sb[0] == b@[i as int]);
        }
        if ca < cb {
            return true;
        }
        if cb < ca {
            return false;
        }
        i += 1;
        proof {
            assert(sa.drop_first() =~= a@.skip(i as int));
            assert(sb.drop_first() =~= b@.skip(i as int));
        }
    }
    proof {
        if na == i {
            assert(a@.skip(i as int).len() == 0);
        } else {
            assert(b@.skip(i as int).len() == 0);
        }
    }
    na < nb
}

/// Strictly sorted in the lexicographic order, hence duplicate-free.
pub open spec fn sorted_strict(ts: Seq<Seq<char>>) -> bool {
    forall|i: int, j: int| 0 <= i < j < ts.len() ==> lex_lt(ts[i], ts[j])
}

proof fn lemma_contains_insert(s: Seq<Seq<char>>, i: int, x: Seq<char>, t: Seq<char>)
    requires
        0 <= i <= s.len(),
    ensures
        s.insert(i, x).contains(t) <==> (s.contains(t) || t == x),
{
    let s2 = s.insert(i, x);
    if s2.contains(t) {
        let k = choose|k: int| 0 <= k < s2.len() && s2[k] == t;
        if k < i {
            assert(s[k] == t);
        } else if k == i {
        } else {
            assert(s[k - 1] == t);
        }
    }
    if s.contains(t) {
        let k = choose|k: int| 0 <= k < s.len() && s[k] == t;
        if k < i {
            assert(s2[k] == t);
        } else {
            assert(s2[k + 1] == t);
        }
    }
    if t == x {
        assert(s2[i] == t);
    }
}

proof fn lemma_contains_push(s: Seq<Seq<char>>, x: Seq<char>, t: Seq<char>)
    ensures
        s.push(x).contains(t) <==> (s.contains(t) || t == x),
{
    assert(s.push(x) =~= s.insert(s.len() as int, x));
    lemma_contains_insert(s, s.len() as int, x, t);
}

/// Insert a string into a strictly sorted vector, keeping it sorted and
/// dropping the string if it is already present.
fn insert_sorted(v: &mut Vec<String>, s: String)
    requires
        sorted_strict(views(old(v)@)),
    ensures
        sorted_strict(views(final(v)@)),
        forall|t: Seq<char>| #[trigger]
            views(final(v)@).contains(t) <==> (views(old(v)@).contains(t) || t == s@),
{
    let ghost vs0 = views(v@);
    let mut i: usize = 0;
    let mut scanning = true;
    while scanning
        invariant
            i <= v@.len(),
            views(v@) == vs0,
            sorted_strict(vs0),
            forall|j: int| 0 <= j < i ==> lex_lt(vs0[j], s@),
            !scanning ==> (i == v@.len() || !lex_lt(vs0[i as int], s@)),
        decreases v@.len() - i, (if scanning {
            1int
        } else {
            0int
        }),
    {
        if i == v.len() {
            scanning = false;
        } else if !str_less(&v[i], s.as_str()) {
            scanning = false;
        } else {
            i += 1;
        }
    }
    if i < v.len() {
        let dup = !str_less(s.as_str(), &v[i]);
        if dup {
            proof {
                lemma_lex_lt_connected(vs0[i as int], s@);
                assert(vs0[i as int] == s@);
                assert(vs0.contains(s@));
                assert(forall|t: Seq<char>| vs0.contains(t) || t == s@ ==> vs0.contains(t));
            }
            return ;
        }
    }
    proof {
        if i < v@.len() {
            assert(lex_lt(s@, vs0[i as int]));
        }
    }
    v.insert(i, s);
    proof {
        assert(views(v@) =~= vs0.insert(i as int, s@));
        let vs2 = views(v@);
        assert forall|p: int, q: int| 0 <= p < q < vs2.len() implies lex_lt(vs2[p], vs2[q]) by {
            if q < i {
                assert(vs2[p] == vs0[p] && vs2[q] == vs0[q]);
            } else if p > i {
                assert(vs2[p] == vs0[p - 1] && vs2[q] == vs0[q - 1]);
            } else if p < i && q == i {
                assert(vs2[p] == vs0[p]);
            } else if p < i && q > i {
                assert(vs2[p] == vs0[p] && vs2[q] == vs0[q - 1]);
                if p < i - 1 {
                    assert(lex_lt(vs0[p], vs0[i - 1]));
                }
                if i <= q - 1 {
                    if i as int == q - 1 {
                        assert(lex_lt(s@, vs0[q - 1]));
                        lemma_lex_lt_transitive(vs0[p], s@, vs0[q - 1]);
                    }
                }
            } else if p == i {
                assert(vs2[p] == s@ && vs2[q] == vs0[q - 1]);
                if (i as int) < q - 1 {
                    lemma_lex_lt_transitive(s@, vs0[i as int], vs0[q - 1]);
                }
            }
        }
        assert forall|t: Seq<char>| true implies (#[trigger] views(v@).contains(t) <==> (
        vs0.contains(t) || t == s@)) by {
            lemma_contains_insert(vs0, i as int, s@, t);
        }
    }
}

/// The candidates that extend the current word, sorted ascending and
/// without duplicates.
pub fn filter_matches(cands: &Vec<String>, word: &str) -> (r: Vec<String>)
    ensures
        sorted_strict(views(r@)),
        forall|t: Seq<char>| #[trigger]
            views(r@).contains(t) <==> (views(cands@).contains(t) && is_prefix(word@, t)),
{
    let mut out: Vec<String> = Vec::new();
    let mut i: usize = 0;
    proof {
        assert(views(out@) =~= Seq::<Seq<char>>::empty());
        assert(views(cands@).take(0) =~= Seq::<Seq<char>>::empty());
    }
    while i < cands.len()
        invariant
            i <= cands@.len(),
            sorted_strict(views(out@)),
            forall|t: Seq<char>| #[trigger]
                views(out@).contains(t) <==> (views(cands@).take(i as int).contains(t)
                    && is_prefix(word@, t)),
        decreases cands@.len() - i,
    {
        let ghost prev = views(out@);
        let ghost taken = views(cands@).take(i as int);
        let matches_word = str_starts_with(cands[i].as_str(), word);
        if matches_word {
            insert_sorted(&mut out, cands[i].clone());
        }
        i += 1;
        proof {
            assert(views(cands@).take(i as int) =~= taken.push(cands@[i - 1]@));
            assert forall|t: Seq<char>| true implies (#[trigger] views(out@).contains(t) <==> (
            views(cands@).take(i as int).contains(t) && is_prefix(word@, t))) by {
                lemma_contains_push(taken, cands@[i - 1]@, t);
            }
        }
    }
    proof {
        assert(views(cands@).take(cands@.len() as int) =~= views(cands@));
    }
    out
}

/// The longest common prefix of two character sequences.
pub open spec fn lcp2(a: Seq<char>, b: Seq<char>) -> Seq<char>
    decreases a.len(),
{
    if a.len() == 0 || b.len() == 0 {
        Seq::empty()
    } else if a[0] == b[0] {
        seq![a[0]] + lcp2(a.drop_first(), b.drop_first())
    } else {
        Seq::empty()
    }
}

/// Folding `lcp2` over the items from position `i` on.
pub open spec fn lcp_fold(ts: Seq<Seq<char>>, i: int, acc: Seq<char>) -> Seq<char>
    decreases ts.len() - i,
{
    if i < 0 || i >= ts.len() {
        acc
    } else {
        lcp_fold(ts, i + 1, lcp2(acc, ts[i]))
    }
}

/// The longest common prefix of all the items; empty when there are none.
pub open spec fn lcp_all(ts: Seq<Seq<char>>) -> Seq<char> {
    if ts.len() == 0 {
        Seq::empty()
    } else {
        lcp_fold(ts, 1, ts[0])
    }
}

proof fn lemma_lcp2_take(a: Seq<char>, b: Seq<char>, k: int)
    requires
        0 <= k <= a.len(),
        k <= b.len(),
        forall|j: int| 0 <= j < k ==> a[j] == b[j],
        k == a.len() || k == b.len() || a[k] != b[k],
    ensures
        lcp2(a, b) == a.take(k),
    decreases k,
{
    if k == 0 {
        if a.len() == 0 || b.len() == 0 || a[0] != b[0] {
            assert(lcp2(a, b) =~= a.take(0));
        }
    } else {
        assert(a[0] == b[0]);
        lemma_lcp2_take(a.drop_first(), b.drop_first(), k - 1);
        assert(seq![a[0]] + a.drop_first().take(k - 1) =~= a.take(k));
    }
}

/// The longest common prefix of two strings.
fn lcp2_exec(a: &str, b: &str) -> (r: String)
    ensures
        r@ == lcp2(a@, b@),
{
    let na = a.unicode_len();
    let nb = b.unicode_len();
    let mut k: usize = 0;
    while k < na && k < nb
        invariant
            k <= na,
            k <= nb,
            na == a@.len(),
            nb == b@.len(),
            forall|j: int| 0 <= j < k ==> a@[j] == b@[j],
        decreases na - k,
    {
        if a.get_char(k) != b.get_char(k) {
            proof {
                lemma_lcp2_take(a@, b@, k as int);
            }
            return String::from_str(a.substring_char(0, k));
        }
        k += 1;
    }
    proof {
        lemma_lcp2_take(a@, b@, k as int);
    }
    String::from_str(a.substring_char(0, k))
}

/// The longest common prefix of all the items.
pub fn lcp_of(items: &Vec<String>) -> (r: String)
    ensures
        r@ == lcp_all(views(items@)),
{
    if items.len() == 0 {
        return String::new();
    }
    let mut acc = items[0].clone();
    let mut i: usize = 1;
    while i < items.len()
        invariant
            1 <= i <= items@.len(),
            lcp_all(views(items@)) == lcp_fold(views(items@), i as int, acc@),
        decreases items@.len() - i,
    {
        acc = lcp2_exec(acc.as_str(), items[i].as_str());
        i += 1;
    }
    acc
}

proof fn lemma_lcp2_keeps_prefix(w: Seq<char>, a: Seq<char>, b: Seq<char>)
    requires
        is_prefix(w, a),
        is_prefix(w, b),
    ensures
        is_prefix(w, lcp2(a, b)),
    decreases w.len(),
{
    if w.len() == 0 {
        assert(w =~= lcp2(a, b).take(0));
    } else {
        assert(w == a.take(w.len() as int));
        assert(w == b.take(w.len() as int));
        assert(a.take(w.len() as int)[0] == a[0]);
        assert(b.take(w.len() as int)[0] == b[0]);
        assert(a[0] == w[0] && b[0] == w[0]);
        assert(is_prefix(w.drop_first(), a.drop_first())) by {
            assert(w.drop_first() =~= a.drop_first().take(w.len() - 1));
        }
        assert(is_prefix(w.drop_first(), b.drop_first())) by {
            assert(w.drop_first() =~= b.drop_first().take(w.len() - 1));
        }
        lemma_lcp2_keeps_prefix(w.drop_first(), a.drop_first(), b.drop_first());
        let rest = lcp2(a.drop_first(), b.drop_first());
        let l = lcp2(a, b);
        assert(l == seq![a[0]] + rest);
        assert(w.drop_first() == rest.take(w.len() - 1));
        assert(w.len() <= l.len());
        assert forall|k: int| 0 <= k < w.len() implies w[k] == l.take(w.len() as int)[k] by {
            assert(l.take(w.len() as int)[k] == l[k]);
            if k == 0 {
                assert(l[0] == a[0]);
            } else {
                assert(l[k] == rest[k - 1]);
                assert(w[k] == w.drop_first()[k - 1]);
                assert(w.drop_first()[k - 1] == rest.take(w.len() - 1)[k - 1]);
                assert(rest.take(w.len() - 1)[k - 1] == rest[k - 1]);
            }
        }
        assert(w =~= l.take(w.len() as int));
    }
}

proof fn lemma_lcp_fold_keeps_prefix(ts: Seq<Seq<char>>, i: int, acc: Seq<char>, w: Seq<char>)
    requires
        is_prefix(w, acc),
        forall|j: int| 0 <= j < ts.len() ==> is_prefix(w, #[trigger] ts[j]),
    ensures
        is_prefix(w, lcp_fold(ts, i, acc)),
    decreases ts.len() - i,
{
    if 0 <= i < ts.len() {
        lemma_lcp2_keeps_prefix(w, acc, ts[i]);
        lemma_lcp_fold_keeps_prefix(ts, i + 1, lcp2(acc, ts[i]), w);
    }
}

/// The common word every match extends is also a prefix of their longest
/// common prefix.
pub proof fn lemma_lcp_all_keeps_prefix(ts: Seq<Seq<char>>, w: Seq<char>)
    requires
        ts.len() > 0,
        forall|j: int| 0 <= j < ts.len() ==> is_prefix(w, #[trigger] ts[j]),
    ensures
        is_prefix(w, lcp_all(ts)),
{
    lemma_lcp_fold_keeps_prefix(ts, 1, ts[0], w);
}

/// What the line editor remembers between completion-key presses: the line
/// and cursor last offered, how many times the key was pressed there, and
/// the match list computed for them.
pub struct CompletionState {
    pub line: String,
    pub pos: usize,
    pub presses: u32,
    pub matches: Vec<String>,
}

/// The press is at the same line and cursor the state last saw.
pub open spec fn same_query(st: CompletionState, line: Seq<char>, pos: usize) -> bool {
    st.line@ == line && st.pos == pos
}

/// What the editor must do after a completion-key press.
#[derive(Debug, PartialEq, Eq)]
pub enum CompletionAction {
    /// Insert these characters at the cursor.
    Insert(String),
    /// Ring the terminal bell.
    Bell,
    /// Print the matches two spaces apart on a fresh line, then redraw the
    /// prompt and the current line.
    ShowList(Vec<String>),
}

/// One completion-key press.  A changed line or cursor recomputes the
/// match list and resets the press counter; the policy then extends the
/// word by the longest common prefix, finishes a unique match with a
/// trailing space, rings the bell on the first fruitless press and lists
/// the matches on the second.
pub fn complete(
    st: &mut CompletionState,
    line: &str,
    pos: usize,
    candidates: &Vec<String>,
) -> (r: CompletionAction)
    requires
        pos <= line@.len(),
        same_query(*old(st), line@, pos) ==> (sorted_strict(views(old(st).matches@)) && (forall|
            t: Seq<char>,
        | #[trigger]
            views(old(st).matches@).contains(t) ==> is_prefix(word_at(line@, pos as int), t))),
    ensures
        final(st).line@ == line@ && final(st).pos == pos,
        same_query(*old(st), line@, pos) ==> views(final(st).matches@) == views(
            old(st).matches@,
        ),
        !same_query(*old(st), line@, pos) ==> (sorted_strict(views(final(st).matches@)) && (forall|
            t: Seq<char>,
        | #[trigger]
            views(final(st).matches@).contains(t) <==> (views(candidates@).contains(t)
                && is_prefix(word_at(line@, pos as int), t)))),
        final(st).presses as int == (if same_query(*old(st), line@, pos) {
            if old(st).presses >= 2 {
                2int
            } else {
                old(st).presses as int + 1
            }
        } else {
            1int
        }),
        ({
            let ms = views(final(st).matches@);
            let w = word_at(line@, pos as int);
            let l = lcp_all(ms);
            &&& ms.len() == 0 ==> r is Bell
            &&& ms.len() == 1 ==> (r matches CompletionAction::Insert(s) && s@ == ms[0].skip(
                w.len() as int,
            ) + " "@)
            &&& (ms.len() > 1 && l.len() > w.len()) ==> (r matches CompletionAction::Insert(s)
                && s@ == l.skip(w.len() as int))
            &&& (ms.len() > 1 && l.len() <= w.len()) ==> (if final(st).presses == 1 {
                r is Bell
            } else {
                r matches CompletionAction::ShowList(items) && views(items@) == ms
            })
        }),
{
    let word = current_word(line, pos);
    let same = str_eq(st.line.as_str(), line) && st.pos == pos;
    if same {
        st.presses = if st.presses >= 2 {
            2
        } else {
            st.presses + 1
        };
    } else {
        st.line = String::from_str(line);
        st.pos = pos;
        st.matches = filter_matches(candidates, word.as_str());
        st.presses = 1;
    }
    proof {
        assert(forall|t: Seq<char>| #[trigger]
            views(st.matches@).contains(t) ==> is_prefix(word@, t));
    }
    let wlen = word.as_str().unicode_len();
    if st.matches.len() == 0 {
        CompletionAction::Bell
    } else if st.matches.len() == 1 {
        proof {
            assert(views(st.matches@).contains(views(st.matches@)[0]));
            assert(is_prefix(word@, st.matches@[0]@));
        }
        let m = &st.matches[0];
        let mlen = m.as_str().unicode_len();
        let suf = m.as_str().substring_char(wlen, mlen);
        proof {
            assert(m@.subrange(wlen as int, mlen as int) =~= st.matches@[0]@.skip(wlen as int));
        }
        CompletionAction::Insert(String::from_str(suf).concat(" "))
    } else {
        proof {
            assert forall|j: int| 0 <= j < views(st.matches@).len() implies is_prefix(
                word@,
                #[trigger] views(st.matches@)[j],
            ) by {
                assert(views(st.matches@).contains(views(st.matches@)[j]));
            }
            lemma_lcp_all_keeps_prefix(views(st.matches@), word@);
        }
        let l = lcp_of(&st.matches);
        let llen = l.as_str().unicode_len();
        if llen > wlen {
            let suf = l.as_str().substring_char(wlen, llen);
            proof {
                assert(l@.subrange(wlen as int, llen as int) =~= l@.skip(wlen as int));
            }
            CompletionAction::Insert(String::from_str(suf))
        } else {
            if st.presses == 1 {
                CompletionAction::Bell
            } else {
                CompletionAction::ShowList(clone_strings(&st.matches))
            }
        }
    }
}

} // verus!
