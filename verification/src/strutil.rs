//! Small verified helpers on strings and character sequences that the rest
//! of the library builds on: conversions between `&str` and `Vec<char>`,
//! character-exact comparison, prefix tests, and joining with a separator.

use vstd::prelude::*;
use vstd::string::*;

verus! {

/// The character sequences behind a sequence of strings.
pub open spec fn views(ts: Seq<String>) -> Seq<Seq<char>> {
    ts.map_values(|t: String| t@)
}

pub proof fn lemma_views_push(ts: Seq<String>, t: String)
    ensures
        views(ts.push(t)) == views(ts).push(t@),
{
    assert(views(ts.push(t)) =~= views(ts).push(t@));
}

/// The characters of `s`, in order.
pub fn chars_of(s: &str) -> (r: Vec<char>)
    ensures
        r@ == s@,
{
    let n: usize = s.unicode_len();
    let mut r: Vec<char> = Vec::new();
    let mut i: usize = 0;
    while i < n
        invariant
            i <= n,
            n == s@.len(),
            r@ == s@.take(i as int),
        decreases n - i,
    {
        r.push(s.get_char(i));
        i += 1;
        proof {
            assert(s@.take(i as int) =~= s@.take(i - 1).push(s@[i - 1]));
        }
    }
    proof {
        assert(s@.take(n as int) =~= s@);
    }
    r
}

/// Relies on std's `FromIterator<char> for String`: collecting characters
/// yields the string made of exactly those characters, in order.
#[verifier::external_body]
pub(crate) fn string_from_chars(cs: &Vec<char>) -> (r: String)
    ensures
        r@ == cs@,
{
    cs.iter().collect()
}

/// Character-exact string equality.
pub fn str_eq(a: &str, b: &str) -> (r: bool)
    ensures
        r == (a@ == b@),
{
    let na: usize = a.unicode_len();
    let nb: usize = b.unicode_len();
    if na != nb {
        return false;
    }
    let mut i: usize = 0;
    while i < na
        invariant
            i <= na,
            na == a@.len(),
            na == b@.len(),
            forall|j: int| 0 <= j < i ==> a@[j] == b@[j],
        decreases na - i,
    {
        if a.get_char(i) != b.get_char(i) {
            return false;
        }
        i += 1;
    }
    proof {
        assert(a@ =~= b@);
    }
    true
}

/// `p` is an initial segment of `s`.
pub open spec fn is_prefix(p: Seq<char>, s: Seq<char>) -> bool {
    p.len() <= s.len() && p == s.take(p.len() as int)
}

/// Does `s` start with the characters of `p`?
pub fn str_starts_with(s: &str, p: &str) -> (r: bool)
    ensures
        r == is_prefix(p@, s@),
{
    let np: usize = p.unicode_len();
    let ns: usize = s.unicode_len();
    if np > ns {
        return false;
    }
    let mut i: usize = 0;
    while i < np
        invariant
            i <= np,
            np == p@.len(),
            ns == s@.len(),
            np <= ns,
            forall|j: int| 0 <= j < i ==> p@[j] == s@[j],
        decreases np - i,
    {
        if p.get_char(i) != s.get_char(i) {
            proof {
                if is_prefix(p@, s@) {
                    assert(p@[i as int] == s@.take(np as int)[i as int]);
                }
            }
            return false;
        }
        i += 1;
    }
    proof {
        assert(p@ =~= s@.take(np as int));
    }
    true
}

/// The strings of `ts` laid end to end with `sep` between neighbours.
pub open spec fn join_sep(ts: Seq<Seq<char>>, sep: Seq<char>) -> Seq<char>
    decreases ts.len(),
{
    if ts.len() == 0 {
        Seq::empty()
    } else if ts.len() == 1 {
        ts[0]
    } else {
        ts[0] + sep + join_sep(ts.drop_first(), sep)
    }
}

pub proof fn lemma_join_sep_push(ts: Seq<Seq<char>>, sep: Seq<char>, t: Seq<char>)
    ensures
        join_sep(ts.push(t), sep) == if ts.len() == 0 {
            t
        } else {
            (join_sep(ts, sep) + sep + t)
        },
    decreases ts.len(),
{
    if ts.len() == 0 {
        assert(ts.push(t)[0] == t);
    } else {
        assert(ts.push(t).drop_first() =~= ts.drop_first().push(t));
        lemma_join_sep_push(ts.drop_first(), sep, t);
        if ts.len() > 1 {
            assert((ts[0] + sep + (join_sep(ts.drop_first(), sep) + sep + t)) =~= ((ts[0] + sep
                + join_sep(ts.drop_first(), sep)) + sep + t));
        }
    }
}

/// A character-for-character copy of a string vector.
pub fn clone_strings(items: &Vec<String>) -> (r: Vec<String>)
    ensures
        views(r@) == views(items@),
{
    let mut r: Vec<String> = Vec::new();
    let mut i: usize = 0;
    proof {
        assert(views(r@) =~= views(items@).take(0));
    }
    while i < items.len()
        invariant
            i <= items@.len(),
            views(r@) == views(items@).take(i as int),
        decreases items@.len() - i,
    {
        let s = items[i].clone();
        proof {
            lemma_views_push(r@, s);
            assert(views(r@).push(s@) =~= views(items@).take(i as int + 1));
        }
        r.push(s);
        i += 1;
    }
    proof {
        assert(views(items@).take(items@.len() as int) =~= views(items@));
    }
    r
}

/// Join the items with the given separator between neighbours.
pub fn join_with(items: &Vec<String>, sep: &str) -> (r: String)
    ensures
        r@ == join_sep(views(items@), sep@),
{
    let mut out: String = String::new();
    let mut i: usize = 0;
    while i < items.len()
        invariant
            i <= items@.len(),
            out@ == join_sep(views(items@).take(i as int), sep@),
        decreases items@.len() - i,
    {
        if i > 0 {
            out.append(sep);
        }
        out.append(items[i].as_str());
        i += 1;
        proof {
            assert(views(items@).take(i as int) =~= views(items@).take(i - 1).push(
                items@[i - 1]@,
            ));
            lemma_join_sep_push(views(items@).take(i - 1), sep@, items@[i - 1]@);
        }
    }
    proof {
        assert(views(items@).take(items@.len() as int) =~= views(items@));
    }
    out
}

} // verus!
