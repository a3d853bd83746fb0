//! The post-pass on the raw token stream: any token that contains a
//! redirection operator (`>`, `>>`, `1>`, `1>>`, `2>`, `2>>`) is re-split
//! into its plain pieces and the operators, and empty pieces are dropped.
//! The operators are recognized wherever they stand, even glued to a word.

use vstd::prelude::*;
use crate::strutil::{views, chars_of, string_from_chars, lemma_views_push};

verus! {

/// The length of the redirection operator starting at position `i` of `t`,
/// or zero when none starts there.  `1>>` and `2>>` win over `1>` and `2>`,
/// and `>>` over `>`.
pub open spec fn op_len_at(t: Seq<char>, i: int) -> int {
    if 0 <= i < t.len() && (t[i] == '1' || t[i] == '2') {
        if i + 1 < t.len() && t[i + 1] == '>' {
            if i + 2 < t.len() && t[i + 2] == '>' {
                3
            } else {
                2
            }
        } else {
            0
        }
    } else if 0 <= i < t.len() && t[i] == '>' {
        if i + 1 < t.len() && t[i + 1] == '>' {
            2
        } else {
            1
        }
    } else {
        0
    }
}

/// The pieces of `t` from position `i` on, with `cur` the plain piece
/// accumulated so far.
pub open spec fn split_from(t: Seq<char>, i: int, cur: Seq<char>) -> Seq<Seq<char>>
    decreases t.len() - i,
{
    if i < 0 || i >= t.len() {
        if cur.len() > 0 {
            seq![cur]
        } else {
            Seq::empty()
        }
    } else {
        let k = op_len_at(t, i);
        if k > 0 {
            let lead: Seq<Seq<char>> = if cur.len() > 0 {
                seq![cur]
            } else {
                Seq::empty()
            };
            lead + seq![t.subrange(i, i + k)] + split_from(t, i + k, Seq::empty())
        } else {
            split_from(t, i + 1, cur.push(t[i]))
        }
    }
}

/// The pieces a raw token splits into.
pub open spec fn split_redirects_spec(t: Seq<char>) -> Seq<Seq<char>> {
    split_from(t, 0, Seq::empty())
}

/// Re-split one raw token on the redirection operators it contains.
pub fn split_redirects(token: &str) -> (r: Vec<String>)
    ensures
        views(r@) == split_redirects_spec(token@),
{
    let cs = chars_of(token);
    let n = cs.len();
    let mut parts: Vec<String> = Vec::new();
    let mut cur: Vec<char> = Vec::new();
    let mut i: usize = 0;
    proof {
        assert(views(parts@) =~= Seq::<Seq<char>>::empty());
        assert(Seq::<Seq<char>>::empty() + split_from(token@, 0, Seq::empty())
            =~= split_from(token@, 0, Seq::empty()));
    }
    while i < n
        invariant
            i <= n,
            n == cs@.len(),
            cs@ == token@,
            split_redirects_spec(token@) == views(parts@) + split_from(token@, i as int, cur@),
        decreases n - i,
    {
        // How long is the operator starting here, if any?
        let klen: usize = if (cs[i] == '1' || cs[i] == '2') && i + 1 < n && cs[i + 1] == '>' {
            if i + 2 < n && cs[i + 2] == '>' {
                3
            } else {
                2
            }
        } else if cs[i] == '>' {
            if i + 1 < n && cs[i + 1] == '>' {
                2
            } else {
                1
            }
        } else {
            0
        };
        proof {
            assert(klen as int == op_len_at(token@, i as int));
        }
        if klen > 0 {
            let ghost p0 = parts@;
            let ghost c0 = cur@;
            let ghost i0 = i as int;
            let ghost lead: Seq<Seq<char>> = if c0.len() > 0 {
                seq![c0]
            } else {
                Seq::empty()
            };
            proof {
                assert(split_from(token@, i0, c0) == lead + seq![
                    token@.subrange(i0, i0 + klen),
                ] + split_from(token@, i0 + klen, Seq::empty()));
            }
            if cur.len() > 0 {
                let t = string_from_chars(&cur);
                proof {
                    lemma_views_push(parts@, t);
                }
                parts.push(t);
                cur = Vec::new();
            }
            let mut op: Vec<char> = Vec::new();
            let mut j: usize = 0;
            while j < klen
                invariant
                    j <= klen,
                    i + klen <= n,
                    n == cs@.len(),
                    op@ == cs@.subrange(i as int, i + j),
                decreases klen - j,
            {
                op.push(cs[i + j]);
                j += 1;
                proof {
                    assert(cs@.subrange(i as int, i + j) =~= cs@.subrange(i as int, i + j - 1).push(
                        cs@[i + j - 1],
                    ));
                }
            }
            let t = string_from_chars(&op);
            proof {
                lemma_views_push(parts@, t);
            }
            parts.push(t);
            i += klen;
            proof {
                assert(cur@ =~= Seq::<char>::empty());
                assert(views(parts@) =~= views(p0) + lead + seq![token@.subrange(i0, i0 + klen)]);
                assert(views(parts@) + split_from(token@, i as int, cur@) =~= views(p0)
                    + split_from(token@, i0, c0));
            }
        } else {
            cur.push(cs[i]);
            i += 1;
        }
    }
    if cur.len() > 0 {
        let t = string_from_chars(&cur);
        proof {
            lemma_views_push(parts@, t);
            assert(views(parts@).push(t@) =~= views(parts@) + seq![cur@]);
        }
        parts.push(t);
    } else {
        proof {
            assert(views(parts@) + Seq::<Seq<char>>::empty() =~= views(parts@));
        }
    }
    parts
}

/// The concatenation of the splits of every token, in order.
pub open spec fn flat_split(ts: Seq<Seq<char>>) -> Seq<Seq<char>>
    decreases ts.len(),
{
    if ts.len() == 0 {
        Seq::empty()
    } else {
        split_redirects_spec(ts[0]) + flat_split(ts.drop_first())
    }
}

/// Re-split every token of a lexed line on redirection operators.
pub fn split_all_redirects(toks: &Vec<String>) -> (r: Vec<String>)
    ensures
        views(r@) == flat_split(views(toks@)),
{
    let mut out: Vec<String> = Vec::new();
    let mut i: usize = 0;
    proof {
        assert(views(out@) =~= Seq::<Seq<char>>::empty());
        assert(views(toks@).skip(0) =~= views(toks@));
        assert(Seq::<Seq<char>>::empty() + flat_split(views(toks@)) =~= flat_split(views(toks@)));
    }
    while i < toks.len()
        invariant
            i <= toks@.len(),
            flat_split(views(toks@)) == views(out@) + flat_split(views(toks@).skip(i as int)),
        decreases toks@.len() - i,
    {
        let mut pieces = split_redirects(toks[i].as_str());
        let m = pieces.len();
        let ghost mid = out@;
        let mut j: usize = 0;
        while j < m
            invariant
                j <= m,
                m == pieces@.len(),
                views(out@) == views(mid) + views(pieces@).take(j as int),
            decreases m - j,
        {
            let ghost before = out@;
            let p = pieces[j].clone();
            proof {
                lemma_views_push(before, p);
            }
            out.push(p);
            j += 1;
            proof {
                assert(views(pieces@).take(j as int) =~= views(pieces@).take(j - 1).push(
                    pieces@[j - 1]@,
                ));
                assert(views(before).push(pieces@[j - 1]@) =~= views(mid) + views(pieces@).take(
                    j as int,
                ));
            }
        }
        i += 1;
        proof {
            assert(views(pieces@).take(m as int) =~= views(pieces@));
            let rest = views(toks@).skip(i - 1);
            assert(rest[0] == toks@[i - 1]@);
            assert(rest.drop_first() =~= views(toks@).skip(i as int));
            assert(flat_split(rest) == split_redirects_spec(toks@[i - 1]@) + flat_split(
                views(toks@).skip(i as int),
            ));
            assert((views(mid) + views(pieces@)) + flat_split(views(toks@).skip(i as int))
                =~= views(mid) + (views(pieces@) + flat_split(views(toks@).skip(i as int))));
        }
    }
    proof {
        assert(views(toks@).skip(toks@.len() as int) =~= Seq::<Seq<char>>::empty());
        assert(views(out@) + flat_split(Seq::<Seq<char>>::empty()) =~= views(out@));
    }
    out
}

} // verus!
