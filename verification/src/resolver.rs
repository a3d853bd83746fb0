//! PATH resolution, as arithmetic on plain values: splitting the `PATH`
//! variable, forming the candidate file names, and choosing the first
//! candidate the filesystem reported as executable.  The filesystem answers
//! themselves (is it a regular file, which permission bits are set) are the
//! caller's to supply.

use vstd::prelude::*;
use vstd::string::*;
use crate::strutil::{views, chars_of, string_from_chars};

verus! {

/// The POSIX rule: an existing regular file with any of the owner, group
/// or other execute bits set.
pub fn is_executable(is_file: bool, mode: u32) -> (r: bool)
    ensures
        r == (is_file && mode & 0o111 != 0),
{
    is_file && mode & 0o111 != 0
}

/// The rule of the alternate platform: a regular file whose extension is
/// `exe` in any letter case.
pub open spec fn is_exe_ext(ext: Seq<char>) -> bool {
    ext.len() == 3 && (ext[0] == 'e' || ext[0] == 'E') && (ext[1] == 'x' || ext[1] == 'X') && (
    ext[2] == 'e' || ext[2] == 'E')
}

pub fn is_exe_extension(ext: &str) -> (r: bool)
    ensures
        r == is_exe_ext(ext@),
{
    if ext.unicode_len() != 3 {
        return false;
    }
    let c0 = ext.get_char(0);
    let c1 = ext.get_char(1);
    let c2 = ext.get_char(2);
    (c0 == 'e' || c0 == 'E') && (c1 == 'x' || c1 == 'X') && (c2 == 'e' || c2 == 'E')
}

/// The directories of a `PATH` value from position `i` on, with `cur` the
/// piece accumulated so far.
pub open spec fn split_colon_from(s: Seq<char>, i: int, cur: Seq<char>) -> Seq<Seq<char>>
    decreases s.len() - i,
{
    if i < 0 || i >= s.len() {
        seq![cur]
    } else if s[i] == ':' {
        seq![cur] + split_colon_from(s, i + 1, Seq::empty())
    } else {
        split_colon_from(s, i + 1, cur.push(s[i]))
    }
}

/// The directories a `PATH` value lists; an empty value lists none.
pub open spec fn split_colon(s: Seq<char>) -> Seq<Seq<char>> {
    if s.len() == 0 {
        Seq::empty()
    } else {
        split_colon_from(s, 0, Seq::empty())
    }
}

/// The file a directory entry would give the command: the directory and the
/// name joined by a separator, with an empty directory standing for the
/// name alone.
pub open spec fn candidate_of(dir: Seq<char>, cmd: Seq<char>) -> Seq<char> {
    if dir.len() == 0 {
        cmd
    } else if dir.last() == '/' {
        dir + cmd
    } else {
        dir + seq!['/'] + cmd
    }
}

/// Every candidate path `PATH` offers for the command, in `PATH` order.
pub open spec fn candidates_spec(path_var: Seq<char>, cmd: Seq<char>) -> Seq<Seq<char>> {
    split_colon(path_var).map_values(|d: Seq<char>| candidate_of(d, cmd))
}

/// Split a `PATH` value on `:` into its directories.
pub fn split_path_var(path_var: &str) -> (r: Vec<String>)
    ensures
        views(r@) == split_colon(path_var@),
{
    let cs = chars_of(path_var);
    let n = cs.len();
    let mut dirs: Vec<String> = Vec::new();
    if n == 0 {
        proof {
            assert(views(dirs@) =~= split_colon(path_var@));
        }
        return dirs;
    }
    let mut cur: Vec<char> = Vec::new();
    let mut i: usize = 0;
    proof {
        assert(views(dirs@) =~= Seq::<Seq<char>>::empty());
        assert(Seq::<Seq<char>>::empty() + split_colon_from(path_var@, 0, Seq::empty())
            =~= split_colon_from(path_var@, 0, Seq::empty()));
    }
    while i < n
        invariant
            i <= n,
            n == cs@.len(),
            cs@ == path_var@,
            n > 0,
            split_colon(path_var@) == views(dirs@) + split_colon_from(
                path_var@,
                i as int,
                cur@,
            ),
        decreases n - i,
    {
        let c = cs[i];
        if c == ':' {
            let d = string_from_chars(&cur);
            proof {
                crate::strutil::lemma_views_push(dirs@, d);
                assert(views(dirs@).push(cur@) + split_colon_from(path_var@, i + 1, Seq::empty())
                    =~= views(dirs@) + (seq![cur@] + split_colon_from(
                    path_var@,
                    i + 1,
                    Seq::empty(),
                )));
            }
            dirs.push(d);
            cur = Vec::new();
        } else {
            cur.push(c);
        }
        i += 1;
    }
    let d = string_from_chars(&cur);
    proof {
        crate::strutil::lemma_views_push(dirs@, d);
        assert(views(dirs@).push(cur@) =~= views(dirs@) + seq![cur@]);
    }
    dirs.push(d);
    dirs
}

/// Join one directory with the command name.
fn join_candidate(dir: &String, cmd: &str) -> (r: String)
    ensures
        r@ == candidate_of(dir@, cmd@),
{
    let n = dir.as_str().unicode_len();
    if n == 0 {
        String::from_str(cmd)
    } else if dir.as_str().get_char(n - 1) == '/' {
        proof {
            assert(dir@.last() == dir@[n - 1]);
        }
        String::from_str(dir.as_str()).concat(cmd)
    } else {
        proof {
            reveal_strlit("/");
            assert("/"@ =~= seq!['/']);
        }
        String::from_str(dir.as_str()).concat("/").concat(cmd)
    }
}

/// The candidate paths `PATH` offers for a bare command name, in order.
pub fn path_candidates(path_var: &str, command: &str) -> (r: Vec<String>)
    ensures
        views(r@) == candidates_spec(path_var@, command@),
{
    let dirs = split_path_var(path_var);
    let mut out: Vec<String> = Vec::new();
    let mut i: usize = 0;
    while i < dirs.len()
        invariant
            i <= dirs@.len(),
            views(dirs@) == split_colon(path_var@),
            views(out@) == candidates_spec(path_var@, command@).take(i as int),
        decreases dirs@.len() - i,
    {
        let cand = join_candidate(&dirs[i], command);
        proof {
            crate::strutil::lemma_views_push(out@, cand);
            assert(candidates_spec(path_var@, command@)[i as int] == candidate_of(
                dirs@[i as int]@,
                command@,
            ));
            assert(views(out@).push(cand@) =~= candidates_spec(path_var@, command@).take(
                i as int + 1,
            ));
        }
        out.push(cand);
        i += 1;
    }
    proof {
        assert(candidates_spec(path_var@, command@).take(dirs@.len() as int) =~= candidates_spec(
            path_var@,
            command@,
        ));
    }
    out
}

/// The first candidate the filesystem calls executable, if any.  The two
/// vectors run in parallel: `executable[k]` answers for `candidates[k]`.
pub fn first_match(candidates: &Vec<String>, executable: &Vec<bool>) -> (r: Option<String>)
    requires
        candidates@.len() == executable@.len(),
    ensures
        r matches Some(p) ==> (exists|k: int|
            0 <= k < candidates@.len() && #[trigger] executable@[k] && p@ == candidates@[k]@ && (
            forall|j: int| 0 <= j < k ==> !executable@[j])),
        r is None ==> forall|j: int| 0 <= j < executable@.len() ==> !executable@[j],
{
    let mut i: usize = 0;
    while i < candidates.len()
        invariant
            i <= candidates@.len(),
            candidates@.len() == executable@.len(),
            forall|j: int| 0 <= j < i ==> !executable@[j],
        decreases candidates@.len() - i,
    {
        if executable[i] {
            return Some(candidates[i].clone());
        }
        i += 1;
    }
    None
}

/// A command containing a path separator bypasses PATH resolution.
pub fn has_slash(s: &str) -> (r: bool)
    ensures
        r == s@.contains('/'),
{
    let n = s.unicode_len();
    let mut i: usize = 0;
    while i < n
        invariant
            i <= n,
            n == s@.len(),
            forall|j: int| 0 <= j < i ==> s@[j] != '/',
        decreases n - i,
    {
        if s.get_char(i) == '/' {
            return true;
        }
        i += 1;
    }
    false
}

} // verus!
