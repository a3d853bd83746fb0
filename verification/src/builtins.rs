//! The pure logic of the five built-ins.  Each function here computes the
//! line a built-in writes (or the action it asks for) from plain values;
//! the caller performs the actual environment access, directory change or
//! process exit.

use vstd::prelude::*;
use vstd::string::*;
use crate::parser::builtin_of;
use crate::strutil::{views, chars_of, join_sep, join_with, str_eq};

verus! {

pub open spec fn is_digit(c: char) -> bool {
    '0' as int <= c as int <= '9' as int
}

pub open spec fn digit_val(c: char) -> int {
    c as int - '0' as int
}

pub open spec fn all_digits(s: Seq<char>) -> bool {
    forall|k: int| 0 <= k < s.len() ==> is_digit(#[trigger] s[k])
}

/// The value of a decimal digit string.
pub open spec fn dec_val(s: Seq<char>) -> int
    decreases s.len(),
{
    if s.len() == 0 {
        0
    } else {
        dec_val(s.drop_last()) * 10 + digit_val(s.last())
    }
}

proof fn lemma_dec_val_nonneg(s: Seq<char>)
    requires
        all_digits(s),
    ensures
        dec_val(s) >= 0,
    decreases s.len(),
{
    if s.len() > 0 {
        assert(all_digits(s.drop_last()));
        lemma_dec_val_nonneg(s.drop_last());
    }
}

/// The numeric value of one decimal digit character.
fn char_digit_value(c: char) -> (d: u64)
    requires
        is_digit(c),
    ensures
        d == digit_val(c),
{
    match c {
        '0' => 0,
        '1' => 1,
        '2' => 2,
        '3' => 3,
        '4' => 4,
        '5' => 5,
        '6' => 6,
        '7' => 7,
        '8' => 8,
        '9' => 9,
        _ => {
            proof {
                assert(false);
            }
            0
        },
    }
}

/// An exit code is a non-empty digit string whose value fits the status.
pub open spec fn valid_exit_code(code: Seq<char>) -> bool {
    code.len() > 0 && all_digits(code) && dec_val(code) <= i32::MAX
}

/// Parse a non-negative decimal exit code; anything else is refused.
pub fn parse_exit_code(s: &str) -> (r: Option<i32>)
    ensures
        valid_exit_code(s@) ==> (r matches Some(c) && c == dec_val(s@)),
        !valid_exit_code(s@) ==> r is None,
{
    let cs = chars_of(s);
    let n = cs.len();
    if n == 0 {
        return None;
    }
    let mut i: usize = 0;
    let mut val: u64 = 0;
    let mut over = false;
    proof {
        assert(s@.take(0) =~= Seq::<char>::empty());
    }
    while i < n
        invariant
            i <= n,
            n == cs@.len(),
            cs@ == s@,
            all_digits(s@.take(i as int)),
            !over ==> val == dec_val(s@.take(i as int)) && val <= i32::MAX,
            over ==> dec_val(s@.take(i as int)) > i32::MAX,
        decreases n - i,
    {
        let c = cs[i];
        if c < '0' || c > '9' {
            proof {
                assert(!is_digit(s@[i as int]));
            }
            return None;
        }
        let d: u64 = char_digit_value(c);
        let ghost prefix = s@.take(i as int);
        proof {
            assert(is_digit(s@[i as int]));
            assert(s@.take(i + 1).drop_last() =~= prefix);
            assert(s@.take(i + 1).last() == s@[i as int]);
            assert(all_digits(s@.take(i + 1)));
            lemma_dec_val_nonneg(prefix);
        }
        if !over {
            let nv: u64 = val * 10 + d;
            if nv > 0x7fffffff {
                over = true;
            } else {
                val = nv;
            }
        }
        i += 1;
    }
    proof {
        assert(s@.take(n as int) =~= s@);
    }
    if over {
        None
    } else {
        Some(val as i32)
    }
}

/// What `exit [code]` does: the status to exit with, or the error line for
/// a code that is not a non-negative integer.  The arguments are joined by
/// single spaces, and no argument at all means status `0`.
pub fn exit_status(args: &Vec<String>) -> (r: Result<i32, String>)
    ensures
        ({
            let code = join_sep(views(args@), " "@);
            &&& code.len() == 0 ==> r == Ok::<i32, String>(0)
            &&& valid_exit_code(code) ==> (r matches Ok(c) && c == dec_val(code))
            &&& (code.len() > 0 && !valid_exit_code(code)) ==> (r matches Err(m) && m@
                == "Unknown exit code "@ + code)
        }),
{
    let code = join_with(args, " ");
    if code.as_str().unicode_len() == 0 {
        Ok(0)
    } else {
        match parse_exit_code(code.as_str()) {
            Some(c) => Ok(c),
            None => Err(String::from_str("Unknown exit code ").concat(code.as_str())),
        }
    }
}

/// The line `echo` writes to stdout: its arguments joined by single spaces.
pub fn echo_output(args: &Vec<String>) -> (r: String)
    ensures
        r@ == join_sep(views(args@), " "@),
{
    join_with(args, " ")
}

/// The line `type <name>` writes, given how the name resolved on PATH.
pub open spec fn type_output_spec(name: Seq<char>, resolved: Option<Seq<char>>) -> Seq<char> {
    if builtin_of(name) is Some {
        name + " is a shell builtin"@
    } else {
        match resolved {
            Some(p) => name + " is "@ + p,
            None => name + ": not found"@,
        }
    }
}

/// The line `type <name>` writes.  For every name in the built-in set the
/// line is exactly `<name> is a shell builtin`, whatever `resolved` says.
pub fn type_output(name: &str, resolved: Option<&String>) -> (r: String)
    ensures
        r@ == type_output_spec(
            name@,
            match resolved {
                Some(p) => Some(p@),
                None => None,
            },
        ),
{
    match crate::parser::builtin_name_of(name) {
        Some(_) => String::from_str(name).concat(" is a shell builtin"),
        None => match resolved {
            Some(p) => String::from_str(name).concat(" is ").concat(p.as_str()),
            None => String::from_str(name).concat(": not found"),
        },
    }
}

/// Where `cd <dir>` should go: `~` means the home directory, whose absence
/// is the documented error line; any other target is taken as written.
pub fn cd_target(dir: &str, home: Option<&String>) -> (r: Result<String, String>)
    ensures
        dir@ == "~"@ ==> (match home {
            Some(h) => r matches Ok(p) && p@ == h@,
            None => r matches Err(m) && m@ == "cd: HOME environment variable not set"@,
        }),
        dir@ != "~"@ ==> (r matches Ok(p) && p@ == dir@),
{
    if str_eq(dir, "~") {
        match home {
            Some(h) => Ok(h.clone()),
            None => Err(String::from_str("cd: HOME environment variable not set")),
        }
    } else {
        Ok(String::from_str(dir))
    }
}

/// The stderr line for a directory change that failed: a missing target has
/// its own wording, any other failure carries the system's message.
pub fn cd_error_message(path: &str, not_found: bool, os_msg: &str) -> (r: String)
    ensures
        not_found ==> r@ == "cd: "@ + path@ + ": No such file or directory"@,
        !not_found ==> r@ == "cd: "@ + os_msg@,
{
    if not_found {
        String::from_str("cd: ").concat(path).concat(": No such file or directory")
    } else {
        String::from_str("cd: ").concat(os_msg)
    }
}

/// The stderr line for a command that did not resolve and for one that
/// failed to spawn.
pub fn not_found_message(name: &str) -> (r: String)
    ensures
        r@ == name@ + ": command not found"@,
{
    String::from_str(name).concat(": command not found")
}

/// The five built-in names, for the completion engine and for `type`.
pub fn builtin_names() -> (r: Vec<String>)
    ensures
        views(r@) == seq![
            seq!['e', 'x', 'i', 't'],
            seq!['e', 'c', 'h', 'o'],
            seq!['t', 'y', 'p', 'e'],
            seq!['p', 'w', 'd'],
            seq!['c', 'd'],
        ],
{
    let mut r: Vec<String> = Vec::new();
    r.push(String::from_str("exit"));
    r.push(String::from_str("echo"));
    r.push(String::from_str("type"));
    r.push(String::from_str("pwd"));
    r.push(String::from_str("cd"));
    proof {
        reveal_strlit("exit");
        reveal_strlit("echo");
        reveal_strlit("type");
        reveal_strlit("pwd");
        reveal_strlit("cd");
        assert("exit"@ =~= seq!['e', 'x', 'i', 't']);
        assert("echo"@ =~= seq!['e', 'c', 'h', 'o']);
        assert("type"@ =~= seq!['t', 'y', 'p', 'e']);
        assert("pwd"@ =~= seq!['p', 'w', 'd']);
        assert("cd"@ =~= seq!['c', 'd']);
        assert(views(r@) =~= seq![
            seq!['e', 'x', 'i', 't'],
            seq!['e', 'c', 'h', 'o'],
            seq!['t', 'y', 'p', 'e'],
            seq!['p', 'w', 'd'],
            seq!['c', 'd'],
        ]);
    }
    r
}

} // verus!
