//! The builtin commands' decision logic.
//!
//! Builtins compute here and print elsewhere: each function takes the
//! argument words as plain values and returns its result together with
//! the texts for the standard and error streams; the embedding
//! application parses flags it wants parsed for it, performs the calls,
//! and writes the texts out.

use vstd::prelude::*;

use crate::error::WrashError;
use crate::session::{Session, SessionMode};
use crate::text::{chars_to_string, str_chars, str_eq};

verus! {

/// True when a command word names one of the shell's builtin commands.
pub fn is_builtin(command: &str) -> (r: bool)
    ensures
        r == (command@ == "exit"@ || command@ == "cd"@ || command@ == "mode"@ || command@
            == "help"@ || command@ == "history"@),
{
    str_eq(command, "exit") || str_eq(command, "cd") || str_eq(command, "mode") || str_eq(
        command,
        "help",
    ) || str_eq(command, "history")
}

/// The value of one decimal digit, or nothing.
pub open spec fn spec_digit_of(c: char) -> Option<int> {
    if c == '0' {
        Some(0int)
    } else if c == '1' {
        Some(1int)
    } else if c == '2' {
        Some(2int)
    } else if c == '3' {
        Some(3int)
    } else if c == '4' {
        Some(4int)
    } else if c == '5' {
        Some(5int)
    } else if c == '6' {
        Some(6int)
    } else if c == '7' {
        Some(7int)
    } else if c == '8' {
        Some(8int)
    } else if c == '9' {
        Some(9int)
    } else {
        None
    }
}

/// The number the digits from `i` on denote, on top of what `acc` already
/// holds, or nothing at the first character that is no digit.
pub open spec fn spec_digits_value(s: Seq<char>, i: int, acc: int) -> Option<int>
    decreases s.len() - i,
{
    if i < 0 || i >= s.len() {
        Some(acc)
    } else {
        match spec_digit_of(s[i]) {
            Some(d) => spec_digits_value(s, i + 1, acc * 10 + d),
            None => None,
        }
    }
}

/// The nonnegative exit code an argument word denotes, or nothing: an
/// optional sign, then at least one digit; the value must fit a 32-bit
/// signed integer and not be negative. A word that parses to a negative
/// number is rejected just like one that does not parse at all.
pub open spec fn spec_exit_code(a: Seq<char>) -> Option<int> {
    let neg = a.len() > 0 && a[0] == '-';
    let body = if a.len() > 0 && (a[0] == '-' || a[0] == '+') {
        a.skip(1)
    } else {
        a
    };
    if body.len() == 0 {
        None
    } else {
        match spec_digits_value(body, 0, 0) {
            Some(v) => if neg {
                if v == 0 {
                    Some(0int)
                } else {
                    None
                }
            } else {
                if v <= i32::MAX {
                    Some(v)
                } else {
                    None
                }
            },
            None => None,
        }
    }
}

proof fn lemma_digits_value_grows(s: Seq<char>, i: int, acc: int)
    requires
        acc >= 0,
    ensures
        (match spec_digits_value(s, i, acc) {
            Some(v) => v >= acc,
            None => true,
        }),
    decreases s.len() - i,
{
    if 0 <= i < s.len() {
        match spec_digit_of(s[i]) {
            Some(d) => {
                lemma_digits_value_grows(s, i + 1, acc * 10 + d);
            },
            None => {},
        }
    }
}

/// The digit value of a character, as executable code.
fn digit_of(c: char) -> (r: Option<u32>)
    ensures
        (match r {
            Some(d) => spec_digit_of(c) == Some(d as int) && d <= 9,
            None => spec_digit_of(c) is None,
        }),
{
    match c {
        '0' => Some(0),
        '1' => Some(1),
        '2' => Some(2),
        '3' => Some(3),
        '4' => Some(4),
        '5' => Some(5),
        '6' => Some(6),
        '7' => Some(7),
        '8' => Some(8),
        '9' => Some(9),
        _ => None,
    }
}

/// The exit code an argument word denotes, as executable code.
fn parse_exit_code(a: &str) -> (r: Option<i32>)
    ensures
        (match r {
            Some(code) => spec_exit_code(a@) == Some(code as int),
            None => spec_exit_code(a@) is None,
        }),
{
    let cs = str_chars(a);
    let start: usize = if cs.len() > 0 && (cs[0] == '-' || cs[0] == '+') {
        1
    } else {
        0
    };
    let neg = cs.len() > 0 && cs[0] == '-';
    let ghost body = if start == 1 {
        cs@.skip(1)
    } else {
        cs@
    };
    if cs.len() == start {
        proof {
            assert(body.len() == 0);
        }
        return None;
    }
    let mut acc: u64 = 0;
    let mut i: usize = start;
    while i < cs.len()
        invariant
            start <= i <= cs@.len(),
            cs@ == a@,
            start <= 1,
            (start == 1) == (cs@.len() > 0 && (cs@[0] == '-' || cs@[0] == '+')),
            neg == (cs@.len() > 0 && cs@[0] == '-'),
            body == (if start == 1 {
                cs@.skip(1)
            } else {
                cs@
            }),
            body.len() == cs@.len() - start,
            body.len() > 0,
            acc <= i32::MAX,
            spec_digits_value(body, 0, 0) == spec_digits_value(
                body,
                i - start,
                acc as int,
            ),
        decreases cs@.len() - i,
    {
        proof {
            if start == 1 {
                assert(body[i - start] == cs@.skip(1)[i - 1]);
            }
            assert(body[i - start] == cs@[i as int]);
        }
        let d = match digit_of(cs[i]) {
            Some(d) => d,
            None => {
                return None;
            },
        };
        let next: u64 = acc * 10 + (d as u64);
        if next > (i32::MAX as u64) {
            proof {
                lemma_digits_value_grows(body, i - start + 1, next as int);
            }
            return None;
        }
        acc = next;
        i = i + 1;
    }
    proof {
        assert(spec_digits_value(body, body.len() as int, acc as int) == Some(acc as int));
        assert(spec_digits_value(body, 0, 0) == Some(acc as int));
    }
    if neg {
        if acc == 0 {
            Some(0)
        } else {
            None
        }
    } else {
        Some(acc as i32)
    }
}

/// What the exit builtin decides: with no argument the status is zero;
/// with one, the word must denote a nonnegative 32-bit status. Zero means
/// a clean exit; any other value, and any unusable word, is the
/// command's nonzero status, an unusable word standing for one.
pub open spec fn spec_exit_result(argv: Seq<String>) -> Result<(), WrashError> {
    if argv.len() <= 1 {
        Ok(())
    } else {
        match spec_exit_code(argv[1]@) {
            Some(code) => if code == 0 {
                Ok(())
            } else {
                Err(WrashError::NonZeroExit(code as i32))
            },
            None => Err(WrashError::NonZeroExit(1)),
        }
    }
}

/// Exits the shell session: succeeds on code zero, and otherwise carries
/// the nonzero status out. The first word names the command itself; the
/// optional second word gives the code, and a word that is no nonnegative
/// 32-bit number, or anything after it, counts as status one.
pub fn exit(argv: &Vec<String>) -> (r: Result<(), WrashError>)
    ensures
        argv@.len() <= 2 ==> r == spec_exit_result(argv@),
        argv@.len() > 2 ==> r == Err::<(), WrashError>(WrashError::NonZeroExit(1)),
{
    if argv.len() <= 1 {
        Ok(())
    } else if argv.len() > 2 {
        Err(WrashError::NonZeroExit(1))
    } else {
        match parse_exit_code(argv[1].as_str()) {
            Some(code) => if code == 0 {
                Ok(())
            } else {
                Err(WrashError::NonZeroExit(code))
            },
            None => Err(WrashError::NonZeroExit(1)),
        }
    }
}

/// The directory the cd builtin changes into: the named one when a word
/// was given, the home directory otherwise; with neither, the failure
/// carries status two, the home directory being undeterminable.
pub fn cd_target(arg: Option<String>, home: Option<String>) -> (r: Result<String, WrashError>)
    ensures
        (match (arg, home) {
            (Some(a), _) => r == Ok::<String, WrashError>(a),
            (None, Some(h)) => r == Ok::<String, WrashError>(h),
            (None, None) => r == Err::<String, WrashError>(WrashError::NonZeroExit(2)),
        }),
{
    match arg {
        Some(a) => Ok(a),
        None => match home {
            Some(h) => Ok(h),
            None => Err(WrashError::NonZeroExit(2)),
        },
    }
}

/// What the mode builtin does and prints. Alone, it reports the current
/// mode on the output stream. With a valid mode word it changes the mode,
/// quietly; a frozen session refuses with status one and says so on the
/// error stream. An unusable word, or more than one, is status one with
/// nothing written to either stream.
pub open spec fn spec_mode_outcome(
    frozen: bool,
    mode: SessionMode,
    argv: Seq<String>,
    r: Result<(), WrashError>,
    new_mode: SessionMode,
    out: Seq<char>,
    err: Seq<char>,
) -> bool {
    if argv.len() <= 1 {
        &&& r is Ok
        &&& new_mode == mode
        &&& (out == (match mode {
            SessionMode::Wrapped => "wrapped\n"@,
            SessionMode::Normal => "normal\n"@,
        }))
        &&& err == Seq::<char>::empty()
    } else if argv.len() == 2 && (argv[1]@ == "wrapped"@ || argv[1]@ == "normal"@) {
        let wanted = if argv[1]@ == "wrapped"@ {
            SessionMode::Wrapped
        } else {
            SessionMode::Normal
        };
        if frozen {
            &&& r == Err::<(), WrashError>(WrashError::NonZeroExit(1))
            &&& new_mode == mode
            &&& out == Seq::<char>::empty()
            &&& err == "Error: could not set session mode, session is frozen"@
        } else {
            &&& r is Ok
            &&& new_mode == wanted
            &&& out == Seq::<char>::empty()
            &&& err == Seq::<char>::empty()
        }
    } else {
        &&& r == Err::<(), WrashError>(WrashError::NonZeroExit(1))
        &&& new_mode == mode
        &&& out == Seq::<char>::empty()
        &&& err == Seq::<char>::empty()
    }
}

/// Reports or changes the session's execution mode. The returned strings
/// are what belongs on the output and error streams; the caller writes
/// them out.
pub fn mode(session: &mut Session, argv: &Vec<String>) -> (r: (
    Result<(), WrashError>,
    String,
    String,
))
    ensures
        final(session).log() == old(session).log(),
        final(session).backing() == old(session).backing(),
        final(session).base_spec() == old(session).base_spec(),
        final(session).frozen_spec() == old(session).frozen_spec(),
        spec_mode_outcome(
            old(session).frozen_spec(),
            old(session).mode_spec(),
            argv@,
            r.0,
            final(session).mode_spec(),
            r.1@,
            r.2@,
        ),
{
    if argv.len() <= 1 {
        let mut out = str_chars(session.mode().name().as_str());
        out.push('\n');
        proof {
            reveal_strlit("wrapped");
            reveal_strlit("wrapped\n");
            reveal_strlit("normal");
            reveal_strlit("normal\n");
            assert(out@ =~= (match old(session).mode_spec() {
                SessionMode::Wrapped => "wrapped\n"@,
                SessionMode::Normal => "normal\n"@,
            }));
        }
        return (Ok(()), chars_to_string(&out), empty_string());
    }
    if argv.len() > 2 {
        return (Err(WrashError::NonZeroExit(1)), empty_string(), empty_string());
    }
    match SessionMode::from_str(argv[1].as_str()) {
        Ok(wanted) => {
            match session.set_mode(wanted) {
                Ok(_) => (Ok(()), empty_string(), empty_string()),
                Err(_) => (
                    Err(WrashError::NonZeroExit(1)),
                    empty_string(),
                    "Error: could not set session mode, session is frozen".to_owned(),
                ),
            }
        },
        Err(_) => (Err(WrashError::NonZeroExit(1)), empty_string(), empty_string()),
    }
}

/// The empty text.
fn empty_string() -> (r: String)
    ensures
        r@ == Seq::<char>::empty(),
{
    chars_to_string(&Vec::new())
}

} // verus!
