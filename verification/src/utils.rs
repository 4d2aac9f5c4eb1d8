//! Paths, the operator's answers and other small things that the commands share.

use crate::address::Ipv4Addr;
use crate::command::{local, on_pi, CommandExt, CommandLine, Invocation};
use crate::error::Error;
use crate::identity::key_of;
use crate::text::{chars_of, trim_range, trimmed};
use vstd::prelude::*;

verus! {

/// The directory of the application on a host.
pub fn pi_config() -> (path: &'static str)
    ensures
        path@ == "/home/pi/.pi"@,
{
    "/home/pi/.pi"
}

/// The answer to a question that is put to the operator.
#[derive(Clone, Copy, Debug, PartialEq, Eq, Structural)]
pub enum Prompt {
    Yes,
    No,
}

impl Prompt {
    /// Whether the answer is yes.
    pub fn is_yes(&self) -> (b: bool)
        ensures
            b == (*self == Prompt::Yes),
    {
        match self {
            Prompt::Yes => true,
            Prompt::No => false,
        }
    }

    /// Whether the answer is no.
    pub fn is_no(&self) -> (b: bool)
        ensures
            b == (*self == Prompt::No),
    {
        match self {
            Prompt::Yes => false,
            Prompt::No => true,
        }
    }
}

/// `base` with `part` below it, as a path is joined on Unix: a `part` that starts at
/// the root stands alone, and a separator is put in where `base` does not end with one.
pub open spec fn joined(base: Seq<char>, part: Seq<char>) -> Seq<char> {
    if part.len() > 0 && part[0] == '/' {
        part
    } else if base.len() > 0 && base.last() != '/' {
        base + seq!['/'] + part
    } else {
        base + part
    }
}

/// Joins two paths.
pub fn join(base: &str, part: &str) -> (path: String)
    ensures
        path@ == joined(base@, part@),
{
    proof {
        reveal_strlit("/");
    }
    if part.unicode_len() > 0 && part.get_char(0) == '/' {
        return part.to_owned();
    }
    let mut path = base.to_owned();
    let n: usize = base.unicode_len();
    if n > 0 && base.get_char(n - 1) != '/' {
        path.append("/");
    }
    path.append(part);
    path
}

/// Asks the `home` crate for the home directory of the user (`home::home_dir`), and
/// hands it on as text. What comes back depends on the environment and on the user
/// database of the machine, so nothing is claimed of it. A path that is not Unicode
/// comes back with the replacement character in place of what is not.
#[verifier::external_body]
fn home_dir() -> Option<String> {
    match home::home_dir() {
        Some(path) => Some(path.to_string_lossy().into_owned()),
        None => None,
    }
}

/// What `home` makes of the answer of the machine: a home directory that was not
/// found is an error.
pub fn home_from(found: Option<String>) -> (r: Result<String, Error>)
    ensures
        r == match found {
            Some(path) => Ok::<String, Error>(path),
            None => Err::<String, Error>(Error::Environment),
        },
{
    match found {
        Some(path) => Ok(path),
        None => Err(Error::Environment),
    }
}

/// The home directory of the user. It fails only where the machine names none.
pub fn home() -> (r: Result<String, Error>)
    ensures
        r is Err ==> r == Err::<String, Error>(Error::Environment),
{
    home_from(home_dir())
}

/// What is to be done with the directory of the application before it is used.
#[derive(Debug)]
pub struct ConfigDir {
    /// Where the directory lies.
    pub path: String,
    /// Whether it has to be made first.
    pub create: bool,
}

/// The path of the directory of the application below the home directory `home`.
pub fn app_config_path(home: &str) -> (path: String)
    ensures
        path@ == joined(home@, ".pi"@),
{
    join(home, ".pi")
}

/// The directory of the application below the home directory `home`, given what the
/// file system says of its path: whether anything is there (`present`), and whether
/// what is there is a file. A directory that is missing is to be made; a file in its
/// place is an error.
pub fn app_config(home: &str, present: bool, is_file: bool) -> (r: Result<ConfigDir, Error>)
    ensures
        match r {
            Ok(dir) => dir.path@ == joined(home@, ".pi"@) && dir.create == !present && (!present
                || !is_file),
            Err(e) => e == Error::Io && present && is_file,
        },
{
    let path = app_config_path(home);
    if !present {
        return Ok(ConfigDir { path, create: true });
    }
    if is_file {
        return Err(Error::Io);
    }
    Ok(ConfigDir { path, create: false })
}

/// The command that makes the directory of the application on a host.
pub open spec fn ensure_pi_config_line() -> CommandLine {
    local("mkdir"@, seq!["-p"@, "/home/pi/.pi"@])
}

/// Builds the command that makes the directory of the application on the host `name`,
/// found at `address`.
pub fn ensure_pi_config(name: &str, address: Ipv4Addr) -> (r: Result<Invocation, Error>)
    ensures
        match r {
            Ok(inv) => exists|key: Seq<char>|
                key_of(name@, key) && inv@ == on_pi(ensure_pi_config_line(), address, key),
            Err(e) => e == Error::Environment || e == Error::NoIdentity,
        },
{
    let mut base = Invocation::new("mkdir").arg("-p").arg(pi_config());
    assert(base@.args =~= ensure_pi_config_line().args);
    let r = base.run_on_pi(name, address);
    proof {
        if r is Ok {
            let inv = r->Ok_0;
            let key = choose|key: Seq<char>|
                key_of(name@, key) && inv.line() == on_pi(ensure_pi_config_line(), address, key);
            assert(key_of(name@, key) && inv@ == on_pi(ensure_pi_config_line(), address, key));
        }
    }
    r
}

/// The operator's answer to a question with the default `default`, as the line
/// `line` gives it. Only the first character that is not whitespace counts: with the
/// default yes, everything but an `n` is a yes; with the default no, only a `y` is a
/// yes. Capital letters count as small ones.
pub open spec fn answer_of(default: Prompt, line: Seq<char>) -> Prompt {
    let c = trimmed(line)[0];
    let yes = match default {
        Prompt::Yes => !(c == 'n' || c == 'N'),
        Prompt::No => c == 'y' || c == 'Y',
    };
    if yes {
        Prompt::Yes
    } else {
        Prompt::No
    }
}

/// Whether `line` holds an answer at all: something other than whitespace.
pub open spec fn holds_answer(line: Seq<char>) -> bool {
    trimmed(line).len() > 0
}

/// Tells whether `line` holds an answer at all.
pub fn has_answer(line: &str) -> (b: bool)
    ensures
        b == holds_answer(line@),
{
    let chars = chars_of(line);
    let (from, to) = trim_range(chars.as_slice(), 0, chars.len());
    assert(chars@.subrange(0, chars@.len() as int) =~= chars@);
    to > from
}

/// Reads the operator's answer from the line that was typed.
pub fn read_prompt(default: &Prompt, line: &str) -> (answer: Prompt)
    requires
        holds_answer(line@),
    ensures
        answer == answer_of(*default, line@),
{
    let chars = chars_of(line);
    let (from, to) = trim_range(chars.as_slice(), 0, chars.len());
    assert(chars@.subrange(0, chars@.len() as int) =~= chars@);
    let c: char = chars[from];
    assert(c == trimmed(line@)[0]);
    let yes = match default {
        Prompt::Yes => !(c == 'n' || c == 'N'),
        Prompt::No => c == 'y' || c == 'Y',
    };
    if yes {
        Prompt::Yes
    } else {
        Prompt::No
    }
}

/// The line that was typed, without the whitespace around it.
pub fn read_line(line: &str) -> (text: String)
    ensures
        text@ == trimmed(line@),
{
    let chars = chars_of(line);
    let (from, to) = trim_range(chars.as_slice(), 0, chars.len());
    assert(chars@.subrange(0, chars@.len() as int) =~= chars@);
    line.substring_char(from, to).to_owned()
}

/// Keeps the low eight bits of the exit code of a process.
pub fn truncate(x: i32) -> (r: u8)
    ensures
        r as int == (x as int) % 256,
{
    let low: i32 = x & 0xff;
    assert(0 <= low < 256 && low as int == (x as int) % 256) by (bit_vector)
        requires
            low == x & 0xff,
    ;
    low as u8
}

/// The exit code of this program after a remote shell has ended with `status`: the low
/// eight bits of the shell's code, or 1 where it ended without one.
pub fn exit_code(status: Option<i32>) -> (code: u8)
    ensures
        code as int == match status {
            Some(x) => (x as int) % 256,
            None => 1,
        },
{
    match status {
        Some(x) => truncate(x),
        None => 1,
    }
}

} // verus!
