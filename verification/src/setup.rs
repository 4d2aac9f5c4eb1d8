//! Setting up a host: a script of the operator is sent to it and run there, first as
//! root and then as the user.

use crate::command::{CommandLine, Invocation};
use crate::utils::{join, joined, pi_config};
use vstd::prelude::*;

verus! {

/// Where the script lies on the host.
pub open spec fn target_path() -> Seq<char> {
    "/home/pi/.pi"@ + "/pi.sh"@
}

/// Writes `target_path`.
pub fn target() -> (path: String)
    ensures
        path@ == target_path(),
{
    let mut path = pi_config().to_owned();
    path.append("/pi.sh");
    path
}

/// The script to send where the operator named none: the one that bears the name of
/// the host in the directory of the application.
pub open spec fn default_script(app_config: Seq<char>, name: Seq<char>) -> Seq<char> {
    joined(app_config, name + ".sh"@)
}

/// The script to send to the host `name`: the one that the operator named, or else the
/// default.
pub fn script(app_config: &str, name: &str, given: Option<String>) -> (path: String)
    ensures
        path@ == match given {
            Some(named) => named@,
            None => default_script(app_config@, name@),
        },
{
    match given {
        Some(named) => named,
        None => {
            let mut file = name.to_owned();
            file.append(".sh");
            join(app_config, file.as_str())
        },
    }
}

/// The command that makes the script on the host executable.
pub open spec fn make_executable_line() -> CommandLine {
    CommandLine {
        program: "chmod"@,
        args: seq!["+x"@, target_path()],
        as_root: false,
        remote: None,
    }
}

/// Builds `make_executable_line`. It is still to be sent to the host.
pub fn make_executable() -> (r: Invocation)
    ensures
        r@ == make_executable_line(),
{
    let path = target();
    let r = Invocation::new("chmod").arg("+x").arg(path.as_str());
    assert(r@.args =~= make_executable_line().args);
    r
}

/// The command that runs the part of the script that is for root or, with `as_root`
/// false, the part that is for the user.
pub open spec fn run_line(as_root: bool) -> CommandLine {
    CommandLine {
        program: target_path(),
        args: seq![
            if as_root {
                "root"@
            } else {
                "user"@
            },
        ],
        as_root,
        remote: None,
    }
}

/// Builds `run_line`. It is still to be sent to the host.
pub fn run(as_root: bool) -> (r: Invocation)
    ensures
        r@ == run_line(as_root),
{
    let path = target();
    let r = if as_root {
        Invocation::new(path.as_str()).arg("root").run_as_root()
    } else {
        Invocation::new(path.as_str()).arg("user")
    };
    assert(r@.args =~= run_line(as_root).args);
    r
}

} // verus!
