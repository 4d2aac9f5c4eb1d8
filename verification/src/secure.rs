//! Securing a host: its remote shell is told to refuse passwords.

use crate::command::{local, CommandLine, Invocation};
use crate::utils::{join, joined, pi_config};
use vstd::prelude::*;

verus! {

/// The directory of the host that holds the configuration of its remote shell.
pub fn sshd_dir() -> (path: &'static str)
    ensures
        path@ == "/etc/ssh"@,
{
    "/etc/ssh"
}

/// The name of the file that holds the configuration of the remote shell.
pub fn sshd_file() -> (name: &'static str)
    ensures
        name@ == "sshd_config"@,
{
    "sshd_config"
}

/// The path of the configuration of the remote shell, where the directory of the host
/// that holds it is mounted on the local directory `dir`.
pub fn read_sshd(dir: &str) -> (path: String)
    ensures
        path@ == joined(dir@, "sshd_config"@),
{
    join(dir, sshd_file())
}

/// The configuration `sshd` with the line that refuses passwords after it.
pub open spec fn hardened(sshd: Seq<char>) -> Seq<char> {
    sshd + "\nPasswordAuthentication no"@ + "\n"@
}

/// Writes the configuration that refuses passwords, from the one that the host has.
pub fn harden(sshd: &str) -> (text: String)
    ensures
        text@ == hardened(sshd@),
{
    let mut text = sshd.to_owned();
    text.append("\nPasswordAuthentication no");
    text.append("\n");
    text
}

/// The command that lets go of what is mounted on the local directory `path`.
pub open spec fn unmount_line(path: Seq<char>) -> CommandLine {
    local("fusermount"@, seq!["-u"@, path])
}

/// Builds `unmount_line`.
pub fn unmount(path: &str) -> (r: Invocation)
    ensures
        r@ == unmount_line(path@),
{
    let r = Invocation::new("fusermount").arg("-u").arg(path);
    assert(r@.args =~= unmount_line(path@).args);
    r
}

/// Where the new configuration lies once it was pushed to the directory of the
/// application on the host.
pub open spec fn staged_sshd() -> Seq<char> {
    "/home/pi/.pi"@ + "/sshd_config"@
}

/// The command that puts the new configuration in place: on the host it runs as root.
pub open spec fn install_line() -> CommandLine {
    CommandLine {
        program: "mv"@,
        args: seq![staged_sshd(), "/etc/ssh/sshd_config"@],
        as_root: true,
        remote: None,
    }
}

/// Builds `install_line`. It is still to be sent to the host.
pub fn install() -> (r: Invocation)
    ensures
        r@ == install_line(),
{
    let mut staged = pi_config().to_owned();
    staged.append("/sshd_config");
    let r = Invocation::new("mv").arg(staged.as_str()).arg("/etc/ssh/sshd_config").run_as_root();
    assert(r@.args =~= install_line().args);
    r
}

} // verus!
