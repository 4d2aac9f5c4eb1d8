//! The commands that are run for the operator, as plain values: which program, with
//! which arguments, as which user and on which host.

use crate::address::Ipv4Addr;
use crate::error::Error;
use crate::identity::{key_of, Created, Identity};
use crate::seal::Sealed;
use vstd::prelude::*;

verus! {

/// The host that a command runs on, as the contracts see it.
pub struct Target {
    pub user: Seq<char>,
    pub address: Ipv4Addr,
    pub key: Seq<char>,
}

/// A command as the contracts see it.
pub struct CommandLine {
    pub program: Seq<char>,
    pub args: Seq<Seq<char>>,
    pub as_root: bool,
    pub remote: Option<Target>,
}

/// A host to run a command on: the user to log in as, the address, and the path of the
/// private key to log in with.
#[derive(Debug)]
pub struct Remote {
    pub user: String,
    pub address: Ipv4Addr,
    pub key: String,
}

/// A command to run: a program and its arguments, whether it is to run as root, and
/// the host to run it on where that is not this machine.
#[derive(Debug)]
pub struct Invocation {
    pub program: String,
    pub args: Vec<String>,
    pub as_root: bool,
    pub remote: Option<Remote>,
}

/// The texts of `v`, in order.
pub open spec fn texts(v: Seq<String>) -> Seq<Seq<char>> {
    Seq::new(v.len(), |i: int| v[i]@)
}

impl View for Remote {
    type V = Target;

    open spec fn view(&self) -> Target {
        Target { user: self.user@, address: self.address, key: self.key@ }
    }
}

impl View for Invocation {
    type V = CommandLine;

    open spec fn view(&self) -> CommandLine {
        CommandLine {
            program: self.program@,
            args: texts(self.args@),
            as_root: self.as_root,
            remote: match self.remote {
                Some(remote) => Some(remote@),
                None => None,
            },
        }
    }
}

/// The command `program` without arguments, to run on this machine as the operator.
pub open spec fn bare(program: Seq<char>) -> CommandLine {
    CommandLine { program, args: Seq::empty(), as_root: false, remote: None }
}

/// The command `program` with the arguments `args`, to run on this machine as the
/// operator.
pub open spec fn local(program: Seq<char>, args: Seq<Seq<char>>) -> CommandLine {
    CommandLine { program, args, as_root: false, remote: None }
}

/// `line`, to run on the host at `address` as the user `pi`, with `key` to log in.
pub open spec fn on_pi(line: CommandLine, address: Ipv4Addr, key: Seq<char>) -> CommandLine {
    CommandLine { remote: Some(Target { user: "pi"@, address, key }), ..line }
}

/// The user `pi` at `address`, as the remote tools name a login.
pub open spec fn login(address: Ipv4Addr) -> Seq<char> {
    "pi@"@ + address.dotted()
}

/// The place `path` on the host at `address`, as the remote tools name it.
pub open spec fn place(address: Ipv4Addr, path: Seq<char>) -> Seq<char> {
    login(address) + ":"@ + path
}

/// The words that start the process of a command: the program first, its arguments
/// after it. A command that is to run as root goes through `sudo`; a command for
/// another host goes through `ssh`, which logs in with the key of that host.
pub open spec fn argv(line: CommandLine) -> Seq<Seq<char>> {
    let own = if line.as_root {
        seq!["sudo"@, line.program] + line.args
    } else {
        seq![line.program] + line.args
    };
    match line.remote {
        Some(target) => seq![
            "ssh"@,
            "-i"@,
            target.key,
            target.user + "@"@ + target.address.dotted(),
        ] + own,
        None => own,
    }
}

/// The texts of `parts` with one space between each two.
pub open spec fn spaced(parts: Seq<Seq<char>>) -> Seq<char>
    decreases parts.len(),
{
    if parts.len() == 0 {
        Seq::empty()
    } else if parts.len() == 1 {
        parts[0]
    } else {
        spaced(parts.drop_last()) + " "@ + parts.last()
    }
}

/// Copies `v`.
pub fn copy_texts(v: &Vec<String>) -> (r: Vec<String>)
    ensures
        texts(r@) == texts(v@),
{
    let mut r: Vec<String> = Vec::new();
    let mut i: usize = 0;
    while i < v.len()
        invariant
            i <= v.len(),
            r@.len() == i,
            texts(r@) == texts(v@).take(i as int),
        decreases v.len() - i,
    {
        let ghost before = r@;
        r.push(v[i].clone());
        proof {
            assert forall|j: int| 0 <= j < i + 1 implies texts(r@)[j] == texts(v@)[j] by {
                if j < i {
                    assert(texts(before)[j] == texts(v@).take(i as int)[j]);
                }
            }
            assert(texts(r@) =~= texts(v@).take(i + 1));
        }
        i += 1;
    }
    assert(texts(v@).take(i as int) =~= texts(v@));
    r
}

/// Writes `login(address)`.
pub fn login_text(address: Ipv4Addr) -> (text: String)
    ensures
        text@ == login(address),
{
    let mut text = "pi@".to_owned();
    address.write_to(&mut text);
    text
}

/// Writes `place(address, path)`.
pub fn place_text(address: Ipv4Addr, path: &str) -> (text: String)
    ensures
        text@ == place(address, path@),
{
    let mut text = login_text(address);
    text.append(":");
    text.append(path);
    text
}

/// Writes `spaced` of `parts`.
pub fn spaced_text(parts: &Vec<String>) -> (text: String)
    ensures
        text@ == spaced(texts(parts@)),
{
    let ghost all = texts(parts@);
    let mut text = String::new();
    let mut i: usize = 0;
    assert(all.take(0) =~= Seq::<Seq<char>>::empty());
    while i < parts.len()
        invariant
            i <= parts.len(),
            all == texts(parts@),
            text@ == spaced(all.take(i as int)),
        decreases parts.len() - i,
    {
        let ghost before = text@;
        if i > 0 {
            text.append(" ");
        }
        text.append(parts[i].as_str());
        proof {
            let next = all.take(i + 1);
            assert(next.drop_last() =~= all.take(i as int));
            assert(next.last() == parts@[i as int]@);
            if i == 0 {
                assert(text@ =~= next[0]);
            }
        }
        i += 1;
    }
    assert(all.take(i as int) =~= all);
    text
}

impl Remote {
    /// Copies the host.
    pub fn duplicate(&self) -> (r: Remote)
        ensures
            r@ == self@,
    {
        Remote { user: self.user.clone(), address: self.address, key: self.key.clone() }
    }
}

impl Invocation {
    /// The command `program`, without arguments, to run here as the operator.
    pub fn new(program: &str) -> (r: Invocation)
        ensures
            r@ == bare(program@),
    {
        let r = Invocation {
            program: program.to_owned(),
            args: Vec::new(),
            as_root: false,
            remote: None,
        };
        assert(r@.args =~= Seq::<Seq<char>>::empty());
        r
    }

    /// The command with one more argument at the end.
    pub fn arg(self, arg: &str) -> (r: Invocation)
        ensures
            r@ == (CommandLine { args: self@.args.push(arg@), ..self@ }),
    {
        let mut r = self;
        r.args.push(arg.to_owned());
        assert(r@.args =~= self@.args.push(arg@));
        r
    }

    /// The command with the arguments `args` after its own.
    pub fn args(self, args: &Vec<String>) -> (r: Invocation)
        ensures
            r@ == (CommandLine { args: self@.args + texts(args@), ..self@ }),
    {
        let mut r = self;
        let mut i: usize = 0;
        assert(self@.args + texts(args@).take(0) =~= self@.args);
        while i < args.len()
            invariant
                i <= args.len(),
                r@ == (CommandLine { args: self@.args + texts(args@).take(i as int), ..self@ }),
            decreases args.len() - i,
        {
            let ghost before = r@.args;
            r.args.push(args[i].clone());
            assert(r@.args =~= before.push(args@[i as int]@));
            assert(r@.args =~= self@.args + texts(args@).take(i + 1));
            i += 1;
        }
        assert(texts(args@).take(i as int) =~= texts(args@));
        r
    }

    /// The command, to run as root.
    pub fn run_as_root(self) -> (r: Invocation)
        ensures
            r@ == (CommandLine { as_root: true, ..self@ }),
    {
        let mut r = self;
        r.as_root = true;
        r
    }

    /// Copies the command.
    pub fn duplicate(&self) -> (r: Invocation)
        ensures
            r@ == self@,
    {
        Invocation {
            program: self.program.clone(),
            args: copy_texts(&self.args),
            as_root: self.as_root,
            remote: match &self.remote {
                Some(remote) => Some(remote.duplicate()),
                None => None,
            },
        }
    }

    /// The words that start the process of the command.
    pub fn argv(&self) -> (words: Vec<String>)
        ensures
            texts(words@) == argv(self@),
            words@.len() >= 1,
    {
        let mut words: Vec<String> = Vec::new();
        assert(texts(words@) =~= Seq::<Seq<char>>::empty());
        if let Some(remote) = &self.remote {
            let mut login = remote.user.clone();
            login.append("@");
            remote.address.write_to(&mut login);
            words.push("ssh".to_owned());
            words.push("-i".to_owned());
            words.push(remote.key.clone());
            words.push(login);
            assert(texts(words@) =~= seq![
                "ssh"@,
                "-i"@,
                remote@.key,
                remote@.user + "@"@ + remote@.address.dotted(),
            ]);
        }
        let ghost head = texts(words@);
        if self.as_root {
            words.push("sudo".to_owned());
        }
        words.push(self.program.clone());
        let ghost start = texts(words@);
        assert(start =~= head + if self.as_root {
            seq!["sudo"@, self.program@]
        } else {
            seq![self.program@]
        });
        let mut i: usize = 0;
        assert(texts(self.args@).take(0) =~= Seq::<Seq<char>>::empty());
        assert(start + texts(self.args@).take(0) =~= start);
        while i < self.args.len()
            invariant
                i <= self.args.len(),
                texts(words@) == start + texts(self.args@).take(i as int),
            decreases self.args.len() - i,
        {
            let ghost before = texts(words@);
            words.push(self.args[i].clone());
            assert(texts(words@) =~= before.push(self.args@[i as int]@));
            assert(texts(words@) =~= start + texts(self.args@).take(i + 1));
            i += 1;
        }
        assert(texts(self.args@).take(i as int) =~= texts(self.args@));
        assert(texts(words@) =~= argv(self@));
        words
    }

    /// The same command, to run on the host at `address` as `user`, with the private key
    /// at `key` to log in.
    pub fn run_on_remote(&self, user: &str, address: Ipv4Addr, key: String) -> (r: Invocation)
        ensures
            r@ == (CommandLine {
                remote: Some(Target { user: user@, address, key: key@ }),
                ..self@
            }),
    {
        Invocation {
            program: self.program.clone(),
            args: copy_texts(&self.args),
            as_root: self.as_root,
            remote: Some(Remote { user: user.to_owned(), address, key }),
        }
    }
}

impl Sealed for Invocation {

}

/// What a command gains in this library: it can be sent to a host of the fleet.
pub trait CommandExt: Sealed + Sized {
    /// The command as the contracts see it.
    spec fn line(&self) -> CommandLine;

    /// The same command, to run on the host `name`, which was found at `address`. The
    /// key pair of the host must be on disk: the command logs in with its private key.
    fn run_on_pi(&mut self, name: &str, address: Ipv4Addr) -> (r: Result<Self, Error>)
        ensures
            final(self).line() == old(self).line(),
            match r {
                Ok(sent) => exists|key: Seq<char>|
                    key_of(name@, key) && sent.line() == on_pi(old(self).line(), address, key),
                Err(e) => e == Error::Environment || e == Error::NoIdentity,
            },
    ;
}

impl CommandExt for Invocation {
    open spec fn line(&self) -> CommandLine {
        self@
    }

    fn run_on_pi(&mut self, name: &str, address: Ipv4Addr) -> (r: Result<Invocation, Error>) {
        match Identity::private(name) {
            Ok(key) => {
                let sent = self.run_on_remote("pi", address, key);
                assert(sent@ == on_pi(self@, address, key@));
                Ok(sent)
            },
            Err(e) => Err(e),
        }
    }
}

/// The command that prints the file `path`.
pub open spec fn cat_line(path: Seq<char>) -> CommandLine {
    local("cat"@, seq![path])
}

/// The command that mounts the directory `src` of the host at `address` on the local
/// directory `dst`.
pub open spec fn mount_line(
    address: Ipv4Addr,
    key: Seq<char>,
    src: Seq<char>,
    dst: Seq<char>,
) -> CommandLine {
    local("sshfs"@, seq!["-o"@, "IdentityFile="@ + key, place(address, src), dst])
}

/// The command that copies `files` from the host at `address` into the local `dst`.
pub open spec fn pull_line(
    address: Ipv4Addr,
    key: Seq<char>,
    files: Seq<Seq<char>>,
    dst: Seq<char>,
) -> CommandLine {
    local("scp"@, seq!["-i"@, key, place(address, spaced(files)), dst])
}

/// The command that copies the local `files` to `dst` on the host at `address`.
pub open spec fn push_line(
    address: Ipv4Addr,
    key: Seq<char>,
    files: Seq<Seq<char>>,
    dst: Seq<char>,
) -> CommandLine {
    local("scp"@, seq!["-i"@, key] + files + seq![place(address, dst)])
}

/// The command that opens a shell on the host at `address`.
pub open spec fn shell_line(address: Ipv4Addr, key: Seq<char>) -> CommandLine {
    local("ssh"@, seq!["-i"@, key, login(address)])
}

/// Builds `mount_line`.
pub fn sshfs(address: Ipv4Addr, key: &str, src: &str, dst: &str) -> (r: Invocation)
    ensures
        r@ == mount_line(address, key@, src@, dst@),
{
    let mut option = "IdentityFile=".to_owned();
    option.append(key);
    let from = place_text(address, src);
    let r = Invocation::new("sshfs").arg("-o").arg(option.as_str()).arg(from.as_str()).arg(dst);
    assert(r@.args =~= mount_line(address, key@, src@, dst@).args);
    r
}

/// Builds `pull_line`.
pub fn scp_from(address: Ipv4Addr, key: &str, files: &Vec<String>, dst: &str) -> (r: Invocation)
    ensures
        r@ == pull_line(address, key@, texts(files@), dst@),
{
    let list = spaced_text(files);
    let from = place_text(address, list.as_str());
    let r = Invocation::new("scp").arg("-i").arg(key).arg(from.as_str()).arg(dst);
    assert(r@.args =~= pull_line(address, key@, texts(files@), dst@).args);
    r
}

/// Builds `push_line`.
pub fn scp_to(address: Ipv4Addr, key: &str, files: &Vec<String>, dst: &str) -> (r: Invocation)
    ensures
        r@ == push_line(address, key@, texts(files@), dst@),
{
    let to = place_text(address, dst);
    let r = Invocation::new("scp").arg("-i").arg(key).args(files).arg(to.as_str());
    assert(r@.args =~= push_line(address, key@, texts(files@), dst@).args);
    r
}

/// Builds `shell_line`.
pub fn ssh(address: Ipv4Addr, key: &str) -> (r: Invocation)
    ensures
        r@ == shell_line(address, key@),
{
    let to = login_text(address);
    let r = Invocation::new("ssh").arg("-i").arg(key).arg(to.as_str());
    assert(r@.args =~= shell_line(address, key@).args);
    r
}

/// The command that reads the file `path` on the host `name`, found at `address`.
pub fn cat(name: &str, address: Ipv4Addr, path: &str) -> (r: Result<Invocation, Error>)
    ensures
        match r {
            Ok(inv) => exists|key: Seq<char>|
                key_of(name@, key) && inv@ == on_pi(cat_line(path@), address, key),
            Err(e) => e == Error::Environment || e == Error::NoIdentity,
        },
{
    let mut base = Invocation::new("cat").arg(path);
    assert(base@.args =~= cat_line(path@).args);
    base.run_on_pi(name, address)
}

/// The command that mounts the directory `src` of the host `name`, found at `address`,
/// on the local directory `dst`.
pub fn mount(name: &str, address: Ipv4Addr, src: &str, dst: &str) -> (r: Result<
    Invocation,
    Error,
>)
    ensures
        match r {
            Ok(inv) => exists|key: Seq<char>|
                key_of(name@, key) && inv@ == mount_line(address, key, src@, dst@),
            Err(e) => e == Error::Environment || e == Error::NoIdentity,
        },
{
    match Identity::private(name) {
        Ok(key) => Ok(sshfs(address, key.as_str(), src, dst)),
        Err(e) => Err(e),
    }
}

/// The command that copies `files` from the host `name`, found at `address`, into the
/// local `dst`.
pub fn pull(name: &str, address: Ipv4Addr, files: &Vec<String>, dst: &str) -> (r: Result<
    Invocation,
    Error,
>)
    ensures
        match r {
            Ok(inv) => exists|key: Seq<char>|
                key_of(name@, key) && inv@ == pull_line(address, key, texts(files@), dst@),
            Err(e) => e == Error::Environment || e == Error::NoIdentity,
        },
{
    match Identity::private(name) {
        Ok(key) => Ok(scp_from(address, key.as_str(), files, dst)),
        Err(e) => Err(e),
    }
}

/// The command that copies the local `files` to `dst` on the host `name`, found at
/// `address`.
pub fn push(name: &str, address: Ipv4Addr, files: &Vec<String>, dst: &str) -> (r: Result<
    Invocation,
    Error,
>)
    ensures
        match r {
            Ok(inv) => exists|key: Seq<char>|
                key_of(name@, key) && inv@ == push_line(address, key, texts(files@), dst@),
            Err(e) => e == Error::Environment || e == Error::NoIdentity,
        },
{
    match Identity::private(name) {
        Ok(key) => Ok(scp_to(address, key.as_str(), files, dst)),
        Err(e) => Err(e),
    }
}

/// The command that puts the local file `staged`, which holds what is to be sent, at
/// `path` on the host `name`, found at `address`.
pub fn send(name: &str, address: Ipv4Addr, staged: &str, path: &str) -> (r: Result<
    Invocation,
    Error,
>)
    ensures
        match r {
            Ok(inv) => exists|key: Seq<char>|
                key_of(name@, key) && inv@ == push_line(address, key, seq![staged@], path@),
            Err(e) => e == Error::Environment || e == Error::NoIdentity,
        },
{
    let mut files: Vec<String> = Vec::new();
    files.push(staged.to_owned());
    assert(texts(files@) =~= seq![staged@]);
    push(name, address, &files, path)
}

/// The command of the operator on the host: the first word is the program and the
/// others are its arguments.
pub open spec fn words_line(words: Seq<Seq<char>>) -> CommandLine {
    local(words[0], words.skip(1))
}

/// The command for a remote shell on the host `name`, found at `address`. With words
/// from the operator, it is their command on the host; without any, it is a shell on
/// the host for the operator to type in.
pub fn shell(name: &str, address: Ipv4Addr, words: &Vec<String>) -> (r: Result<
    Invocation,
    Error,
>)
    ensures
        match r {
            Ok(inv) => exists|key: Seq<char>|
                key_of(name@, key) && inv@ == if words@.len() > 0 {
                    on_pi(words_line(texts(words@)), address, key)
                } else {
                    shell_line(address, key)
                },
            Err(e) => e == Error::Environment || e == Error::NoIdentity,
        },
{
    if words.len() == 0 {
        return match Identity::private(name) {
            Ok(key) => Ok(ssh(address, key.as_str())),
            Err(e) => Err(e),
        };
    }
    let mut base = Invocation::new(words[0].as_str());
    let mut i: usize = 1;
    assert(texts(words@).subrange(1, 1) =~= Seq::<Seq<char>>::empty());
    while i < words.len()
        invariant
            1 <= i <= words.len(),
            base@ == local(words@[0]@, texts(words@).subrange(1, i as int)),
        decreases words.len() - i,
    {
        let ghost before = base@.args;
        base = base.arg(words[i].as_str());
        assert(base@.args =~= texts(words@).subrange(1, i + 1));
        i += 1;
    }
    assert(texts(words@).subrange(1, i as int) =~= texts(words@).skip(1));
    base.run_on_pi(name, address)
}

} // verus!
