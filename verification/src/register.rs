//! Registration of a host: its key pair is made or taken over, and the operator's file
//! of known hosts is cleared of the address that the host now has.

use crate::address::{parse_address, parse_range, Ipv4Addr};
use crate::command::{copy_texts, local, login, login_text, texts, CommandLine, Invocation};
use crate::discovery::local_name;
use crate::error::Error;
use crate::identity::{Created, Identity, Unknown};
use crate::text::{
    chars_of, lemma_unlines_push, line_ranges, lines_of, pieces, span, span_end, unlines, within,
    Delimiter,
};
use crate::utils::Prompt;
use vstd::prelude::*;

verus! {

/// The question whether the key pair that was found for the host `name` is to be kept.
/// Its default answer is yes.
pub fn reuse_question(name: &str) -> (text: String)
    ensures
        text@ == "Found existing identity for "@ + name@ + ", reuse? [Y/n]: "@,
{
    let mut text = "Found existing identity for ".to_owned();
    text.append(name);
    text.append(", reuse? [Y/n]: ");
    text
}

/// The question whether the key pair that was found for the host `name` is to be
/// replaced. Its default answer is no.
pub fn overwrite_question(name: &str) -> (text: String)
    ensures
        text@ == "Overwrite previous identity for "@ + name@ + "? [y/N]: "@,
{
    let mut text = "Overwrite previous identity for ".to_owned();
    text.append(name);
    text.append("? [y/N]: ");
    text
}

/// A key pair that the operator did not want to keep: whether it is to be replaced is
/// the next question.
#[derive(Debug)]
pub struct Overwrite {
    id: Identity<Created>,
}

/// What follows the operator's answer to the question whether a key pair is kept.
#[derive(Debug)]
pub enum Reuse {
    /// The key pair is kept.
    Keep(Identity<Created>),
    /// The operator is to be asked whether the key pair is replaced.
    Ask(Overwrite),
}

/// Takes in the operator's answer to the question whether the key pair `id`, which was
/// found on disk, is kept.
pub fn check_reuse(id: Identity<Created>, answer: &Prompt) -> (r: Reuse)
    ensures
        match r {
            Reuse::Keep(kept) => *answer == Prompt::Yes && kept == id,
            Reuse::Ask(next) => *answer == Prompt::No && next.identity() == id,
        },
{
    if answer.is_yes() {
        return Reuse::Keep(id);
    }
    Reuse::Ask(Overwrite { id })
}

impl Overwrite {
    /// The key pair in question.
    pub closed spec fn identity(&self) -> Identity<Created> {
        self.id
    }

    /// Takes in the operator's answer to the question whether the key pair is
    /// replaced. With a yes the key pair comes back, to be deleted and made anew; with
    /// a no the registration is over.
    pub fn answered(self, answer: &Prompt) -> (r: Result<Identity<Created>, Error>)
        ensures
            match r {
                Ok(id) => *answer == Prompt::Yes && id == self.identity(),
                Err(e) => *answer == Prompt::No && e == Error::Aborted,
            },
    {
        if answer.is_yes() {
            return Ok(self.id);
        }
        Err(Error::Aborted)
    }
}

/// The comment that a key made for the host `name` carries.
pub open spec fn key_comment(name: Seq<char>) -> Seq<char> {
    "Auto-generated key for "@ + local_name(name)
}

/// The command that makes a key pair for the host `name` at the path `private`: an RSA
/// key without a passphrase, so that nothing ever asks the operator for one.
pub open spec fn keygen_line(name: Seq<char>, private: Seq<char>) -> CommandLine {
    local(
        "ssh-keygen"@,
        seq!["-t"@, "rsa"@, "-N"@, ""@, "-C"@, key_comment(name), "-f"@, private],
    )
}

/// Builds the command that makes the key pair `id` for the host `name`.
pub fn keygen(name: &str, id: &Identity<Unknown>) -> (r: Invocation)
    ensures
        r@ == keygen_line(name@, id.private_file()),
{
    let mut comment = "Auto-generated key for ".to_owned();
    comment.append(name);
    comment.append(".local");
    assert(comment@ =~= key_comment(name@));
    let r = Invocation::new("ssh-keygen").arg("-t").arg("rsa").arg("-N").arg("").arg("-C").arg(
        comment.as_str(),
    ).arg("-f").arg(id.private_str());
    assert(r@.args =~= keygen_line(name@, id.private_file()).args);
    r
}

/// The identity after the command of `keygen` has run; `success` says whether the
/// command reported success. A command that failed is an error. After one that
/// succeeded the two files are looked for on disk, and they must be there.
pub fn generate_id(id: Identity<Unknown>, success: bool) -> (r: Result<Identity<Created>, Error>)
    ensures
        match r {
            Ok(made) => success && made.same_files(id),
            Err(e) => if success {
                e == Error::NoIdentity
            } else {
                e == Error::Io
            },
        },
{
    if !success {
        return Err(Error::Io);
    }
    Identity::found(id.check_exists())
}

/// The command that installs the public key of `id` on the host at `address`.
pub open spec fn send_id_line(public: Seq<char>, address: Ipv4Addr) -> CommandLine {
    local("ssh-copy-id"@, seq!["-i"@, public, login(address)])
}

/// Builds `send_id_line`.
pub fn send_id(id: &Identity<Created>, address: Ipv4Addr) -> (r: Invocation)
    ensures
        r@ == send_id_line(id.public_file(), address),
{
    let to = login_text(address);
    let r = Invocation::new("ssh-copy-id").arg("-i").arg(id.public_key()).arg(to.as_str());
    assert(r@.args =~= send_id_line(id.public_file(), address).args);
    r
}

/// The keys that the file of known hosts holds for one address, as the contracts see
/// them: the address, and the rest of each of its lines, in order.
pub type HostKeys = (Ipv4Addr, Seq<Seq<char>>);

/// The keys that the file of known hosts holds for one address.
#[derive(Debug)]
pub struct KnownHost {
    pub address: Ipv4Addr,
    pub keys: Vec<String>,
}

impl View for KnownHost {
    type V = HostKeys;

    open spec fn view(&self) -> HostKeys {
        (self.address, texts(self.keys@))
    }
}

/// The entries that `v` holds, in order.
pub open spec fn host_views(v: Seq<KnownHost>) -> Seq<HostKeys> {
    Seq::new(v.len(), |i: int| v[i]@)
}

/// Where the entry of `address` stands in `hosts`.
pub open spec fn host_index(hosts: Seq<HostKeys>, address: Ipv4Addr) -> Option<int>
    decreases hosts.len(),
{
    if hosts.len() == 0 {
        None
    } else {
        match host_index(hosts.drop_last(), address) {
            Some(i) => Some(i),
            None => if hosts.last().0 == address {
                Some(hosts.len() - 1)
            } else {
                None
            },
        }
    }
}

/// `hosts` with `key` as one more key of `address`: at the end of the entry that the
/// address has, or else in a new entry at the end.
pub open spec fn with_key(hosts: Seq<HostKeys>, address: Ipv4Addr, key: Seq<char>) -> Seq<
    HostKeys,
> {
    match host_index(hosts, address) {
        Some(i) => hosts.update(i, (address, hosts[i].1.push(key))),
        None => hosts.push((address, seq![key])),
    }
}

/// `hosts` without the entries of `address`.
pub open spec fn without(hosts: Seq<HostKeys>, address: Ipv4Addr) -> Seq<HostKeys>
    decreases hosts.len(),
{
    if hosts.len() == 0 {
        Seq::empty()
    } else if hosts.last().0 == address {
        without(hosts.drop_last(), address)
    } else {
        without(hosts.drop_last(), address).push(hosts.last())
    }
}

/// What one line of the file of known hosts says: the text before the first whitespace
/// character must be the text of an address, and what follows that character is a key
/// of the address. A line without whitespace says nothing.
pub open spec fn parse_known_line(line: Seq<char>) -> Option<(Ipv4Addr, Seq<char>)> {
    let k = span(line, Delimiter::Whitespace) as int;
    if k >= line.len() {
        None
    } else {
        match parse_address(line.take(k)) {
            Some(address) => Some((address, line.skip(k + 1))),
            None => None,
        }
    }
}

/// The entries that the lines `ls` state, or nothing where a line states none.
pub open spec fn parse_known_lines(ls: Seq<Seq<char>>) -> Option<Seq<HostKeys>>
    decreases ls.len(),
{
    if ls.len() == 0 {
        Some(Seq::empty())
    } else {
        match (parse_known_lines(ls.drop_last()), parse_known_line(ls.last())) {
            (Some(hosts), Some(entry)) => Some(with_key(hosts, entry.0, entry.1)),
            _ => None,
        }
    }
}

/// The entries that the text of a file of known hosts states.
pub open spec fn parse_known_hosts(text: Seq<char>) -> Option<Seq<HostKeys>> {
    parse_known_lines(lines_of(text))
}

/// The lines of one entry: for each key, the address, a space and the key.
pub open spec fn host_lines(entry: HostKeys) -> Seq<Seq<char>> {
    Seq::new(entry.1.len(), |i: int| entry.0.dotted() + seq![' '] + entry.1[i])
}

/// The lines of all the entries, entry after entry.
pub open spec fn known_lines(hosts: Seq<HostKeys>) -> Seq<Seq<char>>
    decreases hosts.len(),
{
    if hosts.len() == 0 {
        Seq::empty()
    } else {
        known_lines(hosts.drop_last()) + host_lines(hosts.last())
    }
}

/// The text of a file of known hosts with the entries `hosts`.
pub open spec fn render_known_hosts(hosts: Seq<HostKeys>) -> Seq<char> {
    unlines(known_lines(hosts))
}

/// What `host_index` finds is the first entry of that address, and it finds nothing
/// only where no entry has that address.
pub proof fn lemma_host_index(hosts: Seq<HostKeys>, address: Ipv4Addr)
    ensures
        match host_index(hosts, address) {
            Some(i) => 0 <= i < hosts.len() && hosts[i].0 == address && forall|j: int|
                0 <= j < i ==> (#[trigger] hosts[j]).0 != address,
            None => forall|j: int| 0 <= j < hosts.len() ==> (#[trigger] hosts[j]).0 != address,
        },
    decreases hosts.len(),
{
    if hosts.len() > 0 {
        let init = hosts.drop_last();
        lemma_host_index(init, address);
        assert(forall|j: int| 0 <= j < init.len() ==> init[j] == hosts[j]);
    }
}

/// Where the first lines of `ls` already state no entries, all of `ls` state none.
pub proof fn lemma_known_lines_prefix(ls: Seq<Seq<char>>, k: int)
    requires
        0 <= k <= ls.len(),
        parse_known_lines(ls.take(k)) is None,
    ensures
        parse_known_lines(ls) is None,
    decreases ls.len(),
{
    if k == ls.len() {
        assert(ls.take(k) =~= ls);
    } else {
        assert(ls.drop_last().take(k) =~= ls.take(k));
        lemma_known_lines_prefix(ls.drop_last(), k);
    }
}

/// The operator's file of known hosts: for each address, the keys that the file holds
/// for it.
#[derive(Debug)]
pub struct KnownHosts {
    hosts: Vec<KnownHost>,
}

impl KnownHosts {
    /// The entries, in the order in which their addresses first came up.
    pub closed spec fn entries(&self) -> Seq<HostKeys> {
        host_views(self.hosts@)
    }

    /// The entries, in order.
    pub fn hosts(&self) -> (hosts: &Vec<KnownHost>)
        ensures
            host_views(hosts@) == self.entries(),
    {
        &self.hosts
    }

    fn find(&self, address: Ipv4Addr) -> (found: Option<usize>)
        ensures
            match found {
                Some(i) => i < self.entries().len() && host_index(self.entries(), address) == Some(
                    i as int,
                ),
                None => host_index(self.entries(), address) is None,
            },
    {
        let ghost hosts = self.entries();
        let mut i: usize = 0;
        while i < self.hosts.len()
            invariant
                i <= self.hosts.len(),
                hosts == host_views(self.hosts@),
                forall|j: int| 0 <= j < i ==> (#[trigger] hosts[j]).0 != address,
            decreases self.hosts.len() - i,
        {
            if self.hosts[i].address == address {
                proof {
                    assert(hosts[i as int].0 == address);
                    lemma_host_index(hosts, address);
                }
                return Some(i);
            }
            i += 1;
        }
        proof {
            lemma_host_index(hosts, address);
        }
        None
    }

    /// Whether the file holds a key for `address`.
    pub fn contains_key(&self, address: Ipv4Addr) -> (b: bool)
        ensures
            b == host_index(self.entries(), address) is Some,
    {
        self.find(address).is_some()
    }

    fn add(&mut self, address: Ipv4Addr, key: String)
        ensures
            final(self).entries() == with_key(old(self).entries(), address, key@),
    {
        let ghost before = self.entries();
        match self.find(address) {
            Some(i) => {
                let mut keys = copy_texts(&self.hosts[i].keys);
                let ghost had = texts(keys@);
                keys.push(key);
                assert(texts(keys@) =~= had.push(key@));
                self.hosts.set(i, KnownHost { address, keys });
                assert(host_views(self.hosts@) =~= with_key(before, address, key@));
            },
            None => {
                let mut keys: Vec<String> = Vec::new();
                keys.push(key);
                assert(texts(keys@) =~= seq![key@]);
                self.hosts.push(KnownHost { address, keys });
                assert(host_views(self.hosts@) =~= with_key(before, address, key@));
            },
        }
    }

    /// Takes every key of `address` out of the file.
    pub fn remove(&mut self, address: Ipv4Addr)
        ensures
            final(self).entries() == without(old(self).entries(), address),
    {
        let ghost before = self.entries();
        let mut kept: Vec<KnownHost> = Vec::new();
        let mut all: Vec<KnownHost> = Vec::new();
        core::mem::swap(&mut self.hosts, &mut all);
        assert(before.take(0) =~= Seq::<HostKeys>::empty());
        assert(host_views(kept@) =~= Seq::<HostKeys>::empty());
        let mut i: usize = 0;
        while i < all.len()
            invariant
                i <= all.len(),
                before == host_views(all@),
                host_views(kept@) == without(before.take(i as int), address),
            decreases all.len() - i,
        {
            let ghost had = host_views(kept@);
            let ghost next = before.take(i + 1);
            proof {
                assert(next.drop_last() =~= before.take(i as int));
                assert(next.last() == all@[i as int]@);
            }
            if all[i].address != address {
                let entry = KnownHost {
                    address: all[i].address,
                    keys: copy_texts(&all[i].keys),
                };
                kept.push(entry);
                assert(host_views(kept@) =~= had.push(all@[i as int]@));
            }
            i += 1;
        }
        assert(before.take(i as int) =~= before);
        self.hosts = kept;
    }

    /// Reads the text of a file of known hosts. The text is refused as a whole where a
    /// line holds no whitespace or does not start with the text of an address.
    pub fn parse(text: &str) -> (r: Result<KnownHosts, Error>)
        ensures
            match r {
                Ok(hosts) => parse_known_hosts(text@) == Some(hosts.entries()),
                Err(e) => e == Error::Format && parse_known_hosts(text@) is None,
            },
    {
        let chars = chars_of(text);
        let lines = line_ranges(chars.as_slice());
        let ghost ls = lines_of(text@);
        let mut hosts = KnownHosts { hosts: Vec::new() };
        assert(hosts.entries() =~= Seq::<HostKeys>::empty());
        let mut i: usize = 0;
        while i < lines.len()
            invariant
                i <= lines.len(),
                chars@ == text@,
                ls == lines_of(text@),
                ls == pieces(chars@, lines@),
                within(lines@, chars@.len()),
                parse_known_lines(ls.take(i as int)) == Some(hosts.entries()),
            decreases lines.len() - i,
        {
            let (from, to) = lines[i];
            let ghost line = chars@.subrange(from as int, to as int);
            proof {
                assert(ls[i as int] == line);
                assert(ls.take(i + 1).drop_last() =~= ls.take(i as int));
                assert(ls.take(i + 1).last() == line);
            }
            let cut = span_end(chars.as_slice(), from, to, Delimiter::Whitespace);
            if cut >= to {
                proof {
                    lemma_known_lines_prefix(ls, i + 1);
                }
                return Err(Error::Format);
            }
            proof {
                assert(line.take(cut - from) =~= chars@.subrange(from as int, cut as int));
                assert(line.skip(cut - from + 1) =~= chars@.subrange(cut + 1, to as int));
            }
            let address = match parse_range(chars.as_slice(), from, cut) {
                Some(address) => address,
                None => {
                    proof {
                        lemma_known_lines_prefix(ls, i + 1);
                    }
                    return Err(Error::Format);
                },
            };
            let key = text.substring_char(cut + 1, to).to_owned();
            hosts.add(address, key);
            i += 1;
        }
        proof {
            assert(ls.take(i as int) =~= ls);
        }
        Ok(hosts)
    }

    /// The text of the file: for each entry, in order, and for each of its keys, a line
    /// with the address, a space and the key.
    pub fn render(&self) -> (text: String)
        ensures
            text@ == render_known_hosts(self.entries()),
    {
        proof {
            reveal_strlit(" ");
            reveal_strlit("\n");
        }
        let ghost hosts = self.entries();
        let mut text = String::new();
        let mut i: usize = 0;
        assert(hosts.take(0) =~= Seq::<HostKeys>::empty());
        while i < self.hosts.len()
            invariant
                i <= self.hosts.len(),
                hosts == host_views(self.hosts@),
                text@ == unlines(known_lines(hosts.take(i as int))),
                " "@ == seq![' '],
                "\n"@ == seq!['\n'],
            decreases self.hosts.len() - i,
        {
            let entry = &self.hosts[i];
            let ghost done = known_lines(hosts.take(i as int));
            let ghost ls = host_lines(entry@);
            let mut j: usize = 0;
            assert(done + ls.take(0) =~= done);
            while j < entry.keys.len()
                invariant
                    j <= entry.keys.len(),
                    ls == host_lines(entry@),
                    text@ == unlines(done + ls.take(j as int)),
                    " "@ == seq![' '],
                    "\n"@ == seq!['\n'],
                decreases entry.keys.len() - j,
            {
                let ghost before = text@;
                entry.address.write_to(&mut text);
                text.append(" ");
                text.append(entry.keys[j].as_str());
                text.append("\n");
                proof {
                    lemma_unlines_push(done + ls.take(j as int), ls[j as int]);
                    assert(done + ls.take(j + 1) =~= (done + ls.take(j as int)).push(ls[j as int]));
                    assert(text@ =~= before + ls[j as int] + seq!['\n']);
                }
                j += 1;
            }
            proof {
                assert(ls.take(j as int) =~= ls);
                let next = hosts.take(i + 1);
                assert(next.drop_last() =~= hosts.take(i as int));
                assert(next.last() == entry@);
            }
            i += 1;
        }
        assert(hosts.take(i as int) =~= hosts);
        text
    }
}

/// The entries of the operator's file of known hosts, from its text.
pub fn read_known_hosts(text: &str) -> (r: Result<KnownHosts, Error>)
    ensures
        match r {
            Ok(hosts) => parse_known_hosts(text@) == Some(hosts.entries()),
            Err(e) => e == Error::Format && parse_known_hosts(text@) is None,
        },
{
    KnownHosts::parse(text)
}

/// The text to write to the operator's file of known hosts, in place of what it held.
pub fn write_known_hosts(data: &KnownHosts) -> (text: String)
    ensures
        text@ == render_known_hosts(data.entries()),
{
    data.render()
}

} // verus!
