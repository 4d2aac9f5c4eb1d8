//! Discovery: the name service of the local network is asked for the address of a host.

use crate::address::{parse_address, parse_range, Ipv4Addr};
use crate::command::{local, CommandLine, Invocation};
use crate::error::Error;
use crate::text::{chars_of, pieces, same_chars, token_ranges, tokens_of};
use vstd::prelude::*;

verus! {

/// The name under which the host `name` answers on the local network.
pub open spec fn local_name(name: Seq<char>) -> Seq<char> {
    name + ".local"@
}

/// Writes `local_name(name)`.
pub fn hostname(name: &str) -> (host: String)
    ensures
        host@ == local_name(name@),
{
    let mut host = name.to_owned();
    host.append(".local");
    host
}

/// The command that asks the name service once for the host `name`.
pub open spec fn query_line(name: Seq<char>) -> CommandLine {
    local("avahi-resolve"@, seq!["--name"@, local_name(name)])
}

/// Builds `query_line`.
pub fn query(name: &str) -> (r: Invocation)
    ensures
        r@ == query_line(name@),
{
    let host = hostname(name);
    let r = Invocation::new("avahi-resolve").arg("--name").arg(host.as_str());
    assert(r@.args =~= query_line(name@).args);
    r
}

/// What one answer of the name service says. Nothing at all is no answer yet. Anything
/// else must be exactly two tokens, the local name that was asked for and the text of
/// an address, or it is malformed.
pub open spec fn answer(name: Seq<char>, stdout: Seq<char>) -> Result<Option<Ipv4Addr>, Error> {
    if stdout.len() == 0 {
        Ok(None)
    } else {
        let t = tokens_of(stdout);
        if t.len() != 2 || t[0] != local_name(name) {
            Err(Error::Format)
        } else {
            match parse_address(t[1]) {
                Some(address) => Ok(Some(address)),
                None => Err(Error::Format),
            }
        }
    }
}

/// Reads one answer of the name service to a query for the host `name`.
pub fn try_probe(name: &str, stdout: &str) -> (r: Result<Option<Ipv4Addr>, Error>)
    ensures
        r == answer(name@, stdout@),
{
    let chars = chars_of(stdout);
    if chars.len() == 0 {
        return Ok(None);
    }
    assert(chars@.subrange(0, chars@.len() as int) =~= chars@);
    let tokens = token_ranges(chars.as_slice(), 0, chars.len());
    if tokens.len() != 2 {
        return Err(Error::Format);
    }
    let (host_from, host_to) = tokens[0];
    let (ip_from, ip_to) = tokens[1];
    proof {
        assert(pieces(chars@, tokens@)[0] == tokens_of(stdout@)[0]);
        assert(pieces(chars@, tokens@)[1] == tokens_of(stdout@)[1]);
    }
    let host = chars_of(hostname(name).as_str());
    if !same_chars(chars.as_slice(), host_from, host_to, host.as_slice()) {
        return Err(Error::Format);
    }
    match parse_range(chars.as_slice(), ip_from, ip_to) {
        Some(address) => Ok(Some(address)),
        None => Err(Error::Format),
    }
}

/// What came of one query to the name service, as the contracts see it.
pub enum QueryView {
    Answer(Seq<char>),
    Failed(Error),
}

/// What came of one query to the name service.
#[derive(Debug)]
pub enum QueryOutcome {
    /// The query ran, and this is what it printed.
    Answer(String),
    /// The query could not be run.
    Failed(Error),
}

impl View for QueryOutcome {
    type V = QueryView;

    open spec fn view(&self) -> QueryView {
        match self {
            QueryOutcome::Answer(stdout) => QueryView::Answer(stdout@),
            QueryOutcome::Failed(e) => QueryView::Failed(*e),
        }
    }
}

/// What one query brings: an address, no answer yet, or the error that ends the
/// search.
pub open spec fn probed(name: Seq<char>, outcome: QueryView) -> Result<Option<Ipv4Addr>, Error> {
    match outcome {
        QueryView::Answer(stdout) => answer(name, stdout),
        QueryView::Failed(e) => Err(e),
    }
}

/// A search for the address of a host that is under way: the next thing to do is to
/// run `command` and to hand what came of it to `answered`.
#[derive(Debug)]
pub struct Probe {
    name: String,
}

/// Where a search stands after one query.
#[derive(Debug)]
pub enum Probed {
    /// There was no answer yet: ask again.
    Retry(Probe),
    /// The host answered from this address.
    Found(Ipv4Addr),
}

/// Starts the search for the address of the host `name`.
pub fn probe(name: &str) -> (search: Probe)
    ensures
        search.name() == name@,
{
    Probe { name: name.to_owned() }
}

impl Probe {
    /// The host that is searched for.
    pub closed spec fn name(&self) -> Seq<char> {
        self.name@
    }

    /// The host that is searched for.
    pub fn host(&self) -> (name: &str)
        ensures
            name@ == self.name(),
    {
        self.name.as_str()
    }

    /// The query to run next.
    pub fn command(&self) -> (r: Invocation)
        ensures
            r@ == query_line(self.name()),
    {
        query(self.name.as_str())
    }

    /// Takes in what came of the query. An answer that is empty leaves the search
    /// where it was; a malformed answer, or a query that could not be run, ends it.
    pub fn answered(self, outcome: QueryOutcome) -> (r: Result<Probed, Error>)
        ensures
            match r {
                Ok(Probed::Found(address)) => probed(self.name(), outcome@) == Ok::<
                    Option<Ipv4Addr>,
                    Error,
                >(Some(address)),
                Ok(Probed::Retry(again)) => probed(self.name(), outcome@) == Ok::<
                    Option<Ipv4Addr>,
                    Error,
                >(None) && again == self,
                Err(e) => probed(self.name(), outcome@) == Err::<Option<Ipv4Addr>, Error>(e),
            },
    {
        match outcome {
            QueryOutcome::Answer(stdout) => match try_probe(self.name.as_str(), stdout.as_str()) {
                Ok(Some(address)) => Ok(Probed::Found(address)),
                Ok(None) => Ok(Probed::Retry(self)),
                Err(e) => Err(e),
            },
            QueryOutcome::Failed(e) => Err(e),
        }
    }
}

} // verus!
