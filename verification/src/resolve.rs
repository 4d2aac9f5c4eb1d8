//! The resolver: from the name of a host to its address, by way of the cache, a check
//! that the cached address still answers, and discovery where it does not.
//!
//! The resolver reads and writes nothing itself. It is a chain of states; each state
//! says what is to be done next, takes in what came of it, and gives the next state.
//! The reading, the remote call, the query and the writing are the caller's.

use crate::address::Ipv4Addr;
use crate::cache::{
    distinct_names, law_save_then_load, lemma_parse_lines_distinct, lemma_parse_lines_words,
    lemma_upsert_distinct, lemma_upsert_lookup, load_db, loaded, lookup, parse_cache,
    render_records, upsert, DirectoryCache, ReadOutcome, ReadView, Record,
};
use crate::command::{bare, on_pi, CommandExt, CommandLine, Invocation};
use crate::discovery::{
    answer, probed, query, query_line, try_probe, QueryOutcome, QueryView,
};
use crate::error::Error;
use crate::identity::key_of;
use crate::text::{
    chars_of, lemma_tokens_are_words, lines_of, same_chars, tokens_of, trim_range, trimmed,
    Delimiter,
};
use vstd::prelude::*;

verus! {

/// The part of a resolution in which something failed.
#[derive(Clone, Copy, Debug, PartialEq, Eq, Structural)]
pub enum Phase {
    /// Loading the cache.
    Load,
    /// Checking that the cached address still answers.
    Check,
    /// Searching for the address on the network.
    Probe,
    /// Saving the cache.
    Save,
}

/// Why a resolution failed, and in which part of it.
#[derive(Clone, Copy, Debug, PartialEq, Eq, Structural)]
pub struct ResolveError {
    pub phase: Phase,
    pub cause: Error,
}

/// Whether a host that printed `output` as its name is the host `name`: the name must
/// be all that it printed, whitespace at both ends aside.
pub open spec fn answers_to(name: Seq<char>, output: Seq<char>) -> bool {
    trimmed(output) == name
}

/// Tells whether the host that printed `output` as its name is the host `name`.
pub fn ssh_works(name: &str, output: &str) -> (works: bool)
    ensures
        works == answers_to(name@, output@),
{
    let chars = chars_of(output);
    let (from, to) = trim_range(chars.as_slice(), 0, chars.len());
    assert(chars@.subrange(0, chars@.len() as int) =~= chars@);
    let wanted = chars_of(name);
    same_chars(chars.as_slice(), from, to, wanted.as_slice())
}

/// What came of the check of a cached address, as the contracts see it.
pub enum LivenessView {
    Output(Seq<char>),
    Unreachable,
    Unprepared(Error),
}

/// What came of the check of a cached address.
#[derive(Debug)]
pub enum LivenessOutcome {
    /// The remote command ran, and this is what it printed.
    Output(String),
    /// The host at the address could not be reached, or did not let us in.
    Unreachable,
    /// The check could not be made at all: the key of the host could not be had, or the
    /// remote command could not be started.
    Unprepared(Error),
}

impl View for LivenessOutcome {
    type V = LivenessView;

    open spec fn view(&self) -> LivenessView {
        match self {
            LivenessOutcome::Output(output) => LivenessView::Output(output@),
            LivenessOutcome::Unreachable => LivenessView::Unreachable,
            LivenessOutcome::Unprepared(e) => LivenessView::Unprepared(*e),
        }
    }
}

/// Whether the check found the host `name` at the address. A host that cannot be
/// reached is not there: that is no error.
pub open spec fn live(name: Seq<char>, outcome: LivenessView) -> bool {
    match outcome {
        LivenessView::Output(output) => answers_to(name, output),
        _ => false,
    }
}

/// What came of writing the file of the cache.
#[derive(Clone, Copy, Debug, PartialEq, Eq, Structural)]
pub enum WriteOutcome {
    /// The file now holds the text.
    Written,
    /// The file could not be written.
    Failed(Error),
}

/// Where a resolution stands.
pub enum Stage {
    /// The cache is to be read.
    Load,
    /// The cache holds `address` for the host, and it is to be checked.
    Check { records: Seq<Record>, address: Ipv4Addr },
    /// The address of the host is to be searched for on the network.
    Discover { records: Seq<Record> },
    /// The host is at `address`, and the cache, which says so, is to be written.
    Save { records: Seq<Record>, address: Ipv4Addr },
    /// The host is at this address.
    Done(Ipv4Addr),
    /// The resolution failed.
    Failed(ResolveError),
}

/// What the caller reports to a resolution.
pub enum Event {
    Read(ReadView),
    Checked(LivenessView),
    Answered(QueryView),
    Written(WriteOutcome),
}

/// Where the resolution of the host `name` stands after `event`, given where it stood.
/// An event that does not belong to the stage changes nothing.
pub open spec fn step(name: Seq<char>, stage: Stage, event: Event) -> Stage {
    match (stage, event) {
        (Stage::Load, Event::Read(read)) => match loaded(read) {
            Err(e) => Stage::Failed(ResolveError { phase: Phase::Load, cause: e }),
            Ok(records) => match lookup(records, name) {
                Some(address) => Stage::Check { records, address },
                None => Stage::Discover { records },
            },
        },
        (Stage::Check { records, address }, Event::Checked(outcome)) => match outcome {
            LivenessView::Unprepared(e) => Stage::Failed(
                ResolveError { phase: Phase::Check, cause: e },
            ),
            _ => if live(name, outcome) {
                Stage::Save { records, address }
            } else {
                Stage::Discover { records }
            },
        },
        (Stage::Discover { records }, Event::Answered(outcome)) => match probed(name, outcome) {
            Err(e) => Stage::Failed(ResolveError { phase: Phase::Probe, cause: e }),
            Ok(None) => Stage::Discover { records },
            Ok(Some(address)) => Stage::Save { records: upsert(records, name, address), address },
        },
        (Stage::Save { records, address }, Event::Written(outcome)) => match outcome {
            WriteOutcome::Written => Stage::Done(address),
            WriteOutcome::Failed(e) => Stage::Failed(
                ResolveError { phase: Phase::Save, cause: e },
            ),
        },
        _ => stage,
    }
}

/// Where the resolution stands after all of `events`, in order.
pub open spec fn run(name: Seq<char>, stage: Stage, events: Seq<Event>) -> Stage
    decreases events.len(),
{
    if events.len() == 0 {
        stage
    } else {
        step(name, run(name, stage, events.drop_last()), events.last())
    }
}

/// The text that a resolution at `stage` wants written to the file of the cache.
pub open spec fn to_write(stage: Stage) -> Seq<char> {
    match stage {
        Stage::Save { records, address } => render_records(records),
        _ => Seq::empty(),
    }
}

/// The command of the check: the host is asked for its name.
pub open spec fn check_line() -> CommandLine {
    bare("hostname"@)
}

/// A resolution that is to read the cache.
#[derive(Debug)]
pub struct Loading {
    name: String,
}

/// A resolution that is to check the address that the cache holds.
#[derive(Debug)]
pub struct Checking {
    name: String,
    cache: DirectoryCache,
    address: Ipv4Addr,
}

/// A resolution that is to search for the address on the network.
#[derive(Debug)]
pub struct Discovering {
    name: String,
    cache: DirectoryCache,
}

/// A resolution that has the address and is to write the cache.
#[derive(Debug)]
pub struct Saving {
    name: String,
    cache: DirectoryCache,
    address: Ipv4Addr,
}

/// What follows the reading of the cache.
#[derive(Debug)]
pub enum Loaded {
    Check(Checking),
    Discover(Discovering),
}

/// What follows the check of the cached address.
#[derive(Debug)]
pub enum Checked {
    Save(Saving),
    Discover(Discovering),
}

/// What follows one query.
#[derive(Debug)]
pub enum Answered {
    Retry(Discovering),
    Save(Saving),
}

/// Starts the resolution of the host `name`: the first thing to do is to read the file
/// of the cache.
pub fn resolve(name: &str) -> (start: Loading)
    ensures
        start.name() == name@,
{
    Loading { name: name.to_owned() }
}

impl Loading {
    /// The host that is resolved.
    pub closed spec fn name(&self) -> Seq<char> {
        self.name@
    }

    /// Where the resolution stands: the cache is to be read.
    pub open spec fn stage(&self) -> Stage {
        Stage::Load
    }

    /// Takes in what came of reading the file of the cache. With an address for the
    /// host in the cache, that address is checked next; without one, the search
    /// begins.
    pub fn loaded(self, read: ReadOutcome) -> (r: Result<Loaded, ResolveError>)
        ensures
            match r {
                Ok(next) => next.name() == self.name() && next.stage() == step(
                    self.name(),
                    Stage::Load,
                    Event::Read(read@),
                ),
                Err(e) => Stage::Failed(e) == step(self.name(), Stage::Load, Event::Read(read@)),
            },
            match r {
                Ok(Loaded::Check(check)) => loaded(read@) == Ok::<Seq<Record>, Error>(
                    check.records(),
                ) && lookup(check.records(), self.name()) == Some(check.cached()),
                Ok(Loaded::Discover(search)) => loaded(read@) == Ok::<Seq<Record>, Error>(
                    search.records(),
                ) && lookup(search.records(), self.name()) is None,
                Err(e) => e.phase == Phase::Load && loaded(read@) == Err::<Seq<Record>, Error>(
                    e.cause,
                ),
            },
    {
        match load_db(read) {
            Err(e) => Err(ResolveError { phase: Phase::Load, cause: e }),
            Ok(cache) => match cache.get(self.name.as_str()) {
                Some(address) => Ok(
                    Loaded::Check(Checking { name: self.name, cache, address }),
                ),
                None => Ok(Loaded::Discover(Discovering { name: self.name, cache })),
            },
        }
    }
}

impl Loaded {
    /// The host that is resolved.
    pub open spec fn name(&self) -> Seq<char> {
        match self {
            Loaded::Check(c) => c.name(),
            Loaded::Discover(d) => d.name(),
        }
    }

    /// Where the resolution stands.
    pub open spec fn stage(&self) -> Stage {
        match self {
            Loaded::Check(c) => c.stage(),
            Loaded::Discover(d) => d.stage(),
        }
    }
}

impl Checking {
    /// The host that is resolved.
    pub closed spec fn name(&self) -> Seq<char> {
        self.name@
    }

    /// The records of the cache that was read.
    pub closed spec fn records(&self) -> Seq<Record> {
        self.cache.records()
    }

    /// The address that the cache holds for the host.
    pub closed spec fn cached(&self) -> Ipv4Addr {
        self.address
    }

    /// Where the resolution stands: the cached address is to be checked.
    pub open spec fn stage(&self) -> Stage {
        Stage::Check { records: self.records(), address: self.cached() }
    }

    /// The address that is checked.
    pub fn address(&self) -> (address: Ipv4Addr)
        ensures
            address == self.cached(),
    {
        self.address
    }

    /// The cache that was read.
    pub fn cache(&self) -> (cache: &DirectoryCache)
        ensures
            cache.records() == self.records(),
    {
        &self.cache
    }

    /// The command to run next: it asks the host at the cached address for its name.
    /// Where the key of the host cannot be had, hand the error to `checked` as
    /// `Unprepared`.
    pub fn command(&self) -> (r: Result<Invocation, Error>)
        ensures
            match r {
                Ok(inv) => exists|key: Seq<char>|
                    key_of(self.name(), key) && inv@ == on_pi(check_line(), self.cached(), key),
                Err(e) => e == Error::Environment || e == Error::NoIdentity,
            },
    {
        let mut base = Invocation::new("hostname");
        let r = base.run_on_pi(self.name.as_str(), self.address);
        proof {
            if r is Ok {
                let inv = r->Ok_0;
                let key = choose|key: Seq<char>|
                    key_of(self.name(), key) && inv.line() == on_pi(
                        check_line(),
                        self.address,
                        key,
                    );
                assert(key_of(self.name(), key) && inv@ == on_pi(check_line(), self.address, key));
            }
        }
        r
    }

    /// Takes in what came of the check. Where the host answered to its name the cached
    /// address stands; in every other case the search begins.
    pub fn checked(self, outcome: LivenessOutcome) -> (r: Result<Checked, ResolveError>)
        ensures
            match r {
                Ok(next) => next.name() == self.name() && next.stage() == step(
                    self.name(),
                    self.stage(),
                    Event::Checked(outcome@),
                ),
                Err(e) => Stage::Failed(e) == step(
                    self.name(),
                    self.stage(),
                    Event::Checked(outcome@),
                ),
            },
            match r {
                Ok(Checked::Save(saving)) => live(self.name(), outcome@) && saving.records()
                    == self.records() && saving.found() == self.cached(),
                Ok(Checked::Discover(search)) => !live(self.name(), outcome@) && !(outcome@
                    is Unprepared) && search.records() == self.records(),
                Err(e) => e.phase == Phase::Check && outcome@ == LivenessView::Unprepared(e.cause),
            },
    {
        match outcome {
            LivenessOutcome::Unprepared(e) => Err(ResolveError { phase: Phase::Check, cause: e }),
            LivenessOutcome::Unreachable => Ok(
                Checked::Discover(Discovering { name: self.name, cache: self.cache }),
            ),
            LivenessOutcome::Output(output) => {
                if ssh_works(self.name.as_str(), output.as_str()) {
                    Ok(
                        Checked::Save(
                            Saving { name: self.name, cache: self.cache, address: self.address },
                        ),
                    )
                } else {
                    Ok(Checked::Discover(Discovering { name: self.name, cache: self.cache }))
                }
            },
        }
    }
}

impl Checked {
    /// The host that is resolved.
    pub open spec fn name(&self) -> Seq<char> {
        match self {
            Checked::Save(s) => s.name(),
            Checked::Discover(d) => d.name(),
        }
    }

    /// Where the resolution stands.
    pub open spec fn stage(&self) -> Stage {
        match self {
            Checked::Save(s) => s.stage(),
            Checked::Discover(d) => d.stage(),
        }
    }
}

impl Discovering {
    /// The host that is resolved.
    pub closed spec fn name(&self) -> Seq<char> {
        self.name@
    }

    /// The records of the cache that was read.
    pub closed spec fn records(&self) -> Seq<Record> {
        self.cache.records()
    }

    /// Where the resolution stands: the address is to be searched for.
    pub open spec fn stage(&self) -> Stage {
        Stage::Discover { records: self.records() }
    }

    /// The cache that was read.
    pub fn cache(&self) -> (cache: &DirectoryCache)
        ensures
            cache.records() == self.records(),
    {
        &self.cache
    }

    /// The query to run next.
    pub fn command(&self) -> (r: Invocation)
        ensures
            r@ == query_line(self.name()),
    {
        query(self.name.as_str())
    }

    /// Takes in what came of the query. No answer yet leaves the resolution where it
    /// was, to ask again; an address goes into the cache, which is written next; a
    /// malformed answer, or a query that could not be run, ends the resolution.
    pub fn answered(self, outcome: QueryOutcome) -> (r: Result<Answered, ResolveError>)
        ensures
            match r {
                Ok(next) => next.name() == self.name() && next.stage() == step(
                    self.name(),
                    self.stage(),
                    Event::Answered(outcome@),
                ),
                Err(e) => Stage::Failed(e) == step(
                    self.name(),
                    self.stage(),
                    Event::Answered(outcome@),
                ),
            },
            match r {
                Ok(Answered::Retry(again)) => probed(self.name(), outcome@) == Ok::<
                    Option<Ipv4Addr>,
                    Error,
                >(None) && again == self,
                Ok(Answered::Save(saving)) => probed(self.name(), outcome@) == Ok::<
                    Option<Ipv4Addr>,
                    Error,
                >(Some(saving.found())) && saving.records() == upsert(
                    self.records(),
                    self.name(),
                    saving.found(),
                ),
                Err(e) => e.phase == Phase::Probe && probed(self.name(), outcome@) == Err::<
                    Option<Ipv4Addr>,
                    Error,
                >(e.cause),
            },
    {
        let found = match outcome {
            QueryOutcome::Answer(stdout) => try_probe(self.name.as_str(), stdout.as_str()),
            QueryOutcome::Failed(e) => Err(e),
        };
        match found {
            Err(e) => Err(ResolveError { phase: Phase::Probe, cause: e }),
            Ok(None) => Ok(Answered::Retry(self)),
            Ok(Some(address)) => {
                let mut cache = self.cache;
                cache.insert(self.name.clone(), address);
                Ok(Answered::Save(Saving { name: self.name, cache, address }))
            },
        }
    }
}

impl Answered {
    /// The host that is resolved.
    pub open spec fn name(&self) -> Seq<char> {
        match self {
            Answered::Retry(d) => d.name(),
            Answered::Save(s) => s.name(),
        }
    }

    /// Where the resolution stands.
    pub open spec fn stage(&self) -> Stage {
        match self {
            Answered::Retry(d) => d.stage(),
            Answered::Save(s) => s.stage(),
        }
    }
}

impl Saving {
    /// The host that is resolved.
    pub closed spec fn name(&self) -> Seq<char> {
        self.name@
    }

    /// The records of the cache as it is to be written.
    pub closed spec fn records(&self) -> Seq<Record> {
        self.cache.records()
    }

    /// The address at which the host was found.
    pub closed spec fn found(&self) -> Ipv4Addr {
        self.address
    }

    /// Where the resolution stands: the cache is to be written.
    pub open spec fn stage(&self) -> Stage {
        Stage::Save { records: self.records(), address: self.found() }
    }

    /// The cache as it is to be written.
    pub fn cache(&self) -> (cache: &DirectoryCache)
        ensures
            cache.records() == self.records(),
    {
        &self.cache
    }

    /// The address at which the host was found.
    pub fn address(&self) -> (address: Ipv4Addr)
        ensures
            address == self.found(),
    {
        self.address
    }

    /// The text to write to the file of the cache, in place of what the file held.
    pub fn text(&self) -> (text: String)
        ensures
            text@ == to_write(self.stage()),
            text@ == render_records(self.records()),
    {
        self.cache.render()
    }

    /// Takes in what came of the writing, and ends the resolution: with the address
    /// where the file was written, with the failure where it was not.
    pub fn saved(self, outcome: WriteOutcome) -> (r: Result<Ipv4Addr, ResolveError>)
        ensures
            match r {
                Ok(address) => Stage::Done(address) == step(
                    self.name(),
                    self.stage(),
                    Event::Written(outcome),
                ),
                Err(e) => Stage::Failed(e) == step(
                    self.name(),
                    self.stage(),
                    Event::Written(outcome),
                ),
            },
            match r {
                Ok(address) => outcome == WriteOutcome::Written && address == self.found(),
                Err(e) => e.phase == Phase::Save && outcome == WriteOutcome::Failed(e.cause),
            },
    {
        match outcome {
            WriteOutcome::Written => Ok(self.address),
            WriteOutcome::Failed(e) => Err(ResolveError { phase: Phase::Save, cause: e }),
        }
    }
}

/// The reports of `count` queries that brought no answer yet.
pub open spec fn waits(count: nat) -> Seq<Event> {
    Seq::new(count, |i: int| Event::Answered(QueryView::Answer(Seq::empty())))
}

/// Queries without an answer leave a search where it is.
pub proof fn lemma_waits(name: Seq<char>, records: Seq<Record>, count: nat)
    ensures
        run(name, Stage::Discover { records }, waits(count)) == (Stage::Discover { records }),
    decreases count,
{
    if count > 0 {
        lemma_waits(name, records, (count - 1) as nat);
        assert(waits(count).drop_last() =~= waits((count - 1) as nat));
    }
}

/// One event: what `run` gives for it is what `step` gives.
pub proof fn lemma_run_one(name: Seq<char>, stage: Stage, event: Event)
    ensures
        run(name, stage, seq![event]) == step(name, stage, event),
{
    let none = Seq::<Event>::empty();
    assert(seq![event].drop_last() =~= none);
    assert(run(name, stage, none) == stage);
}

/// Events one after another: what `run` gives for a sequence with one more event at
/// its end.
pub proof fn lemma_run_push(name: Seq<char>, stage: Stage, events: Seq<Event>, event: Event)
    ensures
        run(name, stage, events.push(event)) == step(name, run(name, stage, events), event),
{
    assert(events.push(event).drop_last() =~= events);
}

/// Events one after another: what `run` gives for two sequences in a row.
pub proof fn lemma_run_add(name: Seq<char>, stage: Stage, first: Seq<Event>, then: Seq<Event>)
    ensures
        run(name, stage, first + then) == run(name, run(name, stage, first), then),
    decreases then.len(),
{
    if then.len() == 0 {
        assert(first + then =~= first);
    } else {
        lemma_run_add(name, stage, first, then.drop_last());
        assert((first + then).drop_last() =~= first + then.drop_last());
    }
}

/// Cold start. Without a file of the cache, the resolution of a host searches the
/// network, however often it has to ask; once the host answers, the cache that is
/// written holds exactly one record, that of the host, and the resolution ends with
/// the address of that record. What is written is read back as that one record, unless
/// the name of the host is empty.
pub proof fn law_cold_start(name: Seq<char>, count: nat, stdout: Seq<char>, address: Ipv4Addr)
    requires
        answer(name, stdout) == Ok::<Option<Ipv4Addr>, Error>(Some(address)),
    ensures
        ({
            let found = run(
                name,
                Stage::Load,
                seq![Event::Read(ReadView::Missing)] + waits(count) + seq![
                    Event::Answered(QueryView::Answer(stdout)),
                ],
            );
            &&& found == (Stage::Save { records: seq![(name, address)], address })
            &&& step(name, found, Event::Written(WriteOutcome::Written)) == Stage::Done(address)
            &&& name.len() > 0 ==> parse_cache(to_write(found)) == Some(
                seq![(name, address)],
            )
        }),
{
    let none = Seq::<Record>::empty();
    let read = seq![Event::Read(ReadView::Missing)];
    let last = Event::Answered(QueryView::Answer(stdout));
    lemma_run_one(name, Stage::Load, Event::Read(ReadView::Missing));
    assert(run(name, Stage::Load, read) == (Stage::Discover { records: none }));
    lemma_waits(name, none, count);
    lemma_run_add(name, Stage::Load, read, waits(count));
    lemma_run_push(name, Stage::Load, read + waits(count), last);
    assert(read + waits(count) + seq![last] =~= (read + waits(count)).push(last));
    let one = seq![(name, address)];
    assert(upsert(none, name, address) =~= one);
    if name.len() > 0 {
        let host = tokens_of(stdout)[0];
        lemma_tokens_are_words(stdout);
        assert forall|i: int| 0 <= i < name.len() implies !Delimiter::Whitespace.matches(
            #[trigger] name[i],
        ) by {
            assert(host[i] == name[i]);
        }
        assert(distinct_names(one));
        law_save_then_load(one);
    }
}

/// Self-healing. Where the cache holds an address for the host at which the host no
/// longer answers, the resolution searches the network; once the host answers from a
/// new address, the cache that is written holds the new address for the host and what
/// it held for every other host, and the resolution ends with the new address.
pub proof fn law_self_healing(
    name: Seq<char>,
    text: Seq<char>,
    check: LivenessView,
    count: nat,
    stdout: Seq<char>,
    fresh: Ipv4Addr,
)
    requires
        loaded(ReadView::Text(text)) is Ok,
        lookup(loaded(ReadView::Text(text))->Ok_0, name) is Some,
        !(check is Unprepared),
        !live(name, check),
        answer(name, stdout) == Ok::<Option<Ipv4Addr>, Error>(Some(fresh)),
    ensures
        ({
            let before = loaded(ReadView::Text(text))->Ok_0;
            let found = run(
                name,
                Stage::Load,
                seq![Event::Read(ReadView::Text(text)), Event::Checked(check)] + waits(count)
                    + seq![Event::Answered(QueryView::Answer(stdout))],
            );
            &&& found == (Stage::Save { records: upsert(before, name, fresh), address: fresh })
            &&& lookup(upsert(before, name, fresh), name) == Some(fresh)
            &&& forall|other: Seq<char>|
                other != name ==> lookup(upsert(before, name, fresh), other) == lookup(
                    before,
                    other,
                )
            &&& step(name, found, Event::Written(WriteOutcome::Written)) == Stage::Done(fresh)
        }),
{
    let before = loaded(ReadView::Text(text))->Ok_0;
    let stale = lookup(before, name)->0;
    let read = seq![Event::Read(ReadView::Text(text))];
    let first = seq![Event::Read(ReadView::Text(text)), Event::Checked(check)];
    let last = Event::Answered(QueryView::Answer(stdout));
    lemma_run_one(name, Stage::Load, Event::Read(ReadView::Text(text)));
    assert(run(name, Stage::Load, read) == (Stage::Check { records: before, address: stale }));
    assert(first =~= read.push(Event::Checked(check)));
    lemma_run_push(name, Stage::Load, read, Event::Checked(check));
    assert(run(name, Stage::Load, first) == (Stage::Discover { records: before }));
    lemma_waits(name, before, count);
    lemma_run_add(name, Stage::Load, first, waits(count));
    lemma_run_push(name, Stage::Load, first + waits(count), last);
    assert(first + waits(count) + seq![last] =~= (first + waits(count)).push(last));
    assert forall|other: Seq<char>| true implies lookup(
        upsert(before, name, fresh),
        other,
    ) == if other == name {
        Some(fresh)
    } else {
        lookup(before, other)
    } by {
        lemma_upsert_lookup(before, name, fresh, other);
    }
}

/// Idempotence. Where the cache holds an address for the host and the host answers to
/// its name there, the resolution ends with that address and writes the records that
/// it read; a second resolution that reads what the first one wrote, and finds the host
/// still there, ends with the same address and writes the same text again.
pub proof fn law_idempotent(
    name: Seq<char>,
    text: Seq<char>,
    first_output: Seq<char>,
    second_output: Seq<char>,
)
    requires
        loaded(ReadView::Text(text)) is Ok,
        lookup(loaded(ReadView::Text(text))->Ok_0, name) is Some,
        answers_to(name, first_output),
        answers_to(name, second_output),
    ensures
        ({
            let records = loaded(ReadView::Text(text))->Ok_0;
            let address = lookup(records, name)->0;
            let first = run(
                name,
                Stage::Load,
                seq![
                    Event::Read(ReadView::Text(text)),
                    Event::Checked(LivenessView::Output(first_output)),
                ],
            );
            let second = run(
                name,
                Stage::Load,
                seq![
                    Event::Read(ReadView::Text(to_write(first))),
                    Event::Checked(LivenessView::Output(second_output)),
                ],
            );
            &&& first == (Stage::Save { records, address })
            &&& step(name, first, Event::Written(WriteOutcome::Written)) == Stage::Done(address)
            &&& second == first
            &&& to_write(second) == to_write(first)
        }),
{
    let records = loaded(ReadView::Text(text))->Ok_0;
    let address = lookup(records, name)->0;
    lemma_live_run(name, text, first_output);
    let written = render_records(records);
    lemma_parse_lines_distinct(lines_of(text));
    lemma_parse_lines_words(lines_of(text));
    law_save_then_load(records);
    assert(loaded(ReadView::Text(written)) == Ok::<Seq<Record>, Error>(records));
    lemma_live_run(name, written, second_output);
}

/// A resolution that finds the host at the cached address goes on to write the records
/// that it read.
proof fn lemma_live_run(name: Seq<char>, text: Seq<char>, output: Seq<char>)
    requires
        loaded(ReadView::Text(text)) is Ok,
        lookup(loaded(ReadView::Text(text))->Ok_0, name) is Some,
        answers_to(name, output),
    ensures
        run(
            name,
            Stage::Load,
            seq![Event::Read(ReadView::Text(text)), Event::Checked(LivenessView::Output(output))],
        ) == (Stage::Save {
            records: loaded(ReadView::Text(text))->Ok_0,
            address: lookup(loaded(ReadView::Text(text))->Ok_0, name)->0,
        }),
{
    let records = loaded(ReadView::Text(text))->Ok_0;
    let address = lookup(records, name)->0;
    let read = seq![Event::Read(ReadView::Text(text))];
    let check = Event::Checked(LivenessView::Output(output));
    lemma_run_one(name, Stage::Load, Event::Read(ReadView::Text(text)));
    assert(run(name, Stage::Load, read) == (Stage::Check { records, address }));
    assert(seq![Event::Read(ReadView::Text(text)), check] =~= read.push(check));
    lemma_run_push(name, Stage::Load, read, check);
}

/// Whether a stage holds what every stage of a resolution holds: no name stands twice
/// in its records, and where it has an address, the records hold that address for the
/// host.
pub open spec fn sound(name: Seq<char>, stage: Stage) -> bool {
    match stage {
        Stage::Check { records, address } => distinct_names(records) && lookup(records, name)
            == Some(address),
        Stage::Discover { records } => distinct_names(records),
        Stage::Save { records, address } => distinct_names(records) && lookup(records, name)
            == Some(address),
        _ => true,
    }
}

/// One event keeps a stage sound.
pub proof fn lemma_step_sound(name: Seq<char>, stage: Stage, event: Event)
    requires
        sound(name, stage),
    ensures
        sound(name, step(name, stage, event)),
{
    match (stage, event) {
        (Stage::Load, Event::Read(ReadView::Text(text))) => {
            lemma_parse_lines_distinct(lines_of(text));
        },
        (Stage::Discover { records }, Event::Answered(outcome)) => {
            if let Ok(Some(address)) = probed(name, outcome) {
                lemma_upsert_lookup(records, name, address, name);
                lemma_upsert_distinct(records, name, address);
            }
        },
        _ => {},
    }
}

/// Whatever is reported to a resolution, in whatever order: the cache that it holds
/// never has a name twice, and the cache that it is about to write holds, for the host,
/// the address that the resolution then ends with.
pub proof fn law_always_sound(name: Seq<char>, events: Seq<Event>)
    ensures
        sound(name, run(name, Stage::Load, events)),
    decreases events.len(),
{
    if events.len() > 0 {
        law_always_sound(name, events.drop_last());
        lemma_step_sound(name, run(name, Stage::Load, events.drop_last()), events.last());
    }
}

} // verus!
