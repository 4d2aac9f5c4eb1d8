//! The directory cache: the last known address of each host, and its text on disk.

use crate::address::{
    lemma_octet_text_free, lemma_parse_dotted, octet_text, parse_address, parse_range, Ipv4Addr,
};
use crate::error::Error;
use crate::text::{
    chars_of, free_of, is_line, is_word, lemma_lines_unlines, lemma_tokens_are_words,
    lemma_tokens_first, lemma_tokens_word, lemma_unlines_push, line_ranges, lines_of, pieces,
    token_ranges, tokens_of, unlines, within, Delimiter,
};
use vstd::prelude::*;

verus! {

/// A record as the contracts see it: the host's name and its address.
pub type Record = (Seq<char>, Ipv4Addr);

/// One record of the cache: a host and the address it was last reached at.
#[derive(Debug)]
pub struct HostRecord {
    pub name: String,
    pub address: Ipv4Addr,
}

impl View for HostRecord {
    type V = Record;

    open spec fn view(&self) -> Record {
        (self.name@, self.address)
    }
}

/// The records that `v` holds, in order.
pub open spec fn views(v: Seq<HostRecord>) -> Seq<Record> {
    Seq::new(v.len(), |i: int| v[i]@)
}

/// Where the first record of `name` stands in `rs`.
pub open spec fn index_of(rs: Seq<Record>, name: Seq<char>) -> Option<int>
    decreases rs.len(),
{
    if rs.len() == 0 {
        None
    } else {
        match index_of(rs.drop_last(), name) {
            Some(i) => Some(i),
            None => if rs.last().0 == name {
                Some(rs.len() - 1)
            } else {
                None
            },
        }
    }
}

/// The address that `rs` holds for `name`.
pub open spec fn lookup(rs: Seq<Record>, name: Seq<char>) -> Option<Ipv4Addr> {
    match index_of(rs, name) {
        Some(i) => Some(rs[i].1),
        None => None,
    }
}

/// `rs` with `address` for `name`: in the place of the record that `name` had, or else
/// in a new record at the end.
pub open spec fn upsert(rs: Seq<Record>, name: Seq<char>, address: Ipv4Addr) -> Seq<Record> {
    match index_of(rs, name) {
        Some(i) => rs.update(i, (name, address)),
        None => rs.push((name, address)),
    }
}

/// Whether no two records of `rs` have the same name.
pub open spec fn distinct_names(rs: Seq<Record>) -> bool {
    forall|i: int, j: int| 0 <= i < j < rs.len() ==> rs[i].0 != rs[j].0
}

/// The mapping from name to address that `rs` stands for.
pub open spec fn as_map(rs: Seq<Record>) -> Map<Seq<char>, Ipv4Addr> {
    Map::new(|n: Seq<char>| index_of(rs, n) is Some, |n: Seq<char>| rs[index_of(rs, n)->0].1)
}

/// The line of a record, without its end: the name, a space, the address.
pub open spec fn record_line(r: Record) -> Seq<char> {
    r.0 + seq![' '] + r.1.dotted()
}

/// The lines of the records of `rs`, in order.
pub open spec fn record_lines(rs: Seq<Record>) -> Seq<Seq<char>> {
    Seq::new(rs.len(), |i: int| record_line(rs[i]))
}

/// The text of a cache with the records `rs`: one line for each, in order.
pub open spec fn render_records(rs: Seq<Record>) -> Seq<char> {
    unlines(record_lines(rs))
}

/// The record that a line of the cache states: the line must hold exactly two tokens,
/// a name and the text of an address.
pub open spec fn parse_line(line: Seq<char>) -> Option<Record> {
    let t = tokens_of(line);
    if t.len() == 2 {
        match parse_address(t[1]) {
            Some(address) => Some((t[0], address)),
            None => None,
        }
    } else {
        None
    }
}

/// The records that the lines `ls` state, each line taken in after those before it, so
/// that of two lines for one name the later one gives the address. Nothing where a line
/// states no record.
pub open spec fn parse_lines(ls: Seq<Seq<char>>) -> Option<Seq<Record>>
    decreases ls.len(),
{
    if ls.len() == 0 {
        Some(Seq::empty())
    } else {
        match (parse_lines(ls.drop_last()), parse_line(ls.last())) {
            (Some(rs), Some(r)) => Some(upsert(rs, r.0, r.1)),
            _ => None,
        }
    }
}

/// The records that the text of a cache states, or nothing where it is malformed.
pub open spec fn parse_cache(text: Seq<char>) -> Option<Seq<Record>> {
    parse_lines(lines_of(text))
}

/// The mapping from host name to last known address. No name occurs twice in it; the
/// records keep the order in which their names came in.
#[derive(Debug)]
pub struct DirectoryCache {
    records: Vec<HostRecord>,
}

impl View for DirectoryCache {
    type V = Map<Seq<char>, Ipv4Addr>;

    open spec fn view(&self) -> Map<Seq<char>, Ipv4Addr> {
        as_map(self.records())
    }
}

impl DirectoryCache {
    /// The records of the cache, in order.
    pub closed spec fn records(&self) -> Seq<Record> {
        views(self.records@)
    }

    #[verifier::type_invariant]
    spec fn names_are_distinct(&self) -> bool {
        distinct_names(views(self.records@))
    }

    /// A cache without records.
    pub fn new() -> (cache: DirectoryCache)
        ensures
            cache.records() == Seq::<Record>::empty(),
    {
        let cache = DirectoryCache { records: Vec::new() };
        assert(cache.records() =~= Seq::<Record>::empty());
        cache
    }

    /// The number of records.
    pub fn len(&self) -> (n: usize)
        ensures
            n == self.records().len(),
    {
        self.records.len()
    }

    /// Whether the cache holds no record.
    pub fn is_empty(&self) -> (b: bool)
        ensures
            b == (self.records().len() == 0),
    {
        self.records.len() == 0
    }

    /// The records, in order.
    pub fn hosts(&self) -> (hosts: &Vec<HostRecord>)
        ensures
            views(hosts@) == self.records(),
            distinct_names(self.records()),
    {
        proof {
            use_type_invariant(self);
        }
        &self.records
    }

    fn find(&self, name: &String) -> (found: Option<usize>)
        ensures
            match found {
                Some(i) => i < self.records().len() && index_of(self.records(), name@) == Some(
                    i as int,
                ),
                None => index_of(self.records(), name@) is None,
            },
    {
        let ghost rs = self.records();
        let mut i: usize = 0;
        while i < self.records.len()
            invariant
                i <= self.records.len(),
                rs == views(self.records@),
                forall|j: int| 0 <= j < i ==> (#[trigger] rs[j]).0 != name@,
            decreases self.records.len() - i,
        {
            if self.records[i].name == *name {
                proof {
                    assert(rs[i as int].0 == name@);
                    lemma_index_of(rs, name@);
                }
                return Some(i);
            }
            i += 1;
        }
        proof {
            lemma_index_of(rs, name@);
        }
        None
    }

    /// The address that the cache holds for `name`.
    pub fn get(&self, name: &str) -> (address: Option<Ipv4Addr>)
        ensures
            address == lookup(self.records(), name@),
            address == if self@.contains_key(name@) {
                Some(self@[name@])
            } else {
                None
            },
    {
        let key = name.to_owned();
        match self.find(&key) {
            Some(i) => Some(self.records[i].address),
            None => None,
        }
    }

    /// Records `address` for `name`, in the place of the address that the name had, if
    /// it had one.
    pub fn insert(&mut self, name: String, address: Ipv4Addr)
        ensures
            final(self).records() == upsert(old(self).records(), name@, address),
            final(self)@ == old(self)@.insert(name@, address),
            distinct_names(final(self).records()),
    {
        proof {
            use_type_invariant(&*self);
            lemma_upsert_distinct(self.records(), name@, address);
            lemma_upsert_map(self.records(), name@, address);
        }
        let ghost before = self.records();
        let found = self.find(&name);
        let mut records: Vec<HostRecord> = Vec::new();
        assert(views(records@) =~= Seq::<Record>::empty());
        core::mem::swap(&mut self.records, &mut records);
        match found {
            Some(i) => {
                records.set(i, HostRecord { name, address });
            },
            None => {
                records.push(HostRecord { name, address });
            },
        }
        assert(views(records@) =~= upsert(before, name@, address));
        core::mem::swap(&mut self.records, &mut records);
    }

    /// Reads the text of a cache: one record on each line, the name and the address
    /// with whitespace between them. The text is refused as a whole where a line does
    /// not hold exactly two tokens or where the second token is not the text of an
    /// address; of two lines for one name the later one counts.
    pub fn parse(text: &str) -> (r: Result<DirectoryCache, Error>)
        ensures
            match r {
                Ok(cache) => parse_cache(text@) == Some(cache.records()) && distinct_names(
                    cache.records(),
                ),
                Err(e) => e == Error::Format && parse_cache(text@) is None,
            },
    {
        let chars = chars_of(text);
        let lines = line_ranges(chars.as_slice());
        let ghost ls = lines_of(text@);
        let mut cache = DirectoryCache::new();
        let mut i: usize = 0;
        while i < lines.len()
            invariant
                i <= lines.len(),
                chars@ == text@,
                ls == lines_of(text@),
                ls == pieces(chars@, lines@),
                within(lines@, chars@.len()),
                parse_lines(ls.take(i as int)) == Some(cache.records()),
            decreases lines.len() - i,
        {
            let (from, to) = lines[i];
            let ghost line = chars@.subrange(from as int, to as int);
            proof {
                assert(ls[i as int] == line);
                assert(ls.take(i + 1).drop_last() =~= ls.take(i as int));
                assert(ls.take(i + 1).last() == line);
            }
            let tokens = token_ranges(chars.as_slice(), from, to);
            if tokens.len() != 2 {
                proof {
                    lemma_parse_lines_prefix(ls, i + 1);
                }
                return Err(Error::Format);
            }
            let (name_from, name_to) = tokens[0];
            let (ip_from, ip_to) = tokens[1];
            proof {
                assert(pieces(chars@, tokens@)[0] == tokens_of(line)[0]);
                assert(pieces(chars@, tokens@)[1] == tokens_of(line)[1]);
            }
            let address = match parse_range(chars.as_slice(), ip_from, ip_to) {
                Some(address) => address,
                None => {
                    proof {
                        lemma_parse_lines_prefix(ls, i + 1);
                    }
                    return Err(Error::Format);
                },
            };
            let name = text.substring_char(name_from, name_to).to_owned();
            cache.insert(name, address);
            i += 1;
        }
        proof {
            assert(ls.take(i as int) =~= ls);
            lemma_parse_lines_distinct(ls);
        }
        Ok(cache)
    }

    /// The text of the cache: for each record, in order, a line with the name, a space
    /// and the address.
    pub fn render(&self) -> (text: String)
        ensures
            text@ == render_records(self.records()),
    {
        proof {
            reveal_strlit(" ");
            reveal_strlit("\n");
        }
        let ghost ls = record_lines(self.records());
        let mut text = String::new();
        let mut i: usize = 0;
        assert(ls.take(0) =~= Seq::<Seq<char>>::empty());
        while i < self.records.len()
            invariant
                i <= self.records.len(),
                ls == record_lines(views(self.records@)),
                text@ == unlines(ls.take(i as int)),
                " "@ == seq![' '],
                "\n"@ == seq!['\n'],
            decreases self.records.len() - i,
        {
            let ghost before = text@;
            let record = &self.records[i];
            text.append(record.name.as_str());
            text.append(" ");
            record.address.write_to(&mut text);
            text.append("\n");
            proof {
                lemma_unlines_push(ls.take(i as int), ls[i as int]);
                assert(ls.take(i + 1) =~= ls.take(i as int).push(ls[i as int]));
                assert(text@ =~= before + ls[i as int] + seq!['\n']);
            }
            i += 1;
        }
        assert(ls.take(i as int) =~= ls);
        text
    }
}

/// What came of reading the file of the cache, as the contracts see it.
pub enum ReadView {
    Text(Seq<char>),
    Missing,
    Failed(Error),
}

/// What came of reading the file of the cache.
#[derive(Debug)]
pub enum ReadOutcome {
    /// The file was read, and this is its text.
    Text(String),
    /// There is no such file yet.
    Missing,
    /// The file, or the directory it lies in, could not be read.
    Failed(Error),
}

impl View for ReadOutcome {
    type V = ReadView;

    open spec fn view(&self) -> ReadView {
        match self {
            ReadOutcome::Text(text) => ReadView::Text(text@),
            ReadOutcome::Missing => ReadView::Missing,
            ReadOutcome::Failed(e) => ReadView::Failed(*e),
        }
    }
}

/// The name of the file of the cache, within the directory of the application.
pub fn db_file_name() -> (name: &'static str)
    ensures
        name@ == "ssh_db"@,
{
    "ssh_db"
}

/// The records that a cache holds after its file was read. A file that is not there
/// yet is an empty cache; a file that could not be read, or whose text is malformed,
/// is an error.
pub open spec fn loaded(read: ReadView) -> Result<Seq<Record>, Error> {
    match read {
        ReadView::Text(text) => match parse_cache(text) {
            Some(rs) => Ok(rs),
            None => Err(Error::Format),
        },
        ReadView::Missing => Ok(Seq::empty()),
        ReadView::Failed(e) => Err(e),
    }
}

/// The cache that the file holds.
pub fn load_db(read: ReadOutcome) -> (r: Result<DirectoryCache, Error>)
    ensures
        match r {
            Ok(cache) => loaded(read@) == Ok::<Seq<Record>, Error>(cache.records())
                && distinct_names(cache.records()),
            Err(e) => loaded(read@) == Err::<Seq<Record>, Error>(e),
        },
{
    match read {
        ReadOutcome::Text(text) => DirectoryCache::parse(text.as_str()),
        ReadOutcome::Missing => Ok(DirectoryCache::new()),
        ReadOutcome::Failed(e) => Err(e),
    }
}

/// The text to write to the file of the cache, in place of what the file held.
pub fn save_db(db: &DirectoryCache) -> (text: String)
    ensures
        text@ == render_records(db.records()),
{
    db.render()
}

/// Saving a cache and loading what was saved gives the same records, and so the same
/// mapping, as long as every name can stand as a token and no name occurs twice.
pub proof fn law_save_then_load(rs: Seq<Record>)
    requires
        distinct_names(rs),
        forall|i: int| 0 <= i < rs.len() ==> is_word((#[trigger] rs[i]).0),
    ensures
        parse_cache(render_records(rs)) == Some(rs),
{
    let ls = record_lines(rs);
    assert forall|i: int| 0 <= i < ls.len() implies is_line(#[trigger] ls[i]) by {
        lemma_parse_record_line(rs[i]);
    }
    lemma_lines_unlines(ls);
    lemma_parse_record_lines(rs);
}

/// What `index_of` finds is the first record of that name, and it finds nothing only
/// where no record has that name.
pub proof fn lemma_index_of(rs: Seq<Record>, name: Seq<char>)
    ensures
        match index_of(rs, name) {
            Some(i) => 0 <= i < rs.len() && rs[i].0 == name && forall|j: int|
                0 <= j < i ==> (#[trigger] rs[j]).0 != name,
            None => forall|j: int| 0 <= j < rs.len() ==> (#[trigger] rs[j]).0 != name,
        },
    decreases rs.len(),
{
    if rs.len() > 0 {
        let init = rs.drop_last();
        lemma_index_of(init, name);
        assert(forall|j: int| 0 <= j < init.len() ==> init[j] == rs[j]);
    }
}

/// `upsert` keeps the names distinct.
pub proof fn lemma_upsert_distinct(rs: Seq<Record>, name: Seq<char>, address: Ipv4Addr)
    requires
        distinct_names(rs),
    ensures
        distinct_names(upsert(rs, name, address)),
{
    lemma_index_of(rs, name);
}

/// After `upsert` the name has the new address and every other name has what it had.
pub proof fn lemma_upsert_lookup(
    rs: Seq<Record>,
    name: Seq<char>,
    address: Ipv4Addr,
    other: Seq<char>,
)
    ensures
        lookup(upsert(rs, name, address), other) == if other == name {
            Some(address)
        } else {
            lookup(rs, other)
        },
{
    let up = upsert(rs, name, address);
    lemma_index_of(rs, name);
    lemma_index_of(rs, other);
    lemma_index_of(up, other);
    assert(forall|j: int| 0 <= j < rs.len() ==> (#[trigger] up[j]).0 == rs[j].0);
    match index_of(up, other) {
        Some(k) => {
            if k < rs.len() {
                assert(rs[k].0 == other);
                let k1 = index_of(rs, other)->0;
                assert(up[k1].0 == other);
            } else {
                assert(up[k].0 == name);
            }
        },
        None => {
            assert(forall|j: int| 0 <= j < rs.len() ==> (#[trigger] rs[j]).0 == up[j].0);
            match index_of(rs, name) {
                Some(i) => {
                    assert(up[i].0 == name);
                },
                None => {
                    assert(up[rs.len() as int].0 == name);
                },
            }
        },
    }
}

/// `upsert` is `insert` on the mapping.
pub proof fn lemma_upsert_map(rs: Seq<Record>, name: Seq<char>, address: Ipv4Addr)
    ensures
        as_map(upsert(rs, name, address)) == as_map(rs).insert(name, address),
{
    let up = upsert(rs, name, address);
    assert forall|n: Seq<char>|
        (#[trigger] as_map(up).contains_key(n)) == as_map(rs).insert(name, address).contains_key(
            n,
        ) && (as_map(up).contains_key(n) ==> as_map(up)[n] == as_map(rs).insert(
            name,
            address,
        )[n]) by {
        lemma_upsert_lookup(rs, name, address, n);
    }
    assert(as_map(up) =~= as_map(rs).insert(name, address));
}

/// The line of a record with a name that can stand as a token states that record.
pub proof fn lemma_parse_record_line(r: Record)
    requires
        is_word(r.0),
    ensures
        parse_line(record_line(r)) == Some(r),
        is_line(record_line(r)),
{
    let ip = r.1.dotted();
    lemma_dotted_plain(r.1);
    lemma_tokens_first(r.0, ' ', ip);
    lemma_tokens_word(ip);
    lemma_parse_dotted(r.1);
    let line = record_line(r);
    assert(tokens_of(line) =~= seq![r.0, ip]);
    assert forall|i: int| 0 <= i < line.len() implies !Delimiter::LineFeed.matches(
        #[trigger] line[i],
    ) by {
        if i < r.0.len() {
            assert(line[i] == r.0[i]);
        } else if i > r.0.len() {
            assert(line[i] == ip[i - r.0.len() - 1]);
        }
    }
    assert(line.last() == ip.last());
}

/// The text of an address is not empty, holds no whitespace and no line feed, and does
/// not end with a carriage return.
pub proof fn lemma_dotted_plain(a: Ipv4Addr)
    ensures
        is_word(a.dotted()),
        free_of(a.dotted(), Delimiter::LineFeed),
        a.dotted().last() != '\r',
        a.dotted().len() > 0,
{
    let s = a.dotted();
    let (o0, o1, o2, o3) = (octet_text(a.a), octet_text(a.b), octet_text(a.c), octet_text(a.d));
    lemma_octet_text_free(a.a, Delimiter::Whitespace);
    lemma_octet_text_free(a.b, Delimiter::Whitespace);
    lemma_octet_text_free(a.c, Delimiter::Whitespace);
    lemma_octet_text_free(a.d, Delimiter::Whitespace);
    lemma_octet_text_free(a.a, Delimiter::LineFeed);
    lemma_octet_text_free(a.b, Delimiter::LineFeed);
    lemma_octet_text_free(a.c, Delimiter::LineFeed);
    lemma_octet_text_free(a.d, Delimiter::LineFeed);
    let n0 = o0.len() as int;
    let n1 = n0 + 1 + o1.len();
    let n2 = n1 + 1 + o2.len();
    assert forall|i: int| 0 <= i < s.len() implies !Delimiter::Whitespace.matches(#[trigger] s[i])
        && !Delimiter::LineFeed.matches(s[i]) by {
        if i < n0 {
            assert(s[i] == o0[i]);
        } else if i == n0 {
            assert(s[i] == '.');
        } else if i < n1 {
            assert(s[i] == o1[i - n0 - 1]);
        } else if i == n1 {
            assert(s[i] == '.');
        } else if i < n2 {
            assert(s[i] == o2[i - n1 - 1]);
        } else if i == n2 {
            assert(s[i] == '.');
        } else {
            assert(s[i] == o3[i - n2 - 1]);
        }
    }
    assert(s.last() == o3.last());
}

/// The lines of records with distinct names that can stand as tokens state those
/// records, in order.
pub proof fn lemma_parse_record_lines(rs: Seq<Record>)
    requires
        distinct_names(rs),
        forall|i: int| 0 <= i < rs.len() ==> is_word((#[trigger] rs[i]).0),
    ensures
        parse_lines(record_lines(rs)) == Some(rs),
    decreases rs.len(),
{
    let ls = record_lines(rs);
    if rs.len() == 0 {
        assert(rs =~= Seq::<Record>::empty());
    } else {
        let init = rs.drop_last();
        assert(forall|i: int| 0 <= i < init.len() ==> init[i] == rs[i]);
        lemma_parse_record_lines(init);
        assert(ls.drop_last() =~= record_lines(init));
        lemma_parse_record_line(rs.last());
        lemma_index_of(init, rs.last().0);
        assert(upsert(init, rs.last().0, rs.last().1) =~= rs);
    }
}

/// Where the first lines of `ls` already state no records, all of `ls` state none.
pub proof fn lemma_parse_lines_prefix(ls: Seq<Seq<char>>, k: int)
    requires
        0 <= k <= ls.len(),
        parse_lines(ls.take(k)) is None,
    ensures
        parse_lines(ls) is None,
    decreases ls.len(),
{
    if k == ls.len() {
        assert(ls.take(k) =~= ls);
    } else {
        assert(ls.drop_last().take(k) =~= ls.take(k));
        lemma_parse_lines_prefix(ls.drop_last(), k);
    }
}

/// The names of the records that lines state are distinct.
pub proof fn lemma_parse_lines_distinct(ls: Seq<Seq<char>>)
    ensures
        parse_lines(ls) matches Some(rs) ==> distinct_names(rs),
    decreases ls.len(),
{
    if ls.len() > 0 {
        lemma_parse_lines_distinct(ls.drop_last());
        if let (Some(rs), Some(r)) = (parse_lines(ls.drop_last()), parse_line(ls.last())) {
            lemma_upsert_distinct(rs, r.0, r.1);
        }
    }
}

/// The names of the records that lines state can stand as tokens.
pub proof fn lemma_parse_lines_words(ls: Seq<Seq<char>>)
    ensures
        parse_lines(ls) matches Some(rs) ==> forall|i: int|
            0 <= i < rs.len() ==> is_word((#[trigger] rs[i]).0),
    decreases ls.len(),
{
    if ls.len() > 0 {
        lemma_parse_lines_words(ls.drop_last());
        if let (Some(rs), Some(r)) = (parse_lines(ls.drop_last()), parse_line(ls.last())) {
            lemma_tokens_are_words(ls.last());
            assert(r.0 == tokens_of(ls.last())[0]);
            lemma_index_of(rs, r.0);
        }
    }
}

} // verus!
