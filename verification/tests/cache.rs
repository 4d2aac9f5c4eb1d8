use pi::address::Ipv4Addr;
use pi::cache::{db_file_name, load_db, save_db, DirectoryCache, ReadOutcome};
use pi::error::Error;

fn ip(a: u8, b: u8, c: u8, d: u8) -> Ipv4Addr {
    Ipv4Addr::new(a, b, c, d)
}

fn records(cache: &DirectoryCache) -> Vec<(String, Ipv4Addr)> {
    cache.hosts().iter().map(|r| (r.name.clone(), r.address)).collect()
}

fn load(text: &str) -> Result<Vec<(String, Ipv4Addr)>, Error> {
    load_db(ReadOutcome::Text(String::from(text))).map(|c| records(&c))
}

#[test]
fn missing_file_is_an_empty_cache() {
    let cache = load_db(ReadOutcome::Missing).unwrap();
    assert!(cache.is_empty());
    assert_eq!(cache.len(), 0);
    assert_eq!(save_db(&cache), "");
}

#[test]
fn unreadable_file_is_the_error_of_the_read() {
    assert_eq!(load_db(ReadOutcome::Failed(Error::Io)).unwrap_err(), Error::Io);
    assert_eq!(
        load_db(ReadOutcome::Failed(Error::Environment)).unwrap_err(),
        Error::Environment
    );
}

#[test]
fn loads_one_record_per_line() {
    assert_eq!(
        load("kitchen 192.168.1.5\nattic 10.0.0.7\n"),
        Ok(vec![
            (String::from("kitchen"), ip(192, 168, 1, 5)),
            (String::from("attic"), ip(10, 0, 0, 7)),
        ])
    );
    assert_eq!(load(""), Ok(vec![]));
    assert_eq!(load("a 1.2.3.4"), Ok(vec![(String::from("a"), ip(1, 2, 3, 4))]));
}

#[test]
fn fields_are_separated_by_any_whitespace() {
    assert_eq!(
        load("  kitchen \t 192.168.1.5  \r\nattic\u{a0}10.0.0.7"),
        Ok(vec![
            (String::from("kitchen"), ip(192, 168, 1, 5)),
            (String::from("attic"), ip(10, 0, 0, 7)),
        ])
    );
}

#[test]
fn malformed_cache_is_rejected() {
    assert_eq!(load("host 1.2.3.4 extra"), Err(Error::Format));
    assert_eq!(load("good 1.2.3.4\nhost 1.2.3.4 extra\n"), Err(Error::Format));
    assert_eq!(load("host 1.2.3.4 extra\ngood 1.2.3.4\n"), Err(Error::Format));
}

#[test]
fn a_line_with_one_token_or_none_is_rejected() {
    assert_eq!(load("host"), Err(Error::Format));
    assert_eq!(load("a 1.2.3.4\n\nb 1.2.3.5\n"), Err(Error::Format));
    assert_eq!(load("\n"), Err(Error::Format));
    assert_eq!(load("   \n"), Err(Error::Format));
}

#[test]
fn an_address_that_does_not_parse_is_rejected() {
    assert_eq!(load("host 1.2.3"), Err(Error::Format));
    assert_eq!(load("host 1.2.3.256"), Err(Error::Format));
    assert_eq!(load("host 01.2.3.4"), Err(Error::Format));
    assert_eq!(load("1.2.3.4 host"), Err(Error::Format));
}

#[test]
fn the_later_line_for_a_name_counts() {
    assert_eq!(
        load("a 1.1.1.1\nb 2.2.2.2\na 3.3.3.3\n"),
        Ok(vec![(String::from("a"), ip(3, 3, 3, 3)), (String::from("b"), ip(2, 2, 2, 2))])
    );
}

#[test]
fn saves_one_line_per_record() {
    let mut cache = DirectoryCache::new();
    cache.insert(String::from("kitchen"), ip(192, 168, 1, 5));
    cache.insert(String::from("attic"), ip(10, 0, 0, 7));
    assert_eq!(save_db(&cache), "kitchen 192.168.1.5\nattic 10.0.0.7\n");
    assert_eq!(cache.render(), "kitchen 192.168.1.5\nattic 10.0.0.7\n");
}

#[test]
fn insert_replaces_in_place() {
    let mut cache = DirectoryCache::new();
    cache.insert(String::from("a"), ip(1, 1, 1, 1));
    cache.insert(String::from("b"), ip(2, 2, 2, 2));
    cache.insert(String::from("a"), ip(9, 9, 9, 9));
    assert_eq!(cache.len(), 2);
    assert_eq!(cache.get("a"), Some(ip(9, 9, 9, 9)));
    assert_eq!(cache.get("b"), Some(ip(2, 2, 2, 2)));
    assert_eq!(cache.get("c"), None);
    assert_eq!(cache.get(""), None);
    assert_eq!(
        records(&cache),
        vec![(String::from("a"), ip(9, 9, 9, 9)), (String::from("b"), ip(2, 2, 2, 2))]
    );
}

#[test]
fn save_then_load_gives_the_same_mapping() {
    for n in [0usize, 1, 2, 7, 40] {
        let mut cache = DirectoryCache::new();
        for i in 0..n {
            cache.insert(format!("host{}", i), ip(10, 0, (i / 256) as u8, (i % 256) as u8));
        }
        let text = save_db(&cache);
        let back = load_db(ReadOutcome::Text(text.clone())).unwrap();
        assert_eq!(records(&back), records(&cache));
        assert_eq!(save_db(&back), text);
        assert_eq!(back.len(), n);
    }
}

#[test]
fn a_name_with_whitespace_does_not_come_back() {
    let mut cache = DirectoryCache::new();
    cache.insert(String::from("two words"), ip(1, 2, 3, 4));
    assert_eq!(load(&save_db(&cache)), Err(Error::Format));
    let mut cache = DirectoryCache::new();
    cache.insert(String::new(), ip(1, 2, 3, 4));
    assert_eq!(load(&save_db(&cache)), Err(Error::Format));
}

#[test]
fn parse_is_what_load_does_with_a_text() {
    let cache = DirectoryCache::parse("a 1.2.3.4\n").unwrap();
    assert_eq!(cache.get("a"), Some(ip(1, 2, 3, 4)));
    assert_eq!(DirectoryCache::parse("a").unwrap_err(), Error::Format);
}

#[test]
fn the_file_has_its_name() {
    assert_eq!(db_file_name(), "ssh_db");
}
