use pi::address::Ipv4Addr;
use pi::cache::ReadOutcome;
use pi::discovery::QueryOutcome;
use pi::error::Error;
use pi::resolve::{
    resolve, ssh_works, Answered, Checked, Checking, Discovering, LivenessOutcome, Loaded, Phase,
    ResolveError, Saving, WriteOutcome,
};

fn ip(a: u8, b: u8, c: u8, d: u8) -> Ipv4Addr {
    Ipv4Addr::new(a, b, c, d)
}

fn text(s: &str) -> ReadOutcome {
    ReadOutcome::Text(String::from(s))
}

fn output(s: &str) -> LivenessOutcome {
    LivenessOutcome::Output(String::from(s))
}

fn answer(s: &str) -> QueryOutcome {
    QueryOutcome::Answer(String::from(s))
}

fn checking(name: &str, cache: &str) -> Checking {
    match resolve(name).loaded(text(cache)) {
        Ok(Loaded::Check(c)) => c,
        other => panic!("{:?}", other),
    }
}

fn discovering(name: &str, read: ReadOutcome) -> Discovering {
    match resolve(name).loaded(read) {
        Ok(Loaded::Discover(d)) => d,
        other => panic!("{:?}", other),
    }
}

fn kept(c: Checking, outcome: LivenessOutcome) -> Saving {
    match c.checked(outcome) {
        Ok(Checked::Save(s)) => s,
        other => panic!("{:?}", other),
    }
}

fn dropped(c: Checking, outcome: LivenessOutcome) -> Discovering {
    match c.checked(outcome) {
        Ok(Checked::Discover(d)) => d,
        other => panic!("{:?}", other),
    }
}

fn found(d: Discovering, stdout: &str) -> Saving {
    match d.answered(answer(stdout)) {
        Ok(Answered::Save(s)) => s,
        other => panic!("{:?}", other),
    }
}

#[test]
fn the_host_answers_to_its_name() {
    assert!(ssh_works("kitchen", "kitchen\n"));
    assert!(ssh_works("kitchen", "  kitchen \r\n"));
    assert!(ssh_works("kitchen", "kitchen"));
    assert!(!ssh_works("kitchen", "attic\n"));
    assert!(!ssh_works("kitchen", "kitchen.local\n"));
    assert!(!ssh_works("kitchen", "Kitchen\n"));
    assert!(!ssh_works("kitchen", ""));
    assert!(!ssh_works("kitchen", "kitchen kitchen"));
    assert!(ssh_works("", " \n"));
}

#[test]
fn idempotence() {
    let cache = "attic 10.0.0.7\nkitchen 192.168.1.5\n";
    let first = kept(checking("kitchen", cache), output("kitchen\n"));
    let written = first.text();
    assert_eq!(written, cache);
    assert_eq!(first.saved(WriteOutcome::Written), Ok(ip(192, 168, 1, 5)));
    let second = kept(checking("kitchen", &written), output("kitchen\n"));
    assert_eq!(second.text(), written);
    assert_eq!(second.saved(WriteOutcome::Written), Ok(ip(192, 168, 1, 5)));
}

#[test]
fn a_live_host_normalises_the_file() {
    let c = checking("kitchen", "  kitchen\t192.168.1.5");
    assert_eq!(c.cache().get("kitchen"), Some(ip(192, 168, 1, 5)));
    let s = kept(c, output("kitchen"));
    assert_eq!(s.address(), ip(192, 168, 1, 5));
    assert_eq!(s.text(), "kitchen 192.168.1.5\n");
    assert_eq!(s.cache().get("kitchen"), Some(ip(192, 168, 1, 5)));
}

#[test]
fn self_healing() {
    let cache = "kitchen 192.168.1.5\nattic 10.0.0.7\n";
    let c = checking("kitchen", cache);
    assert_eq!(c.address(), ip(192, 168, 1, 5));
    let d = dropped(c, output("someone-else\n"));
    let s = found(d, "kitchen.local 192.168.1.99\n");
    assert_eq!(s.cache().get("kitchen"), Some(ip(192, 168, 1, 99)));
    assert_eq!(s.cache().get("attic"), Some(ip(10, 0, 0, 7)));
    assert_eq!(s.text(), "kitchen 192.168.1.99\nattic 10.0.0.7\n");
    assert_eq!(s.saved(WriteOutcome::Written), Ok(ip(192, 168, 1, 99)));
}

#[test]
fn an_unreachable_host_is_searched_for() {
    let d = dropped(checking("kitchen", "kitchen 192.168.1.5\n"), LivenessOutcome::Unreachable);
    let s = found(d, "kitchen.local 192.168.1.6");
    assert_eq!(s.saved(WriteOutcome::Written), Ok(ip(192, 168, 1, 6)));
}

#[test]
fn cold_start() {
    let d = discovering("kitchen", ReadOutcome::Missing);
    assert_eq!(d.command().program, "avahi-resolve");
    assert_eq!(d.command().args, vec!["--name", "kitchen.local"]);
    let s = found(d, "kitchen.local\t192.168.1.5\n");
    assert_eq!(s.cache().len(), 1);
    assert_eq!(s.text(), "kitchen 192.168.1.5\n");
    assert_eq!(s.saved(WriteOutcome::Written), Ok(ip(192, 168, 1, 5)));
}

#[test]
fn a_miss_in_the_cache_is_searched_for() {
    let d = discovering("kitchen", text("attic 10.0.0.7\n"));
    assert_eq!(d.cache().get("attic"), Some(ip(10, 0, 0, 7)));
    assert_eq!(d.cache().get("kitchen"), None);
    let s = found(d, "kitchen.local 192.168.1.5");
    assert_eq!(s.address(), ip(192, 168, 1, 5));
    assert_eq!(s.text(), "attic 10.0.0.7\nkitchen 192.168.1.5\n");
}

#[test]
fn discovery_asks_again_while_there_is_no_answer() {
    let mut d = discovering("kitchen", ReadOutcome::Missing);
    for _ in 0..10 {
        d = match d.answered(answer("")) {
            Ok(Answered::Retry(again)) => again,
            other => panic!("{:?}", other),
        };
    }
    let s = found(d, "kitchen.local 192.168.1.5");
    assert_eq!(s.saved(WriteOutcome::Written), Ok(ip(192, 168, 1, 5)));
}

#[test]
fn a_malformed_cache_fails_the_load() {
    let r = resolve("kitchen").loaded(text("host 1.2.3.4 extra"));
    assert!(matches!(r, Err(ResolveError { phase: Phase::Load, cause: Error::Format })));
    let r = resolve("kitchen").loaded(ReadOutcome::Failed(Error::Io));
    assert!(matches!(r, Err(ResolveError { phase: Phase::Load, cause: Error::Io })));
    let r = resolve("kitchen").loaded(ReadOutcome::Failed(Error::Environment));
    assert!(matches!(r, Err(ResolveError { phase: Phase::Load, cause: Error::Environment })));
}

#[test]
fn a_check_that_cannot_be_made_fails_the_resolution() {
    let r = checking("kitchen", "kitchen 1.2.3.4").checked(LivenessOutcome::Unprepared(
        Error::NoIdentity,
    ));
    assert!(matches!(r, Err(ResolveError { phase: Phase::Check, cause: Error::NoIdentity })));
}

#[test]
fn a_malformed_answer_fails_the_probe() {
    let r = discovering("host", ReadOutcome::Missing).answered(answer("otherhost.local 1.2.3.4"));
    assert!(matches!(r, Err(ResolveError { phase: Phase::Probe, cause: Error::Format })));
    let r = discovering("host", ReadOutcome::Missing).answered(QueryOutcome::Failed(Error::Io));
    assert!(matches!(r, Err(ResolveError { phase: Phase::Probe, cause: Error::Io })));
}

#[test]
fn a_failed_write_fails_the_save() {
    let s = found(discovering("host", ReadOutcome::Missing), "host.local 1.2.3.4");
    assert_eq!(
        s.saved(WriteOutcome::Failed(Error::Io)),
        Err(ResolveError { phase: Phase::Save, cause: Error::Io })
    );
}

#[test]
fn the_check_needs_the_key_of_the_host() {
    let c = checking("no-such-host-4b1f9c", "no-such-host-4b1f9c 1.2.3.4");
    match c.command() {
        Err(e) => assert!(e == Error::NoIdentity || e == Error::Environment),
        Ok(inv) => panic!("{:?}", inv),
    }
}
