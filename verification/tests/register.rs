use pi::address::Ipv4Addr;
use pi::error::Error;
use pi::identity::{Created, Identity};
use pi::register::{
    check_reuse, generate_id, keygen, overwrite_question, read_known_hosts, reuse_question,
    send_id, write_known_hosts, KnownHosts, Reuse,
};
use pi::utils::Prompt;

fn created() -> Identity<Created> {
    Identity::locate("/home/me", "kitchen").promote(true, true).unwrap()
}

fn entries(hosts: &KnownHosts) -> Vec<(Ipv4Addr, Vec<String>)> {
    hosts.hosts().iter().map(|h| (h.address, h.keys.clone())).collect()
}

#[test]
fn the_questions_name_the_host() {
    assert_eq!(reuse_question("kitchen"), "Found existing identity for kitchen, reuse? [Y/n]: ");
    assert_eq!(
        overwrite_question("kitchen"),
        "Overwrite previous identity for kitchen? [y/N]: "
    );
}

#[test]
fn a_yes_keeps_the_key_pair() {
    match check_reuse(created(), &Prompt::Yes) {
        Reuse::Keep(id) => assert_eq!(id.private_key(), "/home/me/.ssh/kitchen"),
        other => panic!("{:?}", other),
    }
}

#[test]
fn a_no_asks_whether_to_overwrite() {
    let next = match check_reuse(created(), &Prompt::No) {
        Reuse::Ask(next) => next,
        other => panic!("{:?}", other),
    };
    let id = next.answered(&Prompt::Yes).unwrap();
    assert_eq!(id.private_key(), "/home/me/.ssh/kitchen");
    let next = match check_reuse(created(), &Prompt::No) {
        Reuse::Ask(next) => next,
        other => panic!("{:?}", other),
    };
    assert_eq!(next.answered(&Prompt::No).unwrap_err(), Error::Aborted);
}

#[test]
fn the_key_is_made_without_a_passphrase() {
    let id = Identity::locate("/home/me", "kitchen");
    let k = keygen("kitchen", &id);
    assert_eq!(k.program, "ssh-keygen");
    assert_eq!(
        k.args,
        vec![
            "-t",
            "rsa",
            "-N",
            "",
            "-C",
            "Auto-generated key for kitchen.local",
            "-f",
            "/home/me/.ssh/kitchen"
        ]
    );
    assert!(k.remote.is_none());
    assert!(!k.as_root);
}

#[test]
fn a_failed_keygen_is_an_error() {
    let id = Identity::locate("/nowhere-7f3a", "kitchen");
    assert_eq!(generate_id(id, false).unwrap_err(), Error::Io);
}

#[test]
fn a_keygen_that_left_no_files_is_an_error() {
    let id = Identity::locate("/nowhere-7f3a", "kitchen");
    assert_eq!(generate_id(id, true).unwrap_err(), Error::NoIdentity);
}

#[test]
fn a_keygen_that_left_both_files_gives_the_identity() {
    let home = tempfile::tempdir().unwrap();
    let ssh = tempfile::Builder::new().prefix(".ssh").rand_bytes(0).tempdir_in(home.path()).unwrap();
    let _a = tempfile::Builder::new().prefix("k").rand_bytes(0).tempfile_in(ssh.path()).unwrap();
    let _b = tempfile::Builder::new()
        .prefix("k")
        .suffix(".pub")
        .rand_bytes(0)
        .tempfile_in(ssh.path())
        .unwrap();
    let root = home.path().to_str().unwrap();
    let made = generate_id(Identity::locate(root, "k"), true).unwrap();
    assert_eq!(made.public_key(), format!("{}/.ssh/k.pub", root));
}

#[test]
fn the_public_key_is_sent() {
    let s = send_id(&created(), Ipv4Addr::new(10, 0, 0, 7));
    assert_eq!(s.program, "ssh-copy-id");
    assert_eq!(s.args, vec!["-i", "/home/me/.ssh/kitchen.pub", "pi@10.0.0.7"]);
}

#[test]
fn known_hosts_are_grouped_by_address() {
    let hosts = read_known_hosts(
        "10.0.0.7 ssh-rsa AAAA one\n10.0.0.8 ssh-ed25519 BBBB\n10.0.0.7\tecdsa CCCC\n",
    )
    .unwrap();
    assert_eq!(
        entries(&hosts),
        vec![
            (
                Ipv4Addr::new(10, 0, 0, 7),
                vec![String::from("ssh-rsa AAAA one"), String::from("ecdsa CCCC")]
            ),
            (Ipv4Addr::new(10, 0, 0, 8), vec![String::from("ssh-ed25519 BBBB")]),
        ]
    );
    assert!(hosts.contains_key(Ipv4Addr::new(10, 0, 0, 7)));
    assert!(hosts.contains_key(Ipv4Addr::new(10, 0, 0, 8)));
    assert!(!hosts.contains_key(Ipv4Addr::new(10, 0, 0, 9)));
    assert_eq!(
        write_known_hosts(&hosts),
        "10.0.0.7 ssh-rsa AAAA one\n10.0.0.7 ecdsa CCCC\n10.0.0.8 ssh-ed25519 BBBB\n"
    );
}

#[test]
fn known_hosts_keep_what_follows_the_first_whitespace() {
    let hosts = read_known_hosts("1.2.3.4  key\n1.2.3.4 \n").unwrap();
    assert_eq!(
        entries(&hosts),
        vec![(Ipv4Addr::new(1, 2, 3, 4), vec![String::from(" key"), String::new()])]
    );
    assert_eq!(write_known_hosts(&hosts), "1.2.3.4  key\n1.2.3.4 \n");
}

#[test]
fn malformed_known_hosts_are_rejected() {
    assert_eq!(read_known_hosts("1.2.3.4").unwrap_err(), Error::Format);
    assert_eq!(read_known_hosts("kitchen.local ssh-rsa AAAA").unwrap_err(), Error::Format);
    assert_eq!(read_known_hosts("1.2.3.4 a\n\n").unwrap_err(), Error::Format);
    assert_eq!(read_known_hosts(" 1.2.3.4 a").unwrap_err(), Error::Format);
    assert_eq!(read_known_hosts("1.2.3.4,1.2.3.5 a").unwrap_err(), Error::Format);
    assert!(read_known_hosts("").unwrap().hosts().is_empty());
}

#[test]
fn an_address_is_taken_out_of_known_hosts() {
    let mut hosts =
        KnownHosts::parse("10.0.0.7 a\n10.0.0.8 b\n10.0.0.7 c\n10.0.0.9 d\n").unwrap();
    hosts.remove(Ipv4Addr::new(10, 0, 0, 7));
    assert!(!hosts.contains_key(Ipv4Addr::new(10, 0, 0, 7)));
    assert_eq!(hosts.render(), "10.0.0.8 b\n10.0.0.9 d\n");
    hosts.remove(Ipv4Addr::new(1, 1, 1, 1));
    assert_eq!(hosts.render(), "10.0.0.8 b\n10.0.0.9 d\n");
    hosts.remove(Ipv4Addr::new(10, 0, 0, 9));
    hosts.remove(Ipv4Addr::new(10, 0, 0, 8));
    assert_eq!(hosts.render(), "");
}
