use pi::address::Ipv4Addr;
use pi::command::{
    cat, login_text, mount, place_text, pull, push, scp_from, scp_to, send, spaced_text, ssh,
    sshfs, CommandExt, Invocation,
};
use pi::error::Error;
use pi::secure::{harden, install, read_sshd, sshd_dir, unmount};
use pi::utils::ensure_pi_config;

fn ip() -> Ipv4Addr {
    Ipv4Addr::new(192, 168, 1, 5)
}

fn strings(v: &[&str]) -> Vec<String> {
    v.iter().map(|s| String::from(*s)).collect()
}

const MISSING: &str = "no-such-host-4b1f9c";

fn no_key(r: Result<Invocation, Error>) {
    match r {
        Err(e) => assert!(e == Error::NoIdentity || e == Error::Environment),
        Ok(inv) => panic!("{:?}", inv),
    }
}

#[test]
fn an_invocation_is_built_piece_by_piece() {
    let inv = Invocation::new("ls").arg("-l").args(&strings(&["a", "b"])).arg("c");
    assert_eq!(inv.program, "ls");
    assert_eq!(inv.args, vec!["-l", "a", "b", "c"]);
    assert!(!inv.as_root);
    assert!(inv.remote.is_none());
    let root = inv.duplicate().run_as_root();
    assert!(root.as_root);
    assert_eq!(root.args, inv.args);
    assert_eq!(Invocation::new("true").args(&Vec::new()).args, Vec::<String>::new());
}

#[test]
fn a_command_is_sent_to_a_remote_host() {
    let local = Invocation::new("hostname").arg("-f").run_as_root();
    let sent = local.run_on_remote("pi", ip(), String::from("/home/me/.ssh/kitchen"));
    assert_eq!(sent.program, "hostname");
    assert_eq!(sent.args, vec!["-f"]);
    assert!(sent.as_root);
    let remote = sent.remote.unwrap();
    assert_eq!(remote.user, "pi");
    assert_eq!(remote.address, ip());
    assert_eq!(remote.key, "/home/me/.ssh/kitchen");
    assert!(local.remote.is_none());
}

#[test]
fn sending_to_a_host_without_a_key_pair_fails() {
    let mut local = Invocation::new("hostname");
    no_key(local.run_on_pi(MISSING, ip()));
    assert_eq!(local.program, "hostname");
    assert!(local.remote.is_none());
    no_key(cat(MISSING, ip(), "/etc/hostname"));
    no_key(mount(MISSING, ip(), "/etc", "/mnt"));
    no_key(pull(MISSING, ip(), &strings(&["a"]), "."));
    no_key(push(MISSING, ip(), &strings(&["a"]), "."));
    no_key(send(MISSING, ip(), "/tmp/x", "/home/pi/x"));
    no_key(ensure_pi_config(MISSING, ip()));
}

#[test]
fn places_on_the_host() {
    assert_eq!(login_text(ip()), "pi@192.168.1.5");
    assert_eq!(place_text(ip(), "/etc/ssh"), "pi@192.168.1.5:/etc/ssh");
    assert_eq!(place_text(ip(), ""), "pi@192.168.1.5:");
}

#[test]
fn files_are_listed_with_spaces() {
    assert_eq!(spaced_text(&strings(&[])), "");
    assert_eq!(spaced_text(&strings(&["a"])), "a");
    assert_eq!(spaced_text(&strings(&["a", "b", "c"])), "a b c");
    assert_eq!(spaced_text(&strings(&["", ""])), " ");
}

#[test]
fn mount_uses_sshfs() {
    let inv = sshfs(ip(), "/home/me/.ssh/kitchen", "/etc/ssh", "/tmp/mnt");
    assert_eq!(inv.program, "sshfs");
    assert_eq!(
        inv.args,
        vec!["-o", "IdentityFile=/home/me/.ssh/kitchen", "pi@192.168.1.5:/etc/ssh", "/tmp/mnt"]
    );
    assert!(inv.remote.is_none());
}

#[test]
fn pull_copies_from_the_host() {
    let inv = scp_from(ip(), "/k", &strings(&["a.txt", "b.txt"]), "dst");
    assert_eq!(inv.program, "scp");
    assert_eq!(inv.args, vec!["-i", "/k", "pi@192.168.1.5:a.txt b.txt", "dst"]);
    let inv = scp_from(ip(), "/k", &strings(&[]), "dst");
    assert_eq!(inv.args, vec!["-i", "/k", "pi@192.168.1.5:", "dst"]);
}

#[test]
fn push_copies_to_the_host() {
    let inv = scp_to(ip(), "/k", &strings(&["a.txt", "b.txt"]), "/home/pi");
    assert_eq!(inv.program, "scp");
    assert_eq!(inv.args, vec!["-i", "/k", "a.txt", "b.txt", "pi@192.168.1.5:/home/pi"]);
    let inv = scp_to(ip(), "/k", &strings(&[]), "/home/pi");
    assert_eq!(inv.args, vec!["-i", "/k", "pi@192.168.1.5:/home/pi"]);
}

#[test]
fn a_shell_logs_in_with_the_key() {
    let inv = ssh(ip(), "/k");
    assert_eq!(inv.program, "ssh");
    assert_eq!(inv.args, vec!["-i", "/k", "pi@192.168.1.5"]);
}

#[test]
fn the_configuration_of_the_remote_shell_is_hardened() {
    assert_eq!(harden("Port 22"), "Port 22\nPasswordAuthentication no\n");
    assert_eq!(harden("Port 22\n"), "Port 22\n\nPasswordAuthentication no\n");
    assert_eq!(harden(""), "\nPasswordAuthentication no\n");
    assert_eq!(sshd_dir(), "/etc/ssh");
    assert_eq!(read_sshd("/tmp/abc"), "/tmp/abc/sshd_config");
    let inv = install();
    assert_eq!(inv.program, "mv");
    assert_eq!(inv.args, vec!["/home/pi/.pi/sshd_config", "/etc/ssh/sshd_config"]);
    assert!(inv.as_root);
    assert!(inv.remote.is_none());
}

#[test]
fn mounting_and_letting_go() {
    let inv = unmount("/tmp/mnt");
    assert_eq!(inv.program, "fusermount");
    assert_eq!(inv.args, vec!["-u", "/tmp/mnt"]);
    let inv = pi::image::mount("/dev/sda1", "/tmp/boot");
    assert_eq!(inv.program, "mount");
    assert_eq!(inv.args, vec!["/dev/sda1", "/tmp/boot"]);
    let inv = pi::image::umount("/tmp/boot");
    assert_eq!(inv.program, "umount");
    assert_eq!(inv.args, vec!["/tmp/boot"]);
}

struct KeyPair {
    name: String,
    private: String,
    _ssh: Option<tempfile::TempDir>,
    _files: (tempfile::NamedTempFile, tempfile::NamedTempFile),
}

/// A key pair below the home directory of the user who runs this, for as long as the
/// value lives; nothing where the home directory cannot be written to.
fn key_pair_at_home() -> Option<KeyPair> {
    let home = pi::utils::home().ok()?;
    let ssh = pi::utils::join(&home, ".ssh");
    let made = tempfile::Builder::new().prefix(".ssh").rand_bytes(0).tempdir_in(&home).ok();
    let private = tempfile::Builder::new().prefix("pi-fleet-").tempfile_in(&ssh).ok()?;
    let name = private.path().file_name()?.to_str()?.to_owned();
    let public = tempfile::Builder::new()
        .prefix(&name)
        .suffix(".pub")
        .rand_bytes(0)
        .tempfile_in(&ssh)
        .ok()?;
    let path = pi::utils::join(&ssh, &name);
    Some(KeyPair { name, private: path, _ssh: made, _files: (private, public) })
}

fn sent_to_pi(inv: &Invocation, pair: &KeyPair) {
    let remote = inv.remote.as_ref().unwrap();
    assert_eq!(remote.user, "pi");
    assert_eq!(remote.address, ip());
    assert_eq!(remote.key, pair.private);
}

#[test]
fn commands_for_a_host_with_a_key_pair() {
    let Some(pair) = key_pair_at_home() else { return };
    let name = pair.name.as_str();
    assert_eq!(pi::Identity::private(name), Ok(pair.private.clone()));

    let mut local = Invocation::new("uptime").arg("-p");
    let sent = local.run_on_pi(name, ip()).unwrap();
    assert_eq!(sent.program, "uptime");
    assert_eq!(sent.args, vec!["-p"]);
    assert!(!sent.as_root);
    sent_to_pi(&sent, &pair);
    assert!(local.remote.is_none());
    assert_eq!(local.args, vec!["-p"]);

    let inv = cat(name, ip(), "/etc/hostname").unwrap();
    assert_eq!(inv.program, "cat");
    assert_eq!(inv.args, vec!["/etc/hostname"]);
    sent_to_pi(&inv, &pair);

    let inv = ensure_pi_config(name, ip()).unwrap();
    assert_eq!(inv.program, "mkdir");
    assert_eq!(inv.args, vec!["-p", "/home/pi/.pi"]);
    sent_to_pi(&inv, &pair);

    let key = pair.private.as_str();
    let inv = mount(name, ip(), "/etc/ssh", "/mnt").unwrap();
    assert_eq!(
        inv.args,
        vec!["-o", &format!("IdentityFile={}", key), "pi@192.168.1.5:/etc/ssh", "/mnt"]
    );
    assert!(inv.remote.is_none());
    let inv = pull(name, ip(), &strings(&["a", "b"]), "dst").unwrap();
    assert_eq!(inv.args, vec!["-i", key, "pi@192.168.1.5:a b", "dst"]);
    let inv = push(name, ip(), &strings(&["a", "b"]), "dst").unwrap();
    assert_eq!(inv.args, vec!["-i", key, "a", "b", "pi@192.168.1.5:dst"]);
    let inv = send(name, ip(), "/tmp/staged", "/home/pi/note").unwrap();
    assert_eq!(inv.program, "scp");
    assert_eq!(inv.args, vec!["-i", key, "/tmp/staged", "pi@192.168.1.5:/home/pi/note"]);

    let cache = format!("{} 192.168.1.5\n", name);
    let check = match pi::resolve(name).loaded(pi::ReadOutcome::Text(cache)) {
        Ok(pi::Loaded::Check(check)) => check,
        other => panic!("{:?}", other),
    };
    let inv = check.command().unwrap();
    assert_eq!(inv.program, "hostname");
    assert!(inv.args.is_empty());
    sent_to_pi(&inv, &pair);
}

#[test]
fn the_script_of_a_host() {
    assert_eq!(pi::setup::target(), "/home/pi/.pi/pi.sh");
    assert_eq!(pi::setup::script("/home/me/.pi", "kitchen", None), "/home/me/.pi/kitchen.sh");
    assert_eq!(
        pi::setup::script("/home/me/.pi", "kitchen", Some(String::from("./mine.sh"))),
        "./mine.sh"
    );
    let inv = pi::setup::make_executable();
    assert_eq!(inv.program, "chmod");
    assert_eq!(inv.args, vec!["+x", "/home/pi/.pi/pi.sh"]);
    assert!(!inv.as_root);
    let inv = pi::setup::run(true);
    assert_eq!(inv.program, "/home/pi/.pi/pi.sh");
    assert_eq!(inv.args, vec!["root"]);
    assert!(inv.as_root);
    let inv = pi::setup::run(false);
    assert_eq!(inv.program, "/home/pi/.pi/pi.sh");
    assert_eq!(inv.args, vec!["user"]);
    assert!(!inv.as_root);
}

#[test]
fn a_remote_shell_needs_the_key_of_the_host() {
    no_key(pi::command::shell(MISSING, ip(), &strings(&[])));
    no_key(pi::command::shell(MISSING, ip(), &strings(&["ls", "-l"])));
}

#[test]
fn a_remote_shell_for_a_host_with_a_key_pair() {
    let Some(pair) = key_pair_at_home() else { return };
    let inv = pi::command::shell(&pair.name, ip(), &strings(&[])).unwrap();
    assert_eq!(inv.program, "ssh");
    assert_eq!(inv.args, vec!["-i", pair.private.as_str(), "pi@192.168.1.5"]);
    assert!(inv.remote.is_none());
    let inv = pi::command::shell(&pair.name, ip(), &strings(&["ls", "-l", "/tmp"])).unwrap();
    assert_eq!(inv.program, "ls");
    assert_eq!(inv.args, vec!["-l", "/tmp"]);
    sent_to_pi(&inv, &pair);
    let inv = pi::command::shell(&pair.name, ip(), &strings(&["uptime"])).unwrap();
    assert_eq!(inv.program, "uptime");
    assert!(inv.args.is_empty());
    sent_to_pi(&inv, &pair);
}

#[test]
fn the_words_of_a_process() {
    let local = Invocation::new("scp").arg("-i").arg("/k").arg("a b");
    assert_eq!(local.argv(), vec!["scp", "-i", "/k", "a b"]);
    assert_eq!(Invocation::new("true").argv(), vec!["true"]);
    let root = Invocation::new("mv").arg("a").arg("b").run_as_root();
    assert_eq!(root.argv(), vec!["sudo", "mv", "a", "b"]);
    let sent = local.run_on_remote("pi", ip(), String::from("/home/me/.ssh/kitchen"));
    assert_eq!(
        sent.argv(),
        vec!["ssh", "-i", "/home/me/.ssh/kitchen", "pi@192.168.1.5", "scp", "-i", "/k", "a b"]
    );
    let sent = root.run_on_remote("pi", ip(), String::from("/k"));
    assert_eq!(sent.argv(), vec!["ssh", "-i", "/k", "pi@192.168.1.5", "sudo", "mv", "a", "b"]);
    let sent = Invocation::new("hostname").run_on_remote("root", ip(), String::new());
    assert_eq!(sent.argv(), vec!["ssh", "-i", "", "root@192.168.1.5", "hostname"]);
}
