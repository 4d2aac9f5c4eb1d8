use pi::error::Error;
use pi::identity::{Created, Identity, Unknown};
use pi::register::keygen;
use tempfile::{Builder, NamedTempFile, TempDir};

fn private_of(id: &Identity<Unknown>) -> String {
    keygen("x", id).args.last().unwrap().clone()
}

fn ssh_dir_in(home: &TempDir) -> TempDir {
    Builder::new().prefix(".ssh").rand_bytes(0).tempdir_in(home.path()).unwrap()
}

fn file_in(dir: &TempDir, name: &str) -> NamedTempFile {
    Builder::new().prefix(name).rand_bytes(0).tempfile_in(dir.path()).unwrap()
}

fn created_in(home: &TempDir, name: &str) -> (Identity<Created>, TempDir, NamedTempFile, NamedTempFile) {
    let ssh = ssh_dir_in(home);
    let private = file_in(&ssh, name);
    let public = file_in(&ssh, &format!("{}.pub", name));
    let id = Identity::locate(home.path().to_str().unwrap(), name).check_exists().unwrap();
    (id, ssh, private, public)
}

#[test]
fn an_identity_is_located_below_the_home_directory() {
    let id = Identity::locate("/home/me", "kitchen");
    assert_eq!(private_of(&id), "/home/me/.ssh/kitchen");
    let id = Identity::locate("/home/me/", "kitchen");
    assert_eq!(private_of(&id), "/home/me/.ssh/kitchen");
    let id = Identity::locate("", "kitchen");
    assert_eq!(private_of(&id), ".ssh/kitchen");
}

#[test]
fn promote_needs_both_files() {
    for (private, public) in [(false, false), (true, false), (false, true)] {
        let id = Identity::locate("/home/me", "kitchen");
        match id.promote(private, public) {
            Err(same) => assert_eq!(private_of(&same), "/home/me/.ssh/kitchen"),
            Ok(created) => panic!("{:?}", created),
        }
    }
    let created = Identity::locate("/home/me", "kitchen").promote(true, true).unwrap();
    assert_eq!(created.private_key(), "/home/me/.ssh/kitchen");
    assert_eq!(created.public_key(), "/home/me/.ssh/kitchen.pub");
}

#[test]
fn identity_typestate() {
    let home = tempfile::tempdir().unwrap();
    let root = home.path().to_str().unwrap();
    let unknown = match Identity::locate(root, "x").check_exists() {
        Err(unknown) => unknown,
        Ok(created) => panic!("{:?}", created),
    };
    assert_eq!(private_of(&unknown), format!("{}/.ssh/x", root));

    let ssh = ssh_dir_in(&home);
    let private = file_in(&ssh, "x");
    let unknown = match unknown.check_exists() {
        Err(unknown) => unknown,
        Ok(created) => panic!("{:?}", created),
    };
    let public = file_in(&ssh, "x.pub");
    let created = unknown.check_exists().unwrap();
    assert_eq!(created.private_key(), format!("{}/.ssh/x", root));
    assert_eq!(created.public_key(), format!("{}/.ssh/x.pub", root));

    let private_removed = private.close().is_ok();
    let public_removed = public.close().is_ok();
    let unknown = created.delete(private_removed, public_removed).unwrap();
    assert_eq!(private_of(&unknown), format!("{}/.ssh/x", root));
    assert!(unknown.check_exists().is_err());
}

#[test]
fn only_the_public_key_is_not_enough() {
    let home = tempfile::tempdir().unwrap();
    let ssh = ssh_dir_in(&home);
    let _public = file_in(&ssh, "x.pub");
    assert!(Identity::locate(home.path().to_str().unwrap(), "x").check_exists().is_err());
}

#[test]
fn a_failed_removal_is_reported() {
    for (private, public) in [(false, false), (true, false), (false, true)] {
        let home = tempfile::tempdir().unwrap();
        let (id, _ssh, _a, _b) = created_in(&home, "x");
        assert_eq!(id.delete(private, public).unwrap_err(), Error::Io);
    }
}

#[test]
fn found_turns_a_missing_key_pair_into_an_error() {
    let looked = Identity::locate("/nowhere-7f3a", "x").check_exists();
    assert_eq!(Identity::found(looked).unwrap_err(), Error::NoIdentity);
    let home = tempfile::tempdir().unwrap();
    let (_id, _ssh, _a, _b) = created_in(&home, "x");
    let looked = Identity::locate(home.path().to_str().unwrap(), "x").check_exists();
    assert!(Identity::found(looked).is_ok());
}

#[test]
fn the_identity_of_this_user() {
    match Identity::new_unknown("no-such-host-4b1f9c") {
        Ok(id) => {
            let path = private_of(&id);
            assert!(path.ends_with(".ssh/no-such-host-4b1f9c"), "{}", path);
            if let Ok(home) = pi::utils::home() {
                assert_eq!(path, pi::utils::join(&pi::utils::join(&home, ".ssh"), "no-such-host-4b1f9c"));
            }
        }
        Err(e) => assert_eq!(e, Error::Environment),
    }
}

#[test]
fn a_host_without_a_key_pair_has_no_private_key() {
    match Identity::new("no-such-host-4b1f9c") {
        Err(e) => assert!(e == Error::NoIdentity || e == Error::Environment),
        Ok(id) => panic!("{:?}", id),
    }
    match Identity::private("no-such-host-4b1f9c") {
        Err(e) => assert!(e == Error::NoIdentity || e == Error::Environment),
        Ok(path) => panic!("{:?}", path),
    }
}
