//! The key pair of a host, and what is known of its files.
//!
//! An identity is a pair of paths, and its type says whether the two files have been
//! seen on disk (`Created`) or not (`Unknown`). Only a check of the disk makes a
//! `Created` identity, and only a `Created` identity hands out the path of a key.

use crate::error::Error;
use crate::seal::Sealed;
use crate::utils::{home, join, joined};
use core::marker::PhantomData;
use vstd::prelude::*;

verus! {

/// A state that an identity can be in.
pub trait IdentityState: Sealed {

}

/// Both files of the key pair were on disk when the identity was made.
#[derive(Debug)]
pub struct Created;

/// Nothing is known of the files of the key pair.
#[derive(Debug)]
pub struct Unknown;

impl Sealed for Created {

}

impl Sealed for Unknown {

}

impl IdentityState for Created {

}

impl IdentityState for Unknown {

}

/// The key pair of a host: the path of its private and of its public key.
#[derive(Debug)]
pub struct Identity<T: IdentityState> {
    _state: PhantomData<T>,
    private: String,
    public: String,
}

/// The directory that holds the key pairs, below the home directory `home`.
pub open spec fn ssh_dir(home: Seq<char>) -> Seq<char> {
    joined(home, ".ssh"@)
}

/// The path of the private key of the host `name`.
pub open spec fn private_path(home: Seq<char>, name: Seq<char>) -> Seq<char> {
    joined(ssh_dir(home), name)
}

/// The path of the public key of the host `name`.
pub open spec fn public_path(home: Seq<char>, name: Seq<char>) -> Seq<char> {
    joined(ssh_dir(home), name + ".pub"@)
}

/// Whether `key` is the path of the private key of the host `name` below some home
/// directory.
pub open spec fn key_of(name: Seq<char>, key: Seq<char>) -> bool {
    exists|home: Seq<char>| key == private_path(home, name)
}

/// Asks the file system whether anything is at `path` (`std::path::Path::exists`).
/// The answer depends on what is on disk at that moment, so nothing is claimed of it.
#[verifier::external_body]
fn path_exists(path: &str) -> bool {
    std::path::Path::new(path).exists()
}

impl<T: IdentityState> Identity<T> {
    /// The path of the private key.
    pub closed spec fn private_file(&self) -> Seq<char> {
        self.private@
    }

    /// The path of the public key.
    pub closed spec fn public_file(&self) -> Seq<char> {
        self.public@
    }

    /// Whether the identity is the one of the host `name` below the home directory
    /// `home`.
    pub open spec fn located(&self, home: Seq<char>, name: Seq<char>) -> bool {
        self.private_file() == private_path(home, name) && self.public_file() == public_path(
            home,
            name,
        )
    }

    /// Whether the identity names the same two files as `other`, whatever the states.
    pub open spec fn same_files<U: IdentityState>(&self, other: Identity<U>) -> bool {
        self.private_file() == other.private_file() && self.public_file() == other.public_file()
    }

    pub(crate) fn private_str(&self) -> (path: &str)
        ensures
            path@ == self.private_file(),
    {
        self.private.as_str()
    }
}

impl Identity<Unknown> {
    /// The identity of the host `name` below the home directory `home`. Nothing is
    /// read or made on disk.
    pub fn locate(home: &str, name: &str) -> (id: Identity<Unknown>)
        ensures
            id.located(home@, name@),
    {
        let ssh = join(home, ".ssh");
        let private = join(ssh.as_str(), name);
        let mut file = name.to_owned();
        file.append(".pub");
        let public = join(ssh.as_str(), file.as_str());
        Identity { _state: PhantomData, private, public }
    }

    /// The identity of the host `name` of this user. It fails only where the user has
    /// no home directory.
    pub fn new_unknown(name: &str) -> (r: Result<Identity<Unknown>, Error>)
        ensures
            match r {
                Ok(id) => exists|home: Seq<char>| id.located(home, name@),
                Err(e) => e == Error::Environment,
            },
    {
        match home() {
            Ok(dir) => {
                let id = Identity::locate(dir.as_str(), name);
                assert(id.located(dir@, name@));
                Ok(id)
            },
            Err(e) => Err(e),
        }
    }

    /// The identity as `Created` where both files are present, and unchanged where one
    /// is missing. The two flags say what was found on disk.
    pub fn promote(self, private_present: bool, public_present: bool) -> (r: Result<
        Identity<Created>,
        Identity<Unknown>,
    >)
        ensures
            match r {
                Ok(id) => private_present && public_present && id.same_files(self),
                Err(id) => !(private_present && public_present) && id == self,
            },
    {
        if private_present && public_present {
            return Ok(Identity { _state: PhantomData, private: self.private, public: self.public });
        }
        Err(self)
    }

    /// Looks on disk for the two files and gives the identity as `Created` where both are
    /// there. Where one is missing the identity comes back unchanged: that is no error.
    pub fn check_exists(self) -> (r: Result<Identity<Created>, Identity<Unknown>>)
        ensures
            match r {
                Ok(id) => id.same_files(self),
                Err(id) => id == self,
            },
    {
        let private_present = path_exists(self.private.as_str());
        let public_present = private_present && path_exists(self.public.as_str());
        self.promote(private_present, public_present)
    }
}

impl Identity<Created> {
    /// What `new` makes of an identity that was looked for on disk: one that was not
    /// found is an error.
    pub fn found(looked: Result<Identity<Created>, Identity<Unknown>>) -> (r: Result<
        Identity<Created>,
        Error,
    >)
        ensures
            r == match looked {
                Ok(id) => Ok::<Identity<Created>, Error>(id),
                Err(_) => Err::<Identity<Created>, Error>(Error::NoIdentity),
            },
    {
        match looked {
            Ok(id) => Ok(id),
            Err(_) => Err(Error::NoIdentity),
        }
    }

    /// The identity of the host `name` of this user, which must be on disk.
    pub fn new(name: &str) -> (r: Result<Identity<Created>, Error>)
        ensures
            match r {
                Ok(id) => exists|home: Seq<char>| id.located(home, name@),
                Err(e) => e == Error::Environment || e == Error::NoIdentity,
            },
    {
        match Identity::new_unknown(name) {
            Ok(id) => {
                let ghost home = choose|home: Seq<char>| id.located(home, name@);
                let r = Identity::found(id.check_exists());
                proof {
                    if r is Ok {
                        assert(r->Ok_0.located(home, name@));
                    }
                }
                r
            },
            Err(e) => Err(e),
        }
    }

    /// The path of the private key of the host `name` of this user, whose key pair must
    /// be on disk.
    pub fn private(name: &str) -> (r: Result<String, Error>)
        ensures
            match r {
                Ok(key) => key_of(name@, key@),
                Err(e) => e == Error::Environment || e == Error::NoIdentity,
            },
    {
        match Identity::new(name) {
            Ok(id) => {
                proof {
                    let home = choose|home: Seq<char>| id.located(home, name@);
                    assert(id.private_file() == private_path(home, name@));
                }
                Ok(id.private)
            },
            Err(e) => Err(e),
        }
    }

    /// The path of the private key.
    pub fn private_key(&self) -> (path: &str)
        ensures
            path@ == self.private_file(),
    {
        self.private.as_str()
    }

    /// The path of the public key.
    pub fn public_key(&self) -> (path: &str)
        ensures
            path@ == self.public_file(),
    {
        self.public.as_str()
    }

    /// The identity after its two files were removed from disk. The flags say whether
    /// each removal went through; both are always tried. Where one failed the identity
    /// is gone and the failure is reported.
    pub fn delete(self, private_removed: bool, public_removed: bool) -> (r: Result<
        Identity<Unknown>,
        Error,
    >)
        ensures
            match r {
                Ok(id) => private_removed && public_removed && id.same_files(self),
                Err(e) => !(private_removed && public_removed) && e == Error::Io,
            },
    {
        if private_removed && public_removed {
            Ok(Identity { _state: PhantomData, private: self.private, public: self.public })
        } else {
            Err(Error::Io)
        }
    }
}

} // verus!
