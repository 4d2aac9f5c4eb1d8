//! Host directory and identity lifecycle for a small fleet of single-board computers.
//!
//! The hosts are known by name. Their addresses change, so the last address of each is
//! kept in a cache, checked before it is used again, and found anew by a query on the
//! local network where it no longer holds. Each host has a key pair of its own, and
//! nothing here hands out the path of a key that was not seen on disk.

pub mod address;
pub mod cache;
pub mod command;
pub mod discovery;
pub mod error;
pub mod identity;
pub mod image;
pub mod register;
pub mod resolve;
mod seal;
pub mod secure;
pub mod setup;
pub mod text;
pub mod utils;

pub use address::Ipv4Addr;
pub use command::{cat, mount, pull, push, send, CommandExt, Invocation, Remote};
pub use cache::{load_db, save_db, DirectoryCache, HostRecord, ReadOutcome};
pub use discovery::{probe, try_probe, Probe, Probed, QueryOutcome};
pub use error::Error;
pub use identity::{Created, Identity, IdentityState, Unknown};
pub use register::{check_reuse, generate_id, send_id, Overwrite, Reuse};
pub use resolve::{
    resolve, ssh_works, Answered, Checked, Checking, Discovering, LivenessOutcome, Loaded, Loading,
    Phase, ResolveError, Saving, WriteOutcome,
};
pub use utils::{app_config, home, read_prompt, truncate, Prompt};
