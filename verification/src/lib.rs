//! Verified core of an SSH client: connection profiles organised in folders,
//! an encrypted credential vault, profile export and import, tunnel and
//! session bookkeeping, and the decision logic around them.

pub mod assoc;
pub mod auth;
pub mod crypto;
pub mod error;
pub mod export;
pub mod fs_secure;
pub mod importing;
pub mod json;
pub mod keys;
pub mod profile;
pub mod profile_store;
pub mod session;
pub mod state;
pub mod terminal;
pub mod text;
pub mod tunnel;
pub mod vault;
