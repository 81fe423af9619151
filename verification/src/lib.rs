//! Verified core of a self-updating bootstrapper: manifest resolution,
//! integrity-verified download bookkeeping, and the backup/stage/apply/rollback
//! state machine, together with the directory-content model they operate on.

pub mod bakery;
pub mod callback;
pub mod disk;
pub mod errors;
pub mod guid;
pub mod hash;
pub mod http;
pub mod ico;
pub mod system;
pub mod text;
pub mod updater;
pub mod version;
pub mod zip;
