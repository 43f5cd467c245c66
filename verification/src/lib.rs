use vstd::prelude::*;

pub mod activation;
pub mod capability;
pub mod catalogue;
pub mod comparison;
pub mod connection;
pub mod editing;
pub mod host;
pub mod json;
pub mod laws;
pub mod manifest;
pub mod path;
pub mod permissions;
pub mod protocol;
pub mod session;
pub mod snippet;
pub mod text;
pub mod workspace;

verus! {
}
