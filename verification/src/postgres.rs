//! What a relational storage needs from this library: how to reach it,
//! and how its failures are told apart.

pub mod error;

use vstd::prelude::*;

verus! {

/// How to reach a relational database.
#[derive(Debug)]
pub struct Config {
    pub user: String,
    pub password: String,
    pub database: String,
    pub host: Option<String>,
    pub port: Option<u16>,
}

} // verus!
