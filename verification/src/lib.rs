//! Wallet storage back ends for a large-scale agent: a REST proxy wallet, a
//! virtual (per-subject) wallet over an encrypted SQL store and a plug-in
//! storage wallet, with the request building, response checking, key handling
//! and handle bookkeeping verified.

pub mod errors;
pub mod freshness;
pub mod keys;
pub mod postgres_wallet;
pub mod proxy;
pub mod remote;
pub mod report;
pub mod strmap;
pub mod tags;
pub mod virtualid;
