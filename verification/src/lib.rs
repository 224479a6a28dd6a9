//! Accounting engine for a liquid-staking pool.
//!
//! The pool accepts deposits of a base asset, converts them into a rebasing
//! credit balance that represents a proportional claim on stake spread across
//! several external validators, and later lets holders burn credit to reclaim
//! the underlying asset after an unlock delay.  The pieces are:
//!
//! * [`ledger`] — per-account credit balances and allowances;
//! * [`registry`] — the governance-run weighted validator table;
//! * [`distributor`] — the proportional stake/unstake split and the
//!   pending-operations table that tracks asynchronous results;
//! * [`rebase`] — the credit/asset exchange rate ("scale factor");
//! * [`withdrawal`] — burn-derived claims and their unlock epochs;
//! * [`pool`] — the service object that ties the pieces together and carries
//!   the entry points a host shell calls.
//!
//! All host interaction (caller identity, the epoch clock, the dispatch of
//! asynchronous stake and unstake requests) happens outside this crate: entry
//! points take the caller and the current epoch as arguments and hand back
//! the requests to dispatch as plain values.

pub mod account;
pub mod distributor;
pub mod errors;
pub mod idmap;
pub mod ledger;
pub mod math;
pub mod pool;
pub mod rebase;
pub mod registry;
pub mod withdrawal;

pub use account::AccountId;
pub use errors::Error;
pub use pool::StakePool;
