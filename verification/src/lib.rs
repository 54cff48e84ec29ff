//! Verified core of a parachain PoS template: the server, group and
//! collators pallets, modelled as state machines over plain values.

pub mod account;
pub mod dispatch;
pub mod group_id;
pub mod server_id;
pub mod maps;
pub mod traits;
pub mod types;
pub mod chain_spec;
pub mod collators;
pub mod collators_laws;
pub mod group;
pub mod group_laws;
pub mod runtime;
pub mod seqs;
pub mod server;
pub mod server_laws;
