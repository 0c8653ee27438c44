//! The state of one installation: committed ownership and the transaction
//! journal.

pub mod action;
pub mod commit;
pub mod dependency;
pub mod failure;
pub mod installation;
pub mod journal;
pub mod left;
pub mod ownership;
pub mod schema;
