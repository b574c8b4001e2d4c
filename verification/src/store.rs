//! The persistent store as a relational model: the candidate queue, the
//! outcome ledger and the usage ledger, with the rules that every engine
//! that holds them has to keep.

pub mod csv;
pub mod ledger;
pub mod order;
pub mod queue;
pub mod rows;
pub mod schema;
pub mod sql;
pub mod table;
pub mod usage;
