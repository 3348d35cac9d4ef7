//! Operations on the keyspace, grouped by the kind of value they touch.

pub mod key;
pub mod string;
