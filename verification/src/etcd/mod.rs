//! The datastore plugin's logic: etcd's v3 JSON gateway, and what a value
//! in the keyspace is.

pub mod gateway;
pub mod decode;
pub mod card;
pub mod routes;
