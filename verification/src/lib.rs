//! Core of a small in-memory NoSQL key-value store speaking the Skyhash-2
//! wire protocol: the incremental frame parser, the response framing
//! primitives, the keyspace/table/container data model, and the action
//! handlers (list modification, DDL, system introspection) together with the
//! query executor that drives them.

pub mod connection;
pub mod coremap;
pub mod ddl;
pub mod kv;
pub mod kvengine;
pub mod lmod;
pub mod memstore;
pub mod protocol;
pub mod queryengine;
pub mod registry;
pub mod responses;
pub mod sys;
pub mod terrapipe;
