//! A persistent, schema-less object database with server-side stored
//! procedures: objects carry named fields holding string, integer or boolean
//! values; a field holding source text can be invoked as a verb and runs
//! against the same store.  The durable keyspace, the value encoding, the
//! argument lexer, the built-in commands and the verb engine's decisions are
//! all specified and verified here; the network and the script interpreter
//! drive them from outside.

pub mod args;
pub mod codec;
pub mod commands;
pub mod keys;
pub mod laws;
pub mod numbers;
pub mod script;
pub mod store;
pub mod text;
pub mod value;
