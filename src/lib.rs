//! Value resolution and message models for contract-based HTTP mocking.
//!
//! Path expressions (`$.headers.accept[0]`) address parts of a live HTTP request or of the
//! JSON or XML document on top of a matching plan's value stack; the resolvers give the value
//! there, with contracts that state the outcome for every path. Messages are read from the v3
//! JSON form of a contract.

pub mod bodies;
pub mod content_types;
pub mod engine;
pub mod http;
pub mod json;
pub mod message;
pub mod path_exp;
pub mod text;
pub mod value_resolvers;
pub mod xml;

pub use message::Message;
pub use path_exp::DocPath;
pub use value_resolvers::{CurrentStackValueResolver, HttpRequestValueResolver, ValueResolver};
