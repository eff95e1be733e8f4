//! Client-side building blocks for the Groonga search engine's HTTP interface:
//! a command-query encoder, a request-URI builder, and a decoder for the
//! engine's positional JSON response envelopes.

pub mod command_query;
pub mod result_parser;
pub mod uri;
pub mod value;
