//! A client-side implementation of the Gemini protocol core: URI
//! decomposition, request validation and encoding, the byte-exact response
//! header framer, the status-code taxonomy, and the gemtext line tokenizer.
//!
//! Network transport (TCP + TLS) is deliberately left to the embedding
//! program: this crate works on plain values and byte buffers only.
pub mod gemtext;
pub mod request;
pub mod response;
pub mod status;
pub mod text;
pub mod uri;

pub use gemtext::{Gemtext, GemtextToken, TokenPreformatted};
pub use request::{Request, RequestError};
pub use response::{Response, ResponseHeader, ResponseHeaderParseError, ResponseReadError};
pub use status::Status;
