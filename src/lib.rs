//! An incremental HTTP/1.x request decoder: raw byte chunks in, a CGI-style
//! environment and an accumulated body out.
pub mod buffer;
pub mod framing;
pub mod laws;
pub mod request;
pub mod text;
pub mod tokenizer;
