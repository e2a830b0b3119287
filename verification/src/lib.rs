pub mod call_trace;
pub mod digits;
pub mod doc;
pub mod encoder;
pub mod ident;
pub mod query;
pub mod runtime_trace;
pub mod value;
pub mod with_source;
