//! A forgiving HTML parser with a node arena and a query selector engine.
//!
//! `parse` reads any byte string into a tree of tags, text and comments held in a flat arena
//! in document order; `VDom::query_selector` and `HTMLTag::query_selector` find tags by a
//! subset of CSS selector syntax.
use vstd::prelude::*;

pub mod attributes;
pub mod bytes;
pub mod node;
pub mod parser;
pub mod queryselector;
pub mod simd;
pub mod stream;
pub mod util;
pub mod vdom;

pub use attributes::Attributes;
pub use bytes::Bytes;
pub use node::{HTMLTag, Node, NodeHandle};
pub use parser::{HTMLVersion, Parser, ParserOptions};
pub use vdom::{parse, parse_owned, ParseError, VDom, VDomGuard};

verus! {

} // verus!
