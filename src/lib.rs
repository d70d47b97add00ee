//! A verified XML tokenizer and tree builder. `tokenize` turns a text into lexical tokens
//! that borrow ranges of it, `parse` builds the tree of elements from them; both are proved
//! equal to a functional model of the grammar (`grammar`) and of the tree builder (`parse`).

pub mod chariter;
pub mod error;
pub mod grammar;
pub mod node;
pub mod parse;
pub mod ranges;
pub mod roundtrip;
pub mod textrange;
pub mod token;
pub mod tokenize;
pub mod tokenstream;
pub mod util;
pub mod xmlchar;
