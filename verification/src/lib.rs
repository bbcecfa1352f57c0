//! A compiler from a small Lisp dialect to a JavaScript syntax tree.
//!
//! A text goes through the library in three steps. The `grammar` reads it into a parse tree;
//! `jasp_parser` reduces the parse tree to the syntax tree of `ast`; the `compiler` lowers that
//! tree, under its environment, to the output tree of `es`. Names and keywords carry the hash of
//! `util`, which a JavaScript host computes alike; `homoglyphs` carries names to and from
//! JavaScript identifiers. A host may also hand over values of its own, which `ast` converts.
//!
//! A second front end keeps vectors, maps, sets and quoted expressions as nodes of their own
//! (`parser`) and renders them directly as JavaScript (`estree`).
//!
//! Every function states what it returns over mathematical views of its arguments: strings are
//! sequences of characters, vectors are sequences, trees are trees of these. `printer` holds
//! the law that ties text and tree together: writing a tree down and parsing it gives the tree
//! back.

pub mod ast;
pub mod compiler;
pub mod es;
pub mod estree;
pub mod grammar;
pub mod homoglyphs;
pub mod jasp_parser;
pub mod number;
pub mod parser;
pub mod printer;
pub mod text;
pub mod util;
