//! COBALT: COBOL source files as terminal user interfaces.
//!
//! A COBALT program's SCREEN SECTION describes screens as trees of
//! containers, fields and buttons; its WORKING-STORAGE SECTION holds the
//! application's state; the paragraphs of its PROCEDURE DIVISION are the
//! handlers that buttons perform. This library parses such programs into
//! an intermediate representation, interprets their paragraphs, and makes
//! the decisions of a terminal front end.
use vstd::prelude::*;

pub mod calendar;
pub mod focus;
pub mod grammar;
pub mod interp;
pub mod interp_laws;
pub mod ir;
pub mod keys;
pub mod lexer;
pub mod model;
pub mod outline;
pub mod parse_laws;
pub mod parser;
pub mod project;
pub mod session;
pub mod source;
pub mod table;
pub mod text;
pub mod tree;
pub mod view;
