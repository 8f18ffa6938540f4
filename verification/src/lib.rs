//! The logic of a data-driven skill system: the expression language, the compiler from skill
//! definitions to skill graphs, and the runtime that executes them.
use vstd::prelude::*;

pub mod action;
pub mod answer_laws;
pub mod append;
pub mod append_laws;
pub mod asset;
pub mod branch;
pub mod cast;
pub mod cast_laws;
pub mod check_laws;
pub mod collect;
pub mod compile;
pub mod component;
pub mod context;
pub mod decimal;
pub mod deck_laws;
pub mod decode;
pub mod decode_laws;
pub mod def;
pub mod desk_laws;
pub mod editor;
pub mod effect;
pub mod equality_laws;
pub mod error;
pub mod execute;
pub mod expr;
pub mod expr_laws;
pub mod frame_laws;
pub mod gameplay;
pub mod graph;
pub mod keys;
pub mod kind_laws;
pub mod ledger;
pub mod lexer;
pub mod library;
pub mod link_laws;
pub mod lower;
pub mod lower_laws;
pub mod materialize;
pub mod meaning_laws;
pub mod message;
pub mod modifier;
pub mod naming;
pub mod node;
pub mod number;
pub mod payload;
pub mod payment_laws;
pub mod protocol_laws;
pub mod registry;
pub mod requirement;
pub mod resolve_laws;
pub mod resume;
pub mod run_laws;
pub mod scan;
pub mod shape_laws;
pub mod slot_laws;
pub mod source_laws;
pub mod spelling_laws;
pub mod stat_laws;
pub mod table;
pub mod text;
pub mod tree_laws;
pub mod validate;
pub mod value;
pub mod vocabulary_laws;
pub mod wake_laws;
pub mod wording_laws;
pub mod world_laws;

verus! {

} // verus!
