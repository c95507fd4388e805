use vstd::prelude::*;

pub mod text;
pub mod types;
pub mod ast;
pub mod matching;
pub mod typeshed;
pub mod signatures;
pub mod stubs;
pub mod modes;
pub mod scope;
pub mod narrow;
pub mod subscript;
pub mod assigned;
pub mod reads;
pub mod force;
pub mod condition;
pub mod literals;
pub mod callsites;
pub mod checker;
pub mod merge;
pub mod laws;
pub mod result_length;
pub mod quoting;
pub mod shapes;
pub mod loops;
pub mod test_template;
pub mod call_checks;
pub mod pipes;
pub mod loaders;
pub mod construct;
pub mod guards;
pub mod attributes;
pub mod dynamic_closure;
pub mod recall;
pub mod ops_chooser;
pub mod binop;
pub mod index;
pub mod index_write;
pub mod infer_leaf;
pub mod typed_args;
pub mod stub_narrowing;
pub mod call_rules;
pub mod inference;
pub mod s3;
