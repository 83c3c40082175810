//! A bounded model checker for symbolic transition systems over the theory of
//! arrays, refined by axiom instantiations found through equality saturation.

pub mod array_abstractor;
pub mod bmc;
pub mod canonicalize_boolean;
pub mod concrete;
pub mod conflict_scheduler;
pub mod cost;
pub mod frame_num_getter;
pub mod instantiator;
pub mod interpolant;
pub mod let_extract;
pub mod model;
pub mod numbered_to_symbolic;
pub mod parser;
pub mod proof_loop;
pub mod props;
pub mod rewriter;
pub mod sexpr;
pub mod smt;
pub mod term_extractor;
pub mod text;
pub mod utils;
pub mod vmt;

pub use crate::proof_loop::{ProofLoopResult, YardbirdOptions};
pub use crate::vmt::{VMTError, VMTModel};
