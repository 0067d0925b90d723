//! Planning and lowering for the optimizing tier of a JavaScript JIT.
#![allow(unused_imports)]

pub mod arithmetic;
pub mod array_plan;
pub mod assemble;
pub mod assemble_laws;
pub mod block_laws;
pub mod bool_leaf;
pub mod call_code;
pub mod call_guards;
pub mod call_laws;
pub mod checks;
pub mod clif;
pub mod code;
pub mod config;
pub mod control;
pub mod counted_loops;
pub mod diagnostics;
pub mod direct_call;
pub mod direct_leaf;
pub mod element_access;
pub mod element_code;
pub mod element_laws;
pub mod elements;
pub mod entry_guards;
pub mod entry_state;
pub mod exit_laws;
pub mod exits;
pub mod frame;
pub mod frame_inline;
pub mod frame_laws;
pub mod frame_typing;
pub mod guard_code;
pub mod heap_laws;
pub mod helpers;
pub mod inline_body;
pub mod inline_calls;
pub mod inline_frames;
pub mod inline_laws;
pub mod inline_ops;
pub mod inline_regions;
pub mod inlined_calls;
pub mod inlining_laws;
pub mod ir;
pub mod leaf;
pub mod leaf_laws;
pub mod limit_laws;
pub mod lower_block;
pub mod lower_calls;
pub mod lower_flow;
pub mod lower_heap;
pub mod lower_machine;
pub mod lower_moves;
pub mod lower_node;
pub mod lower_numbers;
pub mod lower_polls;
pub mod lower_values;
pub mod lowering;
pub mod machine;
pub mod machine_plan;
pub mod names;
pub mod number_laws;
pub mod numeric;
pub mod opcode_laws;
pub mod opcodes;
pub mod ownership;
pub mod ownership_laws;
pub mod planning;
pub mod planning_budget;
pub mod planning_laws;
pub mod prologue;
pub mod property_access;
pub mod property_cache;
pub mod provenance;
pub mod qjs;
pub mod runtime;
pub mod scalar;
pub mod scalar_ops;
pub mod specialization;
pub mod specialized_calls;
pub mod spelling;
pub mod stages;
pub mod tier2;
pub mod tier_laws;
pub mod typing;
