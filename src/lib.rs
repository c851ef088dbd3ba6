//! Core of an embeddable scripting runtime: the value model and a register
//! virtual machine with call frames, protocol dispatch, `Try`, coroutines and
//! instruction budgets; run-time borrow tracking; a lexer and name
//! resolution; and the collections the runtime keeps (a ring-buffer deque
//! and a hash set).

pub mod access;
pub mod alloc_error;
pub mod budget;
pub mod hash;
pub mod hash_set;
pub mod lexer;
pub mod range_to;
pub mod resolve;
pub mod value;
pub mod vec_deque;
pub mod vm;
