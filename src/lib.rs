//! Canonical encoding of signed commit objects, folding of multi-line header
//! values, the key-unlock state machine and the reference edit rules.
pub mod text;
pub mod fold;
pub mod commit;
pub mod signed;
pub mod unlock;
pub mod refs;
pub mod assemble;
