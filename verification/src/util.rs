//! What every stage builds on.
pub mod indexed_vector;
