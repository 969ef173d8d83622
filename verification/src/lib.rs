/// Signed integers as canonical elements of the BLS12-381 scalar field.
pub mod field;
/// An append-only constraint system: tagged variables, linear combinations,
/// equality assertions, satisfaction, and the public Statement.
pub mod cs;
/// Dense rectangular matrices of field elements.
pub mod matrix;
/// The matrix-multiplication constraint builder and its satisfaction laws.
pub mod builder;
