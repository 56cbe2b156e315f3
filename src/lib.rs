//! Dense linear algebra over an abstract scalar type: matrices stored column
//! by column, vectors as matrices of width one, and the algorithms on them
//! (products, transpose, trace, row-echelon reduction, determinant, norms,
//! linear combination, interpolation), each with a verified contract.

pub mod error;
pub mod scalar;
pub mod ratio;
pub mod matrix;
pub mod vector;
pub mod ops;
pub mod elimination;
pub mod laws;
pub mod layout;
