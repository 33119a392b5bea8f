//! Data representations shared by the solvers: the polynomial algebra and
//! the coefficient scalars it is generic over.

pub mod polynomial;
