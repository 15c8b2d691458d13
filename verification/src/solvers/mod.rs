pub mod alpha_beta;
pub mod iter_deep;
pub mod simple;
pub mod ttable_alpha_beta;
pub mod ttable_solver;
