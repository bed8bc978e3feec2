//! Shared handles and the small collections that the prover works with.

pub mod clause_set;
pub mod find_variables_in_terms;
pub mod literal_set;
pub mod py_arc_item;
pub mod sorted;
pub mod variable_set;

pub use clause_set::ClauseSet;
pub use find_variables_in_terms::find_variables_in_terms;
pub use literal_set::LiteralSet;
pub use py_arc_item::PyArcItem;
pub use variable_set::VariableSet;
