pub mod machine;
pub mod production;
pub mod recipe;

pub use machine::Machine;
pub use production::ProductionNode;
pub use recipe::Recipe;
