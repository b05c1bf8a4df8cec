//! Production planning engine for a factory-building game.
//!
//! Given a catalog of recipes and machines, the library selects one recipe per
//! item by a fixed priority ordering, computes how many machines each step
//! needs, resolves the full input chain (skipping cyclic branches), and offers
//! read-only aggregations over the resulting production tree.

pub mod constants;
pub mod error;
pub mod table;
pub mod text;
pub mod models;
pub mod planner;
pub mod config;
pub mod i18n;
pub mod url_params;

pub use config::GameData;
pub use error::ProductionError;
pub use i18n::Locale;
pub use i18n::Localizer;
pub use models::Machine;
pub use models::ProductionNode;
pub use models::Recipe;
pub use planner::VisitingSet;
pub use url_params::UrlParams;
