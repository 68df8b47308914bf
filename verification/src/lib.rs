//! An in-memory entity-component storage engine.
//!
//! The crate manages the association between lightweight entity
//! identifiers and component data:
//!
//! - [`entity_handler`] allocates and recycles generation-tagged
//!   entity identifiers;
//! - [`sparse_set`] stores one component kind in a dense/sparse pair
//!   of arrays with a grouping partition for cache-friendly joint
//!   iteration;
//! - [`family_manager`] keeps one sparse set per component kind;
//! - [`component_manager`] routes component insertion and removal
//!   through the registry and runs the grouping protocol;
//! - [`manager`] combines the entity handler and the component
//!   manager behind one facade;
//! - [`components`] holds sample component records.

pub mod component_manager;
pub mod components;
pub mod entity_handler;
pub mod family_manager;
pub mod manager;
pub mod sparse_set;

pub use component_manager::ComponentManager;
pub use components::Position;
pub use components::HP;
pub use entity_handler::Entity;
pub use entity_handler::EntityHandler;
pub use family_manager::Container;
pub use family_manager::Family;
pub use manager::Manager;
pub use sparse_set::SparseSet;
