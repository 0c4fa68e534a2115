pub mod entity;
pub mod entity_component_set;
pub mod entity_manager;
pub mod sparse_set;
pub mod storage;
pub mod world;

pub use entity::EcsError;
pub use entity::Entity;
pub use entity::MAX_N_ENTITIES;
pub use entity_component_set::EntityComponentSet;
pub use entity_manager::EntityManager;
pub use sparse_set::SparseSet;
pub use storage::ComponentStorage;
pub use world::World;
