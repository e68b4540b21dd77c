//! A turn-based, grid-movement dungeon engine: tile maps parsed from a
//! pipe-delimited text format, a movement state machine with edge, teleport,
//! pickup and encounter resolution, an append-only inventory, and a
//! de-duplicating queue of transient messages.
use vstd::prelude::*;

pub mod custom_layer;
pub mod fight;
pub mod game;
pub mod info_manager;
pub mod map_gen;

pub use custom_layer::GameSettings;
pub use custom_layer::GameSettingsPlayer;
pub use custom_layer::RpProperties;
pub use fight::Fight;
pub use game::Enemy;
pub use game::Entity;
pub use game::EntityType;
pub use game::Game;
pub use game::GameError;
pub use game::Inventory;
pub use game::InventoryElement;
pub use game::ItemProps;
pub use game::MapBlockTypes;
pub use game::Movement;
pub use game::Pos;
pub use info_manager::InfoMessage;
pub use info_manager::InfoQueue;
pub use map_gen::TileMap;
pub use map_gen::ParseError;
pub use map_gen::generate_map;
pub use map_gen::get_block_type;
pub use map_gen::visulize_map;

verus! {

/// Which screen of the user interface is active.
#[derive(Debug, PartialEq, Eq, Structural, Clone, Copy)]
pub enum MenuItem {
    Game,
    Help,
    Inventory,
    Fight,
}

} // verus!
