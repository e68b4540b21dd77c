//! The world description a settings document supplies: map source texts, the
//! item catalog, the player, the enemy roster, and the starting position.
//! Reading the document itself is the outer shell's business; the engine
//! only consumes the resulting data.
use vstd::prelude::*;

use crate::game::Entity;
use crate::game::EntityV;
use crate::game::ItemProps;
use crate::game::ItemPropsV;
use crate::game::entities_view;
use crate::game::items_view;

verus! {

/// Role-playing attributes of the player.
#[derive(Debug, PartialEq, Eq, Structural, Clone, Copy)]
pub struct RpProperties {
    pub at: i32,
    pub aw: i32,
    pub rs: i32,
}

/// The player as a settings document describes one.
#[derive(Debug)]
pub struct GameSettingsPlayer {
    pub name: String,
    pub character_type: String,
    pub total_health: i32,
    pub rp_properties: RpProperties,
}

/// The mathematical contents of a `GameSettingsPlayer`.
#[verifier::ext_equal]
pub ghost struct GameSettingsPlayerV {
    pub name: Seq<char>,
    pub character_type: Seq<char>,
    pub total_health: i32,
    pub rp_properties: RpProperties,
}

impl View for GameSettingsPlayer {
    type V = GameSettingsPlayerV;

    open spec fn view(&self) -> GameSettingsPlayerV {
        GameSettingsPlayerV {
            name: self.name@,
            character_type: self.character_type@,
            total_health: self.total_health,
            rp_properties: self.rp_properties,
        }
    }
}

/// A whole world description.
#[derive(Debug)]
pub struct GameSettings {
    pub maps: Vec<String>,
    pub global_items: Vec<ItemProps>,
    pub player: GameSettingsPlayer,
    /// the starting cell, as `[column, row]`
    pub start_pos: [usize; 2],
    pub enemies: Vec<Entity>,
}

/// The mathematical contents of a `GameSettings`.
#[verifier::ext_equal]
pub ghost struct GameSettingsV {
    pub maps: Seq<Seq<char>>,
    pub global_items: Seq<ItemPropsV>,
    pub player: GameSettingsPlayerV,
    pub start_pos: Seq<usize>,
    pub enemies: Seq<EntityV>,
}

impl View for GameSettings {
    type V = GameSettingsV;

    open spec fn view(&self) -> GameSettingsV {
        GameSettingsV {
            maps: self.maps@.map_values(|s: String| s@),
            global_items: items_view(self.global_items@),
            player: self.player@,
            start_pos: self.start_pos@,
            enemies: entities_view(self.enemies@),
        }
    }
}

} // verus!
