//! The world state and the movement/event engine.
//!
//! A `Game` owns the maps, the player's position, the item catalog, the
//! entity roster, the inventory and the message queue. Each directional
//! command computes a destination cell and applies exactly one of:
//! map-transition, teleport, blocked, item pickup, encounter, or plain move.
use vstd::prelude::*;
use vstd::string::*;

use crate::MenuItem;
use crate::custom_layer::GameSettings;
use crate::custom_layer::GameSettingsPlayerV;
use crate::custom_layer::GameSettingsV;
use crate::info_manager::INFO_TIMER_START;
use crate::info_manager::InfoQueue;
use crate::info_manager::InfoQueueV;
use crate::info_manager::spec_queue_push;
use crate::map_gen::ParseError;
use crate::map_gen::TileMap;
use crate::map_gen::map_view;
use crate::map_gen::spec_generate_map;

verus! {

/// One cell of a tile map.
///
/// The payloads are indices: `NewMapTrigger` and the first field of
/// `TeleportTrigger` index the world's map list, `EnemyTrigger` indexes the
/// enemy part of the entity roster, `ItemTrigger` is an item id looked up in
/// the global item catalog. `TeleportTrigger` carries `(map, row, column)`.
#[derive(Debug, PartialEq, Eq, Structural, Clone, Copy)]
pub enum MapBlockTypes {
    Path,
    NotWalkable,
    NewMapTrigger(usize),
    TeleportTrigger(usize, usize, usize),
    EnemyTrigger(usize),
    ItemTrigger(usize),
}

/// A position on a map: `i` is the column, `j` the row.
#[derive(Debug, PartialEq, Eq, Structural, Clone, Copy)]
pub struct Pos {
    pub i: usize,
    pub j: usize,
}

/// One collectible item of the global catalog.
#[derive(Debug, Clone)]
pub struct ItemProps {
    pub id: usize,
    pub name: String,
    pub at: i32,
}

/// The mathematical contents of an `ItemProps`.
#[verifier::ext_equal]
pub ghost struct ItemPropsV {
    pub id: usize,
    pub name: Seq<char>,
    pub at: i32,
}

impl View for ItemProps {
    type V = ItemPropsV;

    open spec fn view(&self) -> ItemPropsV {
        ItemPropsV { id: self.id, name: self.name@, at: self.at }
    }
}

/// An enemy as a settings file describes one.
#[derive(Debug)]
pub struct Enemy {
    pub id: usize,
    pub name: String,
    pub health: usize,
    pub at: usize,
    pub aw: usize,
}

/// What kind of being an entity is.
#[derive(Debug, PartialEq, Eq, Structural, Clone, Copy)]
pub enum EntityType {
    Player,
    Enemy,
}

/// One being of the world: the player or an enemy.
#[derive(Debug)]
pub struct Entity {
    pub name: String,
    pub type_: EntityType,
    pub hp: i32,
    /// item id in the global catalog
    pub meele_weapon: Option<usize>,
    /// item id in the global catalog
    pub ranged_weapon: Option<usize>,
    pub at: Option<usize>,
    pub aw: Option<usize>,
}

/// The mathematical contents of an `Entity`.
#[verifier::ext_equal]
pub ghost struct EntityV {
    pub name: Seq<char>,
    pub type_: EntityType,
    pub hp: i32,
    pub meele_weapon: Option<usize>,
    pub ranged_weapon: Option<usize>,
    pub at: Option<usize>,
    pub aw: Option<usize>,
}

impl View for Entity {
    type V = EntityV;

    open spec fn view(&self) -> EntityV {
        EntityV {
            name: self.name@,
            type_: self.type_,
            hp: self.hp,
            meele_weapon: self.meele_weapon,
            ranged_weapon: self.ranged_weapon,
            at: self.at,
            aw: self.aw,
        }
    }
}

/// One acquired item: when it was picked up, and the catalog entry it had
/// then. Immutable once created.
#[derive(Debug)]
pub struct InventoryElement {
    pub acquisition_time: u128,
    pub props: ItemProps,
}

/// The mathematical contents of an `InventoryElement`.
#[verifier::ext_equal]
pub ghost struct InventoryElementV {
    pub acquisition_time: u128,
    pub props: ItemPropsV,
}

impl View for InventoryElement {
    type V = InventoryElementV;

    open spec fn view(&self) -> InventoryElementV {
        InventoryElementV { acquisition_time: self.acquisition_time, props: self.props@ }
    }
}

/// The append-only collection of acquired items, in acquisition order.
#[derive(Debug)]
pub struct Inventory {
    pub inventory: Vec<InventoryElement>,
}

impl View for Inventory {
    type V = Seq<InventoryElementV>;

    open spec fn view(&self) -> Seq<InventoryElementV> {
        self.inventory@.map_values(|e: InventoryElement| e@)
    }
}

/// The views of a catalog.
pub open spec fn items_view(items: Seq<ItemProps>) -> Seq<ItemPropsV> {
    items.map_values(|p: ItemProps| p@)
}

/// The views of an entity roster.
pub open spec fn entities_view(entities: Seq<Entity>) -> Seq<EntityV> {
    entities.map_values(|e: Entity| e@)
}

/// The views of the world's map list.
pub open spec fn maps_view(maps: Seq<TileMap>) -> Seq<Seq<Seq<MapBlockTypes>>> {
    maps.map_values(|m: TileMap| map_view(m))
}

/// The view of an optional item.
pub open spec fn opt_item_view(r: Option<ItemProps>) -> Option<ItemPropsV> {
    match r {
        Some(p) => Some(p@),
        None => None,
    }
}

/// The first catalog entry with the given id, if any.
pub open spec fn spec_find_item(items: Seq<ItemPropsV>, id: usize) -> Option<ItemPropsV>
    decreases items.len(),
{
    if items.len() == 0 {
        None
    } else if items[0].id == id {
        Some(items[0])
    } else {
        spec_find_item(items.skip(1), id)
    }
}

/// Relies on `std::time::SystemTime::now`: the milliseconds since the Unix
/// epoch, or 0 under a clock that reads before the epoch. Nothing is assumed
/// of the value: the clock may say anything.
#[verifier::external_body]
fn now_millis() -> u128 {
    match std::time::SystemTime::now().duration_since(std::time::UNIX_EPOCH) {
        Ok(d) => d.as_millis(),
        Err(_) => 0,
    }
}

/// A field-for-field copy of a catalog entry.
fn copy_props(p: &ItemProps) -> (r: ItemProps)
    ensures
        r@ == p@,
{
    ItemProps { id: p.id, name: p.name.clone(), at: p.at }
}

/// The inventory listing: one line per element, item name only, in
/// acquisition order.
pub open spec fn spec_inventory_text(inv: Seq<InventoryElementV>) -> Seq<char>
    decreases inv.len(),
{
    if inv.len() == 0 {
        Seq::empty()
    } else {
        spec_inventory_text(inv.drop_last()) + inv.last().props.name + seq!['\n']
    }
}

impl Inventory {
    /// An empty inventory.
    pub fn new() -> (r: Inventory)
        ensures
            r@ == Seq::<InventoryElementV>::empty(),
    {
        let r = Inventory { inventory: Vec::new() };
        proof {
            assert(r@ =~= Seq::<InventoryElementV>::empty());
        }
        r
    }

    /// The first catalog entry with id `item_id`, copied out.
    pub fn get_item_props(&self, item_id: &usize, global_items: &Vec<ItemProps>) -> (r: Option<
        ItemProps,
    >)
        ensures
            opt_item_view(r) == spec_find_item(items_view(global_items@), *item_id),
    {
        let n = global_items.len();
        let mut k: usize = 0;
        proof {
            assert(items_view(global_items@).skip(0) =~~= items_view(global_items@));
        }
        while k < n
            invariant
                k <= n,
                n == global_items@.len(),
                spec_find_item(items_view(global_items@), *item_id) == spec_find_item(
                    items_view(global_items@).skip(k as int),
                    *item_id,
                ),
            decreases n - k,
        {
            proof {
                assert(items_view(global_items@).skip(k as int)[0] == items_view(global_items@)[
                    k as int]);
                assert(items_view(global_items@)[k as int] == global_items@[k as int]@);
                assert(items_view(global_items@).skip(k as int).skip(1) =~~= items_view(
                    global_items@,
                ).skip(k + 1 as int));
            }
            let item_prop = &global_items[k];
            if item_prop.id == *item_id {
                return Some(copy_props(item_prop));
            }
            k = k + 1;
        }
        proof {
            assert(items_view(global_items@).skip(k as int) =~~= Seq::<ItemPropsV>::empty());
        }
        None
    }

    /// Appends the item with id `id` from the catalog, stamped with the
    /// current wall-clock time; fails when the catalog lacks the id, and
    /// then changes nothing.
    pub fn add_item(&mut self, id: usize, global_items: &Vec<ItemProps>) -> (r: Result<(), String>)
        ensures
            match spec_find_item(items_view(global_items@), id) {
                Some(p) => r is Ok && exists|t: u128|
                    final(self)@ == old(self)@.push(
                        (InventoryElementV { acquisition_time: t, props: p }),
                    ),
                None => {
                    &&& final(self)@ == old(self)@
                    &&& r matches Err(m) && m@ == "Item not found"@
                },
            },
    {
        let props = match self.get_item_props(&id, global_items) {
            Some(p) => p,
            None => {
                return Err(String::from_str("Item not found"));
            },
        };
        let t = now_millis();
        let ghost tt: u128 = t;
        let item = InventoryElement { acquisition_time: t, props };
        self.inventory.push(item);
        proof {
            let p = spec_find_item(items_view(global_items@), id)->Some_0;
            assert(self@ =~~= old(self)@.push(
                (InventoryElementV { acquisition_time: tt, props: p }),
            ));
        }
        Ok(())
    }

    /// The inventory as display text, one item name per line.
    pub fn to_string(&self) -> (r: String)
        ensures
            r@ == spec_inventory_text(self@),
    {
        let mut s = String::new();
        let mut k: usize = 0;
        proof {
            assert(self@.subrange(0, 0) =~~= Seq::<InventoryElementV>::empty());
        }
        while k < self.inventory.len()
            invariant
                k <= self.inventory@.len(),
                s@ == spec_inventory_text(self@.subrange(0, k as int)),
            decreases self.inventory@.len() - k,
        {
            let item = &self.inventory[k];
            s.append(item.props.name.as_str());
            s.append("\n");
            proof {
                reveal_strlit("\n");
                assert(self@.subrange(0, k + 1 as int).drop_last() =~= self@.subrange(0, k as int));
                assert(self@.subrange(0, k + 1 as int).last() == self@[k as int]);
                assert(self@[k as int] == self.inventory@[k as int]@);
                assert(s@ =~= spec_inventory_text(self@.subrange(0, k + 1 as int)));
            }
            k = k + 1;
        }
        proof {
            assert(self@.subrange(0, k as int) =~= self@);
        }
        s
    }
}

/// The whole world state: the player, the maps, and everything the engine
/// mutates. Tiles are looked up by index, never by reference, so map data
/// can be freely replaced.
#[derive(Debug)]
pub struct Game {
    /// shown as the title of the map view
    pub playername: String,
    pub active_menu_item: MenuItem,
    pub info_queue: InfoQueue,
    pub global_items: Vec<ItemProps>,
    pub entities: Vec<Entity>,
    pub maps: Vec<TileMap>,
    pub cur_map: usize,
    pub pos: Pos,
    pub inventory: Inventory,
}

/// The mathematical contents of a `Game`.
#[verifier::ext_equal]
pub ghost struct GameV {
    pub playername: Seq<char>,
    pub active_menu_item: MenuItem,
    pub info_queue: InfoQueueV,
    pub global_items: Seq<ItemPropsV>,
    pub entities: Seq<EntityV>,
    pub maps: Seq<Seq<Seq<MapBlockTypes>>>,
    pub cur_map: usize,
    pub pos: Pos,
    pub inventory: Seq<InventoryElementV>,
}

impl View for Game {
    type V = GameV;

    open spec fn view(&self) -> GameV {
        GameV {
            playername: self.playername@,
            active_menu_item: self.active_menu_item,
            info_queue: self.info_queue@,
            global_items: items_view(self.global_items@),
            entities: entities_view(self.entities@),
            maps: maps_view(self.maps@),
            cur_map: self.cur_map,
            pos: self.pos,
            inventory: self.inventory@,
        }
    }
}

/// Every row of `m` has the width of its first row.
pub open spec fn map_rect(m: Seq<Seq<MapBlockTypes>>) -> bool {
    forall|j: int| 0 <= j < m.len() ==> #[trigger] m[j].len() == m[0].len()
}

/// Every map of the world is rectangular.
pub open spec fn all_maps_rect(maps: Seq<Seq<Seq<MapBlockTypes>>>) -> bool {
    forall|k: int| 0 <= k < maps.len() ==> map_rect(#[trigger] maps[k])
}

/// Whether the trigger (if any) at map `k`, row `j`, column `i` points at
/// things that exist: a new-map trigger's target must exist, be nonempty,
/// and hold the landing cell wherever this trigger can fire from an edge; a
/// teleport's destination cell must exist; an enemy index must name a roster
/// entry (offset by one, the player being entry zero).
pub open spec fn trigger_wf(
    maps: Seq<Seq<Seq<MapBlockTypes>>>,
    n_entities: int,
    k: int,
    j: int,
    i: int,
) -> bool {
    match maps[k][j][i] {
        MapBlockTypes::NewMapTrigger(n) => {
            &&& n < maps.len()
            &&& maps[n as int].len() > 0
            &&& (j == 0 ==> i < maps[n as int][0].len())
            &&& (j == maps[k].len() - 1 ==> i < maps[n as int][0].len())
            &&& (i == 0 ==> j < maps[n as int].len() && maps[n as int][j].len() > 0)
            &&& (i == maps[k][j].len() - 1 ==> j < maps[n as int].len() && maps[n as int][j].len()
                > 0)
        },
        MapBlockTypes::TeleportTrigger(n, tj, ti) => {
            &&& n < maps.len()
            &&& tj < maps[n as int].len()
            &&& ti < maps[n as int][tj as int].len()
        },
        MapBlockTypes::EnemyTrigger(e) => e + 1 < n_entities,
        _ => true,
    }
}

/// Every trigger on every map is valid.
pub open spec fn world_triggers_wf(maps: Seq<Seq<Seq<MapBlockTypes>>>, n_entities: int) -> bool {
    forall|k: int, j: int, i: int|
        0 <= k < maps.len() && 0 <= j < maps[k].len() && 0 <= i < maps[k][j].len()
            ==> #[trigger] trigger_wf(maps, n_entities, k, j, i)
}

/// `maps` with the tile of map `k` at row `j`, column `i` replaced.
pub open spec fn set_tile(
    maps: Seq<Seq<Seq<MapBlockTypes>>>,
    k: int,
    j: int,
    i: int,
    tile: MapBlockTypes,
) -> Seq<Seq<Seq<MapBlockTypes>>> {
    maps.update(k, maps[k].update(j, maps[k][j].update(i, tile)))
}

/// Replacing a tile with a payload-free one keeps every well-formedness
/// property of the world: dimensions are untouched and the new tile asks
/// nothing of the world.
pub proof fn lemma_set_tile_keeps_wf(
    maps: Seq<Seq<Seq<MapBlockTypes>>>,
    n_entities: int,
    k: int,
    j: int,
    i: int,
    tile: MapBlockTypes,
)
    requires
        0 <= k < maps.len(),
        0 <= j < maps[k].len(),
        0 <= i < maps[k][j].len(),
        tile == MapBlockTypes::Path || tile matches MapBlockTypes::ItemTrigger(_),
    ensures
        ({
            let m2 = set_tile(maps, k, j, i, tile);
            &&& m2.len() == maps.len()
            &&& forall|x: int| 0 <= x < maps.len() ==> #[trigger] m2[x].len() == maps[x].len()
            &&& forall|x: int, y: int|
                0 <= x < maps.len() && 0 <= y < maps[x].len() ==> #[trigger] m2[x][y].len()
                    == maps[x][y].len()
            &&& (world_triggers_wf(maps, n_entities) ==> world_triggers_wf(m2, n_entities))
            &&& (all_maps_rect(maps) ==> all_maps_rect(m2))
        }),
{
    let m2 = set_tile(maps, k, j, i, tile);
    assert forall|x: int, y: int|
        0 <= x < maps.len() && 0 <= y < maps[x].len() implies #[trigger] m2[x][y].len()
        == maps[x][y].len() by {
        if x == k && y == j {
            assert(m2[x][y] == maps[k][j].update(i, tile));
        }
    }
    if world_triggers_wf(maps, n_entities) {
        assert forall|x: int, y: int, z: int|
            0 <= x < m2.len() && 0 <= y < m2[x].len() && 0 <= z < m2[x][y].len() implies #[trigger] trigger_wf(
            m2,
            n_entities,
            x,
            y,
            z,
        ) by {
            assert(trigger_wf(maps, n_entities, x, y, z));
            if x == k && y == j && z == i {
                assert(m2[x][y][z] == tile);
            } else {
                assert(m2[x][y][z] == maps[x][y][z]);
            }
        }
    }
    if all_maps_rect(maps) {
        assert forall|x: int| 0 <= x < m2.len() implies map_rect(#[trigger] m2[x]) by {
            assert(map_rect(maps[x]));
            assert forall|y: int| 0 <= y < m2[x].len() implies #[trigger] m2[x][y].len()
                == m2[x][0].len() by {
                assert(maps[x][y].len() == maps[x][0].len());
            }
        }
    }
}

impl GameV {
    /// The tile of the current map at `p`.
    pub open spec fn tile_at(self, p: Pos) -> MapBlockTypes {
        self.maps[self.cur_map as int][p.j as int][p.i as int]
    }

    /// Whether `p` lies on the current map.
    pub open spec fn pos_on_map(self, p: Pos) -> bool {
        &&& p.j < self.maps[self.cur_map as int].len()
        &&& p.i < self.maps[self.cur_map as int][p.j as int].len()
    }

    /// Well-formed: the current map and position exist, every map is
    /// rectangular, and every trigger payload on every map is a valid
    /// reference.
    pub open spec fn wf(self) -> bool {
        &&& self.cur_map < self.maps.len()
        &&& self.pos_on_map(self.pos)
        &&& all_maps_rect(self.maps)
        &&& world_triggers_wf(self.maps, self.entities.len() as int)
    }
}

impl Game {
    /// The tile of the current map at `pos`.
    pub fn get_map_block_type(&self, pos: &Pos) -> (r: &MapBlockTypes)
        requires
            self@.cur_map < self@.maps.len(),
            self@.pos_on_map(*pos),
        ensures
            *r == self@.tile_at(*pos),
    {
        proof {
            assert(self@.maps[self.cur_map as int] == map_view(self.maps@[self.cur_map as int]));
            assert(self@.maps[self.cur_map as int][pos.j as int] == self.maps@[self.cur_map as int]@[pos.j as int]@);
        }
        let row = &self.maps[self.cur_map][pos.j];
        let map_block = &row[pos.i];
        map_block
    }

    /// Replaces the tile at `pos` on the current map with `Path`, as when a
    /// one-shot item trigger has fired.
    pub fn remove_item_from_map(&mut self, pos: &Pos)
        requires
            old(self)@.cur_map < old(self)@.maps.len(),
            old(self)@.pos_on_map(*pos),
        ensures
            final(self)@ == (GameV {
                maps: set_tile(
                    old(self)@.maps,
                    old(self)@.cur_map as int,
                    pos.j as int,
                    pos.i as int,
                    MapBlockTypes::Path,
                ),
                ..old(self)@
            }),
    {
        self.set_map_block(pos, MapBlockTypes::Path);
    }

    /// Places an item trigger for `item_id` on the tile at `pos` of the
    /// current map.
    pub fn add_item_to_map(&mut self, pos: &Pos, item_id: usize)
        requires
            old(self)@.cur_map < old(self)@.maps.len(),
            old(self)@.pos_on_map(*pos),
        ensures
            final(self)@ == (GameV {
                maps: set_tile(
                    old(self)@.maps,
                    old(self)@.cur_map as int,
                    pos.j as int,
                    pos.i as int,
                    MapBlockTypes::ItemTrigger(item_id),
                ),
                ..old(self)@
            }),
    {
        self.set_map_block(pos, MapBlockTypes::ItemTrigger(item_id));
    }

    /// Writes `tile` at `pos` on the current map.
    fn set_map_block(&mut self, pos: &Pos, tile: MapBlockTypes)
        requires
            old(self)@.cur_map < old(self)@.maps.len(),
            old(self)@.pos_on_map(*pos),
        ensures
            final(self)@ == (GameV {
                maps: set_tile(
                    old(self)@.maps,
                    old(self)@.cur_map as int,
                    pos.j as int,
                    pos.i as int,
                    tile,
                ),
                ..old(self)@
            }),
    {
        proof {
            assert(old(self)@.maps[self.cur_map as int] == map_view(
                self.maps@[self.cur_map as int],
            ));
            assert(old(self)@.maps[self.cur_map as int][pos.j as int] == self.maps@[self.cur_map as int]@[pos.j as int]@);
        }
        let cm = self.cur_map;
        let j = pos.j;
        let i = pos.i;
        self.maps[cm][j][i] = tile;
        proof {
            assert(self@.maps =~~= set_tile(
                old(self)@.maps,
                old(self)@.cur_map as int,
                pos.j as int,
                pos.i as int,
                tile,
            ));
            assert(self@ =~~= (GameV {
                maps: set_tile(
                    old(self)@.maps,
                    old(self)@.cur_map as int,
                    pos.j as int,
                    pos.i as int,
                    tile,
                ),
                ..old(self)@
            }));
        }
    }
}

/// The engine's transition on one movement command. `incoming_block` is the
/// clamped destination, `new_map_pos` the landing position were a map
/// transition to fire, `is_edge` whether the unclamped step would leave the
/// grid; `t` is the timestamp a pickup would be stamped with. First match
/// wins: a new-map trigger under the player at an edge, then a teleport on
/// the destination (edge or not), then a blocked or edge no-op, an item
/// pickup, an encounter, or the plain move.
pub open spec fn spec_movement(
    g: GameV,
    incoming_block: Pos,
    new_map_pos: Pos,
    is_edge: bool,
    t: u128,
) -> GameV {
    let cur_tile = g.tile_at(g.pos);
    let dest_tile = g.tile_at(incoming_block);
    if is_edge && cur_tile is NewMapTrigger {
        match cur_tile {
            MapBlockTypes::NewMapTrigger(n) => GameV { cur_map: n, pos: new_map_pos, ..g },
            _ => g,
        }
    } else if dest_tile is TeleportTrigger {
        match dest_tile {
            MapBlockTypes::TeleportTrigger(n, tj, ti) => GameV {
                cur_map: n,
                pos: (Pos { i: ti, j: tj }),
                ..g
            },
            _ => g,
        }
    } else if !is_edge && dest_tile != MapBlockTypes::NotWalkable {
        match dest_tile {
            MapBlockTypes::ItemTrigger(item_id) => match spec_find_item(g.global_items, item_id) {
                Some(p) => GameV {
                    inventory: g.inventory.push(
                        (InventoryElementV { acquisition_time: t, props: p }),
                    ),
                    info_queue: spec_queue_push(
                        g.info_queue,
                        "Item"@,
                        "You have collected a "@ + p.name,
                    ),
                    maps: set_tile(
                        g.maps,
                        g.cur_map as int,
                        incoming_block.j as int,
                        incoming_block.i as int,
                        MapBlockTypes::Path,
                    ),
                    pos: incoming_block,
                    ..g
                },
                None => GameV { pos: incoming_block, ..g },
            },
            MapBlockTypes::EnemyTrigger(enemy_id) => GameV {
                active_menu_item: MenuItem::Fight,
                info_queue: spec_queue_push(
                    g.info_queue,
                    "Enemy"@,
                    "You have encountered a "@ + g.entities[enemy_id as int + 1].name,
                ),
                pos: incoming_block,
                ..g
            },
            _ => GameV { pos: incoming_block, ..g },
        }
    } else {
        g
    }
}

/// The transition of the `north` command: the destination is one row up,
/// clamped at the top edge; a transition lands on the bottom row of the new
/// map, column unchanged.
pub open spec fn spec_move_north(g: GameV, t: u128) -> GameV {
    let is_edge = g.pos.j == 0;
    let incoming = if g.pos.j > 0 {
        Pos { i: g.pos.i, j: (g.pos.j - 1) as usize }
    } else {
        g.pos
    };
    let entry = if is_edge {
        match g.tile_at(g.pos) {
            MapBlockTypes::NewMapTrigger(n) => Pos {
                i: g.pos.i,
                j: (g.maps[n as int].len() - 1) as usize,
            },
            _ => g.pos,
        }
    } else {
        g.pos
    };
    spec_movement(g, incoming, entry, is_edge, t)
}

/// The transition of the `south` command: the destination is one row down,
/// clamped at the bottom edge; a transition lands on row 0 of the new map.
pub open spec fn spec_move_south(g: GameV, t: u128) -> GameV {
    let h = g.maps[g.cur_map as int].len();
    let is_edge = g.pos.j == h - 1;
    let incoming = if g.pos.j + 1 < h {
        Pos { i: g.pos.i, j: (g.pos.j + 1) as usize }
    } else {
        g.pos
    };
    let entry = Pos { i: g.pos.i, j: 0 };
    spec_movement(g, incoming, entry, is_edge, t)
}

/// The transition of the `west` command: the destination is one column left,
/// clamped at the left edge; a transition lands on the rightmost column of
/// the new map, row unchanged.
pub open spec fn spec_move_west(g: GameV, t: u128) -> GameV {
    let is_edge = g.pos.i == 0;
    let incoming = if g.pos.i > 0 {
        Pos { i: (g.pos.i - 1) as usize, j: g.pos.j }
    } else {
        g.pos
    };
    let entry = if is_edge {
        match g.tile_at(g.pos) {
            MapBlockTypes::NewMapTrigger(n) => Pos {
                i: (g.maps[n as int][g.pos.j as int].len() - 1) as usize,
                j: g.pos.j,
            },
            _ => g.pos,
        }
    } else {
        g.pos
    };
    spec_movement(g, incoming, entry, is_edge, t)
}

/// The transition of the `east` command: the destination is one column
/// right, clamped at the right edge; a transition lands on column 0 of the
/// new map.
pub open spec fn spec_move_east(g: GameV, t: u128) -> GameV {
    let w = g.maps[g.cur_map as int][g.pos.j as int].len();
    let is_edge = g.pos.i == w - 1;
    let incoming = if g.pos.i + 1 < w {
        Pos { i: (g.pos.i + 1) as usize, j: g.pos.j }
    } else {
        g.pos
    };
    let entry = Pos { i: 0, j: g.pos.j };
    spec_movement(g, incoming, entry, is_edge, t)
}

/// The movement capability: one operation per cardinal direction, plus the
/// shared resolution step they all call.
pub trait Movement: Sized {
    /// Whether the state is fit for movement commands.
    spec fn moves_wf(&self) -> bool;

    /// What a direct call of `movement` must establish about its candidate
    /// positions.
    spec fn movement_allowed(&self, incoming_block: Pos, new_map_pos: Pos, is_edge: bool) -> bool;

    /// Resolves one step onto `incoming_block`.
    fn movement(&mut self, incoming_block: Pos, new_map_pos: Pos, is_edge: bool)
        requires
            old(self).moves_wf(),
            old(self).movement_allowed(incoming_block, new_map_pos, is_edge),
    ;

    /// Moves one row up.
    fn north(&mut self)
        requires
            old(self).moves_wf(),
    ;

    /// Moves one row down.
    fn south(&mut self)
        requires
            old(self).moves_wf(),
    ;

    /// Moves one column left.
    fn west(&mut self)
        requires
            old(self).moves_wf(),
    ;

    /// Moves one column right.
    fn east(&mut self)
        requires
            old(self).moves_wf(),
    ;
}

impl Movement for Game {
    open spec fn moves_wf(&self) -> bool {
        self@.wf()
    }

    open spec fn movement_allowed(&self, incoming_block: Pos, new_map_pos: Pos, is_edge: bool) -> bool {
        &&& self@.pos_on_map(incoming_block)
        &&& (match self@.tile_at(self@.pos) {
            MapBlockTypes::NewMapTrigger(n) => is_edge ==> n < self@.maps.len()
                && new_map_pos.j < self@.maps[n as int].len()
                && new_map_pos.i < self@.maps[n as int][new_map_pos.j as int].len(),
            _ => true,
        })
    }

    /// Applies the resolution order of `spec_movement` and keeps the world
    /// well-formed.
    fn movement(&mut self, incoming_block: Pos, new_map_pos: Pos, is_edge: bool)
        ensures
            final(self)@.wf(),
            exists|t: u128|
                final(self)@ == spec_movement(
                    old(self)@,
                    incoming_block,
                    new_map_pos,
                    is_edge,
                    t,
                ),
    {
        let ghost g0: GameV = self@;
        let ghost n_ent: int = self@.entities.len() as int;
        let p = self.pos;
        let cur_tile = *self.get_map_block_type(&p);
        let new_map_block_id = block_is_new_map(&cur_tile);
        if is_edge && new_map_block_id.is_some() {
            let n = new_map_block_id.unwrap();
            self.cur_map = n;
            self.pos = new_map_pos;
            proof {
                assert(self@ =~~= spec_movement(g0, incoming_block, new_map_pos, is_edge, 0));
                assert(self@.wf());
            }
            return;
        }
        let dest_tile = *self.get_map_block_type(&incoming_block);
        let teleport = block_is_teleport_trigger(&dest_tile);
        if teleport.is_some() {
            let (teleport_id, tj, ti) = teleport.unwrap();
            self.cur_map = teleport_id;
            let newpos = Pos { i: ti, j: tj };
            self.pos = newpos;
            proof {
                assert(trigger_wf(
                    g0.maps,
                    n_ent,
                    g0.cur_map as int,
                    incoming_block.j as int,
                    incoming_block.i as int,
                ));
                assert(self@ =~~= spec_movement(g0, incoming_block, new_map_pos, is_edge, 0));
                assert(self@.wf());
            }
            return;
        }
        if !is_edge && dest_tile != MapBlockTypes::NotWalkable {
            if let MapBlockTypes::ItemTrigger(item_id) = dest_tile {
                let found = self.inventory.get_item_props(&item_id, &self.global_items);
                match found {
                    Some(props) => {
                        let add_res = self.inventory.add_item(item_id, &self.global_items);
                        let ghost inv_mid: Seq<InventoryElementV> = self.inventory@;
                        let mut msg = String::from_str("You have collected a ");
                        msg.append(props.name.as_str());
                        self.info_queue.queue(String::from_str("Item"), msg);
                        self.remove_item_from_map(&incoming_block);
                        self.pos = incoming_block;
                        proof {
                            let pv = spec_find_item(g0.global_items, item_id)->Some_0;
                            let t = choose|t: u128|
                                inv_mid == g0.inventory.push(
                                    (InventoryElementV { acquisition_time: t, props: pv }),
                                );
                            assert(self@ =~~= spec_movement(
                                g0,
                                incoming_block,
                                new_map_pos,
                                is_edge,
                                t,
                            ));
                            lemma_set_tile_keeps_wf(
                                g0.maps,
                                n_ent,
                                g0.cur_map as int,
                                incoming_block.j as int,
                                incoming_block.i as int,
                                MapBlockTypes::Path,
                            );
                            assert(self@.wf());
                        }
                    },
                    None => {
                        self.pos = incoming_block;
                        proof {
                            assert(self@ =~~= spec_movement(
                                g0,
                                incoming_block,
                                new_map_pos,
                                is_edge,
                                0,
                            ));
                            assert(self@.wf());
                        }
                    },
                }
            } else if let MapBlockTypes::EnemyTrigger(enemy_id) = dest_tile {
                proof {
                    assert(trigger_wf(
                        g0.maps,
                        n_ent,
                        g0.cur_map as int,
                        incoming_block.j as int,
                        incoming_block.i as int,
                    ));
                    assert(self@.entities[enemy_id as int + 1] == self.entities@[enemy_id as int
                        + 1]@);
                }
                self.active_menu_item = MenuItem::Fight;
                let roster = self.entities.len();
                proof {
                    assert(enemy_id as int + 1 < roster as int);
                }
                let mut msg = String::from_str("You have encountered a ");
                msg.append(self.entities[enemy_id + 1].name.as_str());
                self.info_queue.queue(String::from_str("Enemy"), msg);
                self.pos = incoming_block;
                proof {
                    assert(self@ =~~= spec_movement(g0, incoming_block, new_map_pos, is_edge, 0));
                    assert(self@.wf());
                }
            } else {
                self.pos = incoming_block;
                proof {
                    assert(self@ =~~= spec_movement(g0, incoming_block, new_map_pos, is_edge, 0));
                    assert(self@.wf());
                }
            }
        } else {
            proof {
                assert(self@ =~~= spec_movement(g0, incoming_block, new_map_pos, is_edge, 0));
            }
        }
    }

    /// One step north (row − 1): at the top edge the step leaves the grid,
    /// and a new-map trigger under the player transfers to the bottom row of
    /// the target map.
    fn north(&mut self)
        ensures
            final(self)@.wf(),
            exists|t: u128| final(self)@ == spec_move_north(old(self)@, t),
    {
        let ghost g0: GameV = self@;
        let p = self.pos;
        let mut incoming_block = Pos { j: p.j, i: p.i };
        if p.j >= 1 {
            incoming_block.j = p.j - 1;
        }
        let is_edge = p.j == 0;
        let cur_tile = *self.get_map_block_type(&p);
        let new_map_pos = if is_edge {
            match block_is_new_map(&cur_tile) {
                Some(n) => {
                    proof {
                        assert(trigger_wf(
                            g0.maps,
                            g0.entities.len() as int,
                            g0.cur_map as int,
                            p.j as int,
                            p.i as int,
                        ));
                        assert(g0.maps[n as int] == map_view(self.maps@[n as int]));
                    }
                    Pos { i: p.i, j: self.maps[n].len() - 1 }
                },
                None => p,
            }
        } else {
            p
        };
        proof {
            assert(map_rect(g0.maps[g0.cur_map as int]));
            if p.j >= 1 {
                assert(g0.maps[g0.cur_map as int][p.j as int - 1].len() == g0.maps[g0.cur_map as int][0].len());
                assert(g0.maps[g0.cur_map as int][p.j as int].len() == g0.maps[g0.cur_map as int][0].len());
            }
            if is_edge && g0.tile_at(p) is NewMapTrigger {
                let n = g0.tile_at(p)->NewMapTrigger_0;
                assert(trigger_wf(
                    g0.maps,
                    g0.entities.len() as int,
                    g0.cur_map as int,
                    p.j as int,
                    p.i as int,
                ));
                assert(map_rect(g0.maps[n as int]));
                assert(g0.maps[n as int][g0.maps[n as int].len() - 1].len() == g0.maps[n as int][0].len());
            }
        }
        self.movement(incoming_block, new_map_pos, is_edge);
        proof {
            let t = choose|t: u128|
                self@ == spec_movement(g0, incoming_block, new_map_pos, is_edge, t);
            assert(self@ == spec_move_north(g0, t));
        }
    }

    /// One step south (row + 1): at the bottom edge the step leaves the
    /// grid, and a new-map trigger under the player transfers to row 0 of
    /// the target map.
    fn south(&mut self)
        ensures
            final(self)@.wf(),
            exists|t: u128| final(self)@ == spec_move_south(old(self)@, t),
    {
        let ghost g0: GameV = self@;
        let p = self.pos;
        proof {
            assert(g0.maps[g0.cur_map as int] == map_view(self.maps@[g0.cur_map as int]));
        }
        let h = self.maps[self.cur_map].len();
        let mut incoming_block = Pos { j: p.j, i: p.i };
        if p.j + 1 < h {
            incoming_block.j = p.j + 1;
        }
        let is_edge = p.j == h - 1;
        let new_map_pos = Pos { i: p.i, j: 0 };
        proof {
            assert(map_rect(g0.maps[g0.cur_map as int]));
            if p.j + 1 < h {
                assert(g0.maps[g0.cur_map as int][p.j as int + 1].len() == g0.maps[g0.cur_map as int][0].len());
                assert(g0.maps[g0.cur_map as int][p.j as int].len() == g0.maps[g0.cur_map as int][0].len());
            }
            if is_edge && g0.tile_at(p) is NewMapTrigger {
                assert(trigger_wf(
                    g0.maps,
                    g0.entities.len() as int,
                    g0.cur_map as int,
                    p.j as int,
                    p.i as int,
                ));
            }
        }
        self.movement(incoming_block, new_map_pos, is_edge);
        proof {
            let t = choose|t: u128|
                self@ == spec_movement(g0, incoming_block, new_map_pos, is_edge, t);
            assert(self@ == spec_move_south(g0, t));
        }
    }

    /// One step west (column − 1): at the left edge the step leaves the
    /// grid, and a new-map trigger under the player transfers to the
    /// rightmost column of the target map.
    fn west(&mut self)
        ensures
            final(self)@.wf(),
            exists|t: u128| final(self)@ == spec_move_west(old(self)@, t),
    {
        let ghost g0: GameV = self@;
        let p = self.pos;
        let mut incoming_block = Pos { j: p.j, i: p.i };
        if p.i >= 1 {
            incoming_block.i = p.i - 1;
        }
        let is_edge = p.i == 0;
        let cur_tile = *self.get_map_block_type(&p);
        let new_map_pos = if is_edge {
            match block_is_new_map(&cur_tile) {
                Some(n) => {
                    proof {
                        assert(trigger_wf(
                            g0.maps,
                            g0.entities.len() as int,
                            g0.cur_map as int,
                            p.j as int,
                            p.i as int,
                        ));
                        assert(g0.maps[n as int] == map_view(self.maps@[n as int]));
                        assert(g0.maps[n as int][p.j as int] == self.maps@[n as int]@[p.j as int]@);
                    }
                    Pos { i: self.maps[n][p.j].len() - 1, j: p.j }
                },
                None => p,
            }
        } else {
            p
        };
        proof {
            if is_edge && g0.tile_at(p) is NewMapTrigger {
                assert(trigger_wf(
                    g0.maps,
                    g0.entities.len() as int,
                    g0.cur_map as int,
                    p.j as int,
                    p.i as int,
                ));
            }
        }
        self.movement(incoming_block, new_map_pos, is_edge);
        proof {
            let t = choose|t: u128|
                self@ == spec_movement(g0, incoming_block, new_map_pos, is_edge, t);
            assert(self@ == spec_move_west(g0, t));
        }
    }

    /// One step east (column + 1): at the right edge the step leaves the
    /// grid, and a new-map trigger under the player transfers to column 0 of
    /// the target map.
    fn east(&mut self)
        ensures
            final(self)@.wf(),
            exists|t: u128| final(self)@ == spec_move_east(old(self)@, t),
    {
        let ghost g0: GameV = self@;
        let p = self.pos;
        proof {
            assert(g0.maps[g0.cur_map as int] == map_view(self.maps@[g0.cur_map as int]));
            assert(g0.maps[g0.cur_map as int][p.j as int] == self.maps@[g0.cur_map as int]@[p.j as int]@);
        }
        let w = self.maps[self.cur_map][p.j].len();
        let mut incoming_block = Pos { j: p.j, i: p.i };
        if p.i + 1 < w {
            incoming_block.i = p.i + 1;
        }
        let is_edge = p.i == w - 1;
        let new_map_pos = Pos { i: 0, j: p.j };
        proof {
            if is_edge && g0.tile_at(p) is NewMapTrigger {
                assert(trigger_wf(
                    g0.maps,
                    g0.entities.len() as int,
                    g0.cur_map as int,
                    p.j as int,
                    p.i as int,
                ));
            }
        }
        self.movement(incoming_block, new_map_pos, is_edge);
        proof {
            let t = choose|t: u128|
                self@ == spec_movement(g0, incoming_block, new_map_pos, is_edge, t);
            assert(self@ == spec_move_east(g0, t));
        }
    }
}

/// Why a world could not be built from its settings.
#[derive(Debug, PartialEq, Eq, Structural, Clone, Copy)]
pub enum GameError {
    /// A map source text failed to parse.
    Parse(ParseError),
    /// The settings hold no map at all.
    NoMaps,
    /// A map has rows of differing widths.
    RaggedMap,
    /// The starting position lies outside the first map.
    StartOutOfBounds,
    /// A trigger references a map, cell or roster entry that does not exist.
    BadTrigger,
}

/// The map sources parsed in order; the first failure wins.
pub open spec fn spec_parse_maps(sources: Seq<Seq<char>>) -> Result<
    Seq<Seq<Seq<MapBlockTypes>>>,
    ParseError,
>
    decreases sources.len(),
{
    if sources.len() == 0 {
        Ok(Seq::empty())
    } else {
        match spec_generate_map(sources[0]) {
            Err(e) => Err(e),
            Ok(m) => match spec_parse_maps(sources.skip(1)) {
                Err(e) => Err(e),
                Ok(rest) => Ok(seq![m] + rest),
            },
        }
    }
}

/// The player's roster entry built from the settings.
pub open spec fn player_entity(p: GameSettingsPlayerV) -> EntityV {
    EntityV {
        name: p.name,
        type_: EntityType::Player,
        hp: p.total_health,
        meele_weapon: None,
        ranged_weapon: None,
        at: None,
        aw: None,
    }
}

/// The starting state built from a settings description, or why it is
/// rejected: a map source that does not parse, an empty map list, a ragged
/// map, a start position off the first map, or a trigger pointing at
/// something that does not exist, in that order. Failing fast here is what
/// lets every movement operation stay panic-free afterwards.
pub open spec fn spec_new_game(s: GameSettingsV) -> Result<GameV, GameError> {
    match spec_parse_maps(s.maps) {
        Err(e) => Err(GameError::Parse(e)),
        Ok(maps) => {
            let start = Pos { i: s.start_pos[0], j: s.start_pos[1] };
            let entities = seq![player_entity(s.player)] + s.enemies;
            if maps.len() == 0 {
                Err(GameError::NoMaps)
            } else if !all_maps_rect(maps) {
                Err(GameError::RaggedMap)
            } else if !(start.j < maps[0].len() && start.i < maps[0][start.j as int].len()) {
                Err(GameError::StartOutOfBounds)
            } else if !world_triggers_wf(maps, entities.len() as int) {
                Err(GameError::BadTrigger)
            } else {
                Ok(
                    GameV {
                        playername: s.player.name,
                        active_menu_item: MenuItem::Game,
                        info_queue: InfoQueueV {
                            queue: Seq::empty(),
                            timer: INFO_TIMER_START,
                        },
                        global_items: s.global_items,
                        entities: entities,
                        maps: maps,
                        cur_map: 0,
                        pos: start,
                        inventory: Seq::empty(),
                    },
                )
            }
        },
    }
}

/// Whether every row of `m` has the width of the first.
fn check_rect(m: &TileMap) -> (b: bool)
    ensures
        b == map_rect(map_view(*m)),
{
    if m.len() == 0 {
        return true;
    }
    let w = m[0].len();
    proof {
        assert(map_view(*m)[0] == m@[0]@);
    }
    let mut j: usize = 1;
    while j < m.len()
        invariant
            1 <= j <= m@.len(),
            m@.len() > 0,
            w == map_view(*m)[0].len(),
            forall|y: int|
                0 <= y < j ==> #[trigger] map_view(*m)[y].len() == map_view(*m)[0].len(),
        decreases m@.len() - j,
    {
        proof {
            assert(map_view(*m)[j as int] == m@[j as int]@);
        }
        if m[j].len() != w {
            return false;
        }
        j = j + 1;
    }
    true
}

/// Whether the trigger (if any) of map `k` at row `j`, column `i` points at
/// things that exist.
fn check_trigger_at(maps: &Vec<TileMap>, n_entities: usize, k: usize, j: usize, i: usize) -> (b:
    bool)
    requires
        k < maps@.len(),
        j < maps@[k as int]@.len(),
        i < maps@[k as int]@[j as int]@.len(),
    ensures
        b == trigger_wf(maps_view(maps@), n_entities as int, k as int, j as int, i as int),
{
    let ghost mv = maps_view(maps@);
    proof {
        assert(mv[k as int] == map_view(maps@[k as int]));
        assert(mv[k as int][j as int] == maps@[k as int]@[j as int]@);
    }
    let tile = maps[k][j][i];
    match tile {
        MapBlockTypes::NewMapTrigger(n) => {
            if !(n < maps.len()) {
                return false;
            }
            proof {
                assert(mv[n as int] == map_view(maps@[n as int]));
            }
            if maps[n].len() == 0 {
                return false;
            }
            proof {
                assert(mv[n as int][0] == maps@[n as int]@[0]@);
            }
            let ok_north = if j == 0 {
                i < maps[n][0].len()
            } else {
                true
            };
            let ok_south = if j == maps[k].len() - 1 {
                i < maps[n][0].len()
            } else {
                true
            };
            let ok_west = if i == 0 {
                if j < maps[n].len() {
                    proof {
                        assert(mv[n as int][j as int] == maps@[n as int]@[j as int]@);
                    }
                    maps[n][j].len() > 0
                } else {
                    false
                }
            } else {
                true
            };
            let ok_east = if i == maps[k][j].len() - 1 {
                if j < maps[n].len() {
                    proof {
                        assert(mv[n as int][j as int] == maps@[n as int]@[j as int]@);
                    }
                    maps[n][j].len() > 0
                } else {
                    false
                }
            } else {
                true
            };
            ok_north && ok_south && ok_west && ok_east
        },
        MapBlockTypes::TeleportTrigger(n, tj, ti) => {
            if !(n < maps.len()) {
                return false;
            }
            proof {
                assert(mv[n as int] == map_view(maps@[n as int]));
            }
            if !(tj < maps[n].len()) {
                return false;
            }
            proof {
                assert(mv[n as int][tj as int] == maps@[n as int]@[tj as int]@);
            }
            ti < maps[n][tj].len()
        },
        MapBlockTypes::EnemyTrigger(e) => e < n_entities && e + 1 < n_entities,
        _ => true,
    }
}

/// Whether every trigger payload on every map is a valid reference.
fn check_triggers(maps: &Vec<TileMap>, n_entities: usize) -> (b: bool)
    ensures
        b == world_triggers_wf(maps_view(maps@), n_entities as int),
{
    let ghost mv = maps_view(maps@);
    let n = maps.len();
    let mut k: usize = 0;
    while k < n
        invariant
            k <= n,
            n == maps@.len(),
            mv == maps_view(maps@),
            forall|x: int, y: int, z: int|
                0 <= x < k && 0 <= y < mv[x].len() && 0 <= z < mv[x][y].len()
                    ==> #[trigger] trigger_wf(mv, n_entities as int, x, y, z),
        decreases n - k,
    {
        proof {
            assert(mv[k as int] == map_view(maps@[k as int]));
        }
        let rows = maps[k].len();
        let mut j: usize = 0;
        while j < rows
            invariant
                k < n,
                n == maps@.len(),
                mv == maps_view(maps@),
                j <= rows,
                rows == mv[k as int].len(),
                forall|x: int, y: int, z: int|
                    0 <= x < k && 0 <= y < mv[x].len() && 0 <= z < mv[x][y].len()
                        ==> #[trigger] trigger_wf(mv, n_entities as int, x, y, z),
                forall|y: int, z: int|
                    0 <= y < j && 0 <= z < mv[k as int][y].len() ==> #[trigger] trigger_wf(
                        mv,
                        n_entities as int,
                        k as int,
                        y,
                        z,
                    ),
            decreases rows - j,
        {
            proof {
                assert(mv[k as int][j as int] == maps@[k as int]@[j as int]@);
            }
            let cols = maps[k][j].len();
            let mut i: usize = 0;
            while i < cols
                invariant
                    k < n,
                    j < rows,
                    n == maps@.len(),
                    mv == maps_view(maps@),
                    rows == mv[k as int].len(),
                    i <= cols,
                    cols == mv[k as int][j as int].len(),
                    forall|z: int|
                        0 <= z < i ==> #[trigger] trigger_wf(
                            mv,
                            n_entities as int,
                            k as int,
                            j as int,
                            z,
                        ),
                decreases cols - i,
            {
                if !check_trigger_at(maps, n_entities, k, j, i) {
                    proof {
                        assert(!trigger_wf(mv, n_entities as int, k as int, j as int, i as int));
                    }
                    return false;
                }
                i = i + 1;
            }
            j = j + 1;
        }
        k = k + 1;
    }
    proof {
        assert forall|x: int, y: int, z: int|
            0 <= x < mv.len() && 0 <= y < mv[x].len() && 0 <= z
                < mv[x][y].len() implies #[trigger] trigger_wf(
            mv,
            n_entities as int,
            x,
            y,
            z,
        ) by {}
    }
    true
}

/// The views of a list of map source texts.
pub open spec fn strings_view(sources: Seq<String>) -> Seq<Seq<char>> {
    sources.map_values(|s: String| s@)
}

/// Parses every map source, in order; the first failure wins.
fn parse_maps(sources: &Vec<String>) -> (r: Result<Vec<TileMap>, ParseError>)
    ensures
        r matches Ok(ms) ==> spec_parse_maps(strings_view(sources@)) == Ok::<
            Seq<Seq<Seq<MapBlockTypes>>>,
            ParseError,
        >(maps_view(ms@)),
        r matches Err(e) ==> spec_parse_maps(strings_view(sources@)) == Err::<
            Seq<Seq<Seq<MapBlockTypes>>>,
            ParseError,
        >(e),
{
    let ghost sv: Seq<Seq<char>> = strings_view(sources@);
    let mut maps: Vec<TileMap> = Vec::new();
    let mut k: usize = 0;
    proof {
        assert(sv.skip(0) =~~= sv);
        assert(maps_view(maps@) =~~= Seq::<Seq<Seq<MapBlockTypes>>>::empty());
    }
    while k < sources.len()
        invariant
            k <= sources@.len(),
            sv == strings_view(sources@),
            spec_parse_maps(sv) == match spec_parse_maps(sv.skip(k as int)) {
                Ok(rest) => Ok(maps_view(maps@) + rest),
                Err(e) => Err(e),
            },
        decreases sources@.len() - k,
    {
        proof {
            assert(sv.skip(k as int)[0] == sv[k as int]);
            assert(sv[k as int] == sources@[k as int]@);
            assert(sv.skip(k as int).skip(1) =~~= sv.skip(k + 1 as int));
        }
        let source = sources[k].clone();
        let parsed = crate::map_gen::generate_map(source);
        match parsed {
            Ok(m) => {
                let ghost maps_before = maps_view(maps@);
                let ghost m_v = map_view(m);
                maps.push(m);
                proof {
                    assert(maps_view(maps@) =~~= maps_before + seq![m_v]);
                    let rec = spec_parse_maps(sv.skip(k + 1 as int));
                    if rec is Ok {
                        assert(maps_view(maps@) + rec->Ok_0 =~~= maps_before + (seq![m_v]
                            + rec->Ok_0));
                    }
                }
            },
            Err(e) => {
                proof {
                    assert(spec_parse_maps(sv.skip(k as int)) == Err::<
                        Seq<Seq<Seq<MapBlockTypes>>>,
                        ParseError,
                    >(e));
                }
                return Err(e);
            },
        }
        k = k + 1;
    }
    proof {
        assert(sv.skip(k as int) =~~= Seq::<Seq<char>>::empty());
        assert(spec_parse_maps(sv.skip(k as int)) == Ok::<_, ParseError>(
            Seq::<Seq<Seq<MapBlockTypes>>>::empty(),
        ));
        assert(maps_view(maps@) + Seq::<Seq<Seq<MapBlockTypes>>>::empty() =~~= maps_view(maps@));
    }
    Ok(maps)
}

/// Whether every map in the list is rectangular.
fn check_all_rect(maps: &Vec<TileMap>) -> (b: bool)
    ensures
        b == all_maps_rect(maps_view(maps@)),
{
    let ghost mv = maps_view(maps@);
    let mut k: usize = 0;
    while k < maps.len()
        invariant
            k <= maps@.len(),
            mv == maps_view(maps@),
            forall|x: int| 0 <= x < k ==> map_rect(#[trigger] mv[x]),
        decreases maps@.len() - k,
    {
        proof {
            assert(mv[k as int] == map_view(maps@[k as int]));
        }
        if !check_rect(&maps[k]) {
            proof {
                assert(!all_maps_rect(mv));
            }
            return false;
        }
        k = k + 1;
    }
    true
}

impl Game {
    /// Builds the starting world from a settings description, validating
    /// everything the engine will later rely on: every map source parses,
    /// there is a first map, maps are rectangular, the starting position is
    /// on the first map, and every trigger points at something that exists.
    pub fn new(game_settings: GameSettings) -> (r: Result<Game, GameError>)
        ensures
            r matches Ok(g) ==> spec_new_game(game_settings@) == Ok::<GameV, GameError>(g@)
                && g@.wf(),
            r matches Err(e) ==> spec_new_game(game_settings@) == Err::<GameV, GameError>(e),
    {
        let ghost sv: GameSettingsV = game_settings@;
        let mut settings = game_settings;
        let maps = match parse_maps(&settings.maps) {
            Ok(ms) => ms,
            Err(e) => {
                return Err(GameError::Parse(e));
            },
        };
        let ghost mv = maps_view(maps@);

        let mut entities: Vec<Entity> = Vec::new();
        entities.push(
            Entity {
                hp: settings.player.total_health,
                name: settings.player.name.clone(),
                meele_weapon: None,
                ranged_weapon: None,
                type_: EntityType::Player,
                aw: None,
                at: None,
            },
        );
        entities.append(&mut settings.enemies);
        proof {
            assert(entities_view(entities@) =~~= seq![player_entity(sv.player)] + sv.enemies);
        }

        if maps.len() == 0 {
            return Err(GameError::NoMaps);
        }
        if !check_all_rect(&maps) {
            return Err(GameError::RaggedMap);
        }

        let start_i = settings.start_pos[0];
        let start_j = settings.start_pos[1];
        proof {
            assert(mv[0] == map_view(maps@[0]));
        }
        if !(start_j < maps[0].len()) {
            return Err(GameError::StartOutOfBounds);
        }
        proof {
            assert(mv[0][start_j as int] == maps@[0]@[start_j as int]@);
        }
        if !(start_i < maps[0][start_j].len()) {
            return Err(GameError::StartOutOfBounds);
        }

        if !check_triggers(&maps, entities.len()) {
            return Err(GameError::BadTrigger);
        }

        let game = Game {
            playername: settings.player.name,
            cur_map: 0,
            global_items: settings.global_items,
            entities,
            inventory: Inventory::new(),
            pos: Pos { i: start_i, j: start_j },
            info_queue: InfoQueue::new(),
            maps,
            active_menu_item: MenuItem::Game,
        };
        proof {
            assert(game@.info_queue.queue =~~= Seq::<crate::info_manager::InfoMessageV>::empty());
            assert(game@.inventory =~~= Seq::<InventoryElementV>::empty());
            assert(game@ =~~= spec_new_game(sv)->Ok_0);
            assert(spec_new_game(sv) == Ok::<GameV, GameError>(game@));
            assert(game@.wf());
        }
        Ok(game)
    }
}

/// Blocked moves are idempotent no-ops: with the cell one step north inside
/// the grid and not walkable, `north` leaves the whole state unchanged,
/// however often it is repeated.
pub proof fn lemma_blocked_north_is_noop(g: GameV, t1: u128, t2: u128)
    requires
        g.wf(),
        g.pos.j > 0,
        g.tile_at(Pos { i: g.pos.i, j: (g.pos.j - 1) as usize }) == MapBlockTypes::NotWalkable,
    ensures
        spec_move_north(g, t1) == g,
        spec_move_north(spec_move_north(g, t1), t2) == g,
{
}

/// At the boundary with nothing to trigger: on a plain path tile at row 0,
/// `north` changes nothing.
pub proof fn lemma_edge_without_trigger_is_noop(g: GameV, t: u128)
    requires
        g.wf(),
        g.pos.j == 0,
        g.tile_at(g.pos) == MapBlockTypes::Path,
    ensures
        spec_move_north(g, t) == g,
{
}

/// A map transition lands on the opposite edge: at row 0 on a new-map
/// trigger, `north` switches to the target map and sets the position to its
/// bottom row, column unchanged; no other part of the state changes.
pub proof fn lemma_transition_lands_opposite_edge(g: GameV, n: usize, t: u128)
    requires
        g.wf(),
        g.pos.j == 0,
        g.tile_at(g.pos) == MapBlockTypes::NewMapTrigger(n),
    ensures
        n < g.maps.len(),
        g.maps[n as int].len() > 0,
        spec_move_north(g, t) == (GameV {
            cur_map: n,
            pos: (Pos { i: g.pos.i, j: (g.maps[n as int].len() - 1) as usize }),
            ..g
        }),
{
    assert(trigger_wf(
        g.maps,
        g.entities.len() as int,
        g.cur_map as int,
        g.pos.j as int,
        g.pos.i as int,
    ));
}

/// One-shot pickup: a step onto an item trigger whose id the catalog holds
/// appends exactly one inventory element carrying that catalog entry,
/// converts the tile to a plain path, moves the player onto it and queues
/// the pickup message. A later step onto the same cell finds a plain path
/// and picks up nothing (see `lemma_plain_move`): the trigger is gone.
pub proof fn lemma_pickup_collects_once(g: GameV, incoming: Pos, nmp: Pos, id: usize, t: u128)
    requires
        g.wf(),
        g.pos_on_map(incoming),
        g.tile_at(incoming) == MapBlockTypes::ItemTrigger(id),
        spec_find_item(g.global_items, id) is Some,
    ensures
        ({
            let g2 = spec_movement(g, incoming, nmp, false, t);
            let p = spec_find_item(g.global_items, id)->Some_0;
            &&& g2.cur_map == g.cur_map
            &&& g2.pos == incoming
            &&& g2.inventory == g.inventory.push(
                (InventoryElementV { acquisition_time: t, props: p }),
            )
            &&& g2.tile_at(incoming) == MapBlockTypes::Path
            &&& g2.info_queue == spec_queue_push(
                g.info_queue,
                "Item"@,
                "You have collected a "@ + p.name,
            )
        }),
{
    let g2 = spec_movement(g, incoming, nmp, false, t);
    assert(g2.maps[g.cur_map as int] == g.maps[g.cur_map as int].update(
        incoming.j as int,
        g.maps[g.cur_map as int][incoming.j as int].update(incoming.i as int, MapBlockTypes::Path),
    ));
}

/// A step onto a plain path tile only moves the player.
pub proof fn lemma_plain_move(g: GameV, incoming: Pos, nmp: Pos, t: u128)
    requires
        g.tile_at(incoming) == MapBlockTypes::Path,
    ensures
        spec_movement(g, incoming, nmp, false, t) == (GameV { pos: incoming, ..g }),
{
}

/// The inventory is append-only: whatever a movement command resolves to, the
/// elements already acquired stay, in order, and at most one element is
/// appended.
pub proof fn lemma_inventory_append_only(
    g: GameV,
    incoming_block: Pos,
    new_map_pos: Pos,
    is_edge: bool,
    t: u128,
)
    ensures
        ({
            let g2 = spec_movement(g, incoming_block, new_map_pos, is_edge, t);
            &&& g.inventory.is_prefix_of(g2.inventory)
            &&& g2.inventory.len() <= g.inventory.len() + 1
        }),
{
    let g2 = spec_movement(g, incoming_block, new_map_pos, is_edge, t);
    assert(g.inventory =~= g2.inventory.subrange(0, g.inventory.len() as int));
}

/// Rule order: the transition rule consults the tile under the player, and
/// only at an edge; the teleport rule consults the destination tile, edge or
/// not. Away from the edge the transition rule cannot fire, and a teleport
/// on the destination is taken even while the player stands on a new-map
/// trigger. (At an edge the trigger under the player wins: see
/// `lemma_transition_lands_opposite_edge`.)
pub proof fn lemma_teleport_precedence(
    g: GameV,
    n: usize,
    tn: usize,
    tj: usize,
    ti: usize,
    t: u128,
)
    requires
        g.wf(),
        g.pos.j > 0,
        g.tile_at(g.pos) == MapBlockTypes::NewMapTrigger(n),
        g.tile_at(Pos { i: g.pos.i, j: (g.pos.j - 1) as usize }) == MapBlockTypes::TeleportTrigger(
            tn,
            tj,
            ti,
        ),
    ensures
        spec_move_north(g, t) == (GameV { cur_map: tn, pos: (Pos { i: ti, j: tj }), ..g }),
{
}

/// The target map index, when `map_block` is a new-map trigger.
pub fn block_is_new_map(map_block: &MapBlockTypes) -> (r: Option<usize>)
    ensures
        r == (match *map_block {
            MapBlockTypes::NewMapTrigger(n) => Some(n),
            _ => None::<usize>,
        }),
{
    if let MapBlockTypes::NewMapTrigger(new_map_id) = *map_block {
        Some(new_map_id)
    } else {
        None
    }
}

/// The `(map, row, column)` payload, when `map_block` is a teleport trigger.
pub fn block_is_teleport_trigger(map_block: &MapBlockTypes) -> (r: Option<(usize, usize, usize)>)
    ensures
        r == (match *map_block {
            MapBlockTypes::TeleportTrigger(n, j, i) => Some((n, j, i)),
            _ => None::<(usize, usize, usize)>,
        }),
{
    if let MapBlockTypes::TeleportTrigger(teleport_id, j, i) = *map_block {
        Some((teleport_id, j, i))
    } else {
        None
    }
}

} // verus!
