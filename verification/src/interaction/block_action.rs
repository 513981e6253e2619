use vstd::prelude::*;

verus! {

/// How far (in tiles, on each axis) the player can reach to mine or place.
pub const BLOCK_REACH: i64 = 5;

/// Horizontal tile distance on a world that wraps every `width` tiles: the
/// shorter way round.
pub open spec fn wrapped_dx(tile_x: int, player_x: int, width: int) -> int {
    let raw = if tile_x >= player_x { tile_x - player_x } else { player_x - tile_x };
    if raw <= width - raw { raw } else { width - raw }
}

/// The tile at `(tile_x, tile_y)` is within reach of a player standing on
/// `(player_x, player_y)`: at most `BLOCK_REACH` tiles away on each axis, the
/// horizontal distance measured the shorter way round the wrapping world.
pub open spec fn reachable(tile_x: int, tile_y: int, player_x: int, player_y: int, width: int) -> bool {
    let dy = if tile_y >= player_y { tile_y - player_y } else { player_y - tile_y };
    wrapped_dx(tile_x, player_x, width) <= BLOCK_REACH && dy <= BLOCK_REACH
}

/// Whether the player can reach the tile (see `reachable`).
pub fn within_reach(tile_x: i32, tile_y: i32, player_x: i32, player_y: i32, width_tiles: i32) -> (r: bool)
    ensures
        r == reachable(tile_x as int, tile_y as int, player_x as int, player_y as int, width_tiles as int),
        tile_y as int - player_y as int > BLOCK_REACH || player_y as int - tile_y as int > BLOCK_REACH ==> !r,
{
    let tx = tile_x as i64;
    let px = player_x as i64;
    let raw: i64 = if tx >= px { tx - px } else { px - tx };
    let other: i64 = width_tiles as i64 - raw;
    let dx: i64 = if raw <= other { raw } else { other };
    let ty = tile_y as i64;
    let py = player_y as i64;
    let dy: i64 = if ty >= py { ty - py } else { py - ty };
    dx <= BLOCK_REACH && dy <= BLOCK_REACH
}

/// Reach does not change when the tile is taken one world width round (for
/// tiles up to one width east of the player).
pub proof fn lemma_reach_wraps(tile_x: int, tile_y: int, player_x: int, player_y: int, width: int)
    requires
        width > 0,
        player_x <= tile_x <= player_x + width,
    ensures
        reachable(tile_x, tile_y, player_x, player_y, width)
            == reachable(tile_x - width, tile_y, player_x, player_y, width),
{
}

/// What the cursor tile and the player's hands allow, as read from the world
/// for one click.
#[derive(Clone, Copy, Debug)]
pub struct BlockClick {
    /// The chat box has focus.
    pub chat_active: bool,
    /// The left button is held (mine / place with the left hand).
    pub left_held: bool,
    /// The right button was pressed this frame (background layer).
    pub right_click: bool,
    /// An item was used this frame (the right click went to it).
    pub item_used_this_frame: bool,
    /// The cursor tile is within reach (see `within_reach`).
    pub in_reach: bool,
    /// A placed object covers the cursor tile (and objects are registered).
    pub object_here: bool,
    /// The foreground tile at the cursor, if its chunk is loaded: whether it
    /// is solid.
    pub foreground_solid: Option<bool>,
    /// The left hand holds an item of which the inventory has at least one.
    pub left_item_in_stock: bool,
    /// The left item places an object that fits at the cursor.
    pub left_places_object: bool,
    /// The left item places a foreground tile.
    pub left_places_tile: bool,
    /// A neighbouring tile holds a solid foreground or any background tile.
    pub foreground_support: bool,
    /// The background tile at the cursor, if its chunk is loaded: whether it
    /// is not air.
    pub background_filled: Option<bool>,
    /// A neighbouring tile holds any foreground or background tile.
    pub background_support: bool,
    /// The right hand holds an item that places a tile, of which the
    /// inventory has at least one.
    pub right_places_tile: bool,
}

/// What a click does to the world.
#[derive(Clone, Copy, Debug, PartialEq, Eq, Structural)]
pub enum BlockAction {
    Nothing,
    /// Break the object under the cursor and drop its items.
    BreakObject,
    /// Add mining damage to the solid foreground tile; it breaks once the
    /// damage reaches its hardness.
    MineTile,
    /// Place the left item's object at the cursor and take one item.
    PlaceObject,
    /// Place the left item's tile in the foreground (displacing liquid) and
    /// take one item.
    PlaceTile,
    /// Break the background tile and drop its items.
    BreakBackground,
    /// Place the right item's tile in the background and take one item.
    PlaceBackground,
}

/// The block interaction rules. The left button works on the foreground:
/// an object under the cursor is broken first; a solid tile is mined;
/// otherwise the left item is placed, as an object if it places one that
/// fits, else as a tile next to a supporting neighbour. The right button works
/// on the background: a filled tile is broken, an empty one gets the right
/// item's tile next to a supporting neighbour. Nothing happens while chat
/// has focus, out of reach, or when the right click already used an item.
pub open spec fn block_action(c: BlockClick) -> BlockAction {
    if c.chat_active || (!c.left_held && !c.right_click) || (c.right_click && c.item_used_this_frame)
        || !c.in_reach {
        BlockAction::Nothing
    } else if c.left_held {
        if c.object_here {
            BlockAction::BreakObject
        } else {
            match c.foreground_solid {
                None => BlockAction::Nothing,
                Some(true) => BlockAction::MineTile,
                Some(false) => if !c.left_item_in_stock {
                    BlockAction::Nothing
                } else if c.left_places_object {
                    BlockAction::PlaceObject
                } else if c.foreground_support && c.left_places_tile {
                    BlockAction::PlaceTile
                } else {
                    BlockAction::Nothing
                },
            }
        }
    } else {
        match c.background_filled {
            None => BlockAction::Nothing,
            Some(true) => BlockAction::BreakBackground,
            Some(false) => if c.background_support && c.right_places_tile {
                BlockAction::PlaceBackground
            } else {
                BlockAction::Nothing
            },
        }
    }
}

/// Decide what a click does (see `block_action`).
pub fn decide_block_action(c: &BlockClick) -> (a: BlockAction)
    ensures
        a == block_action(*c),
{
    if c.chat_active {
        return BlockAction::Nothing;
    }
    if !c.left_held && !c.right_click {
        return BlockAction::Nothing;
    }
    if c.right_click && c.item_used_this_frame {
        return BlockAction::Nothing;
    }
    if !c.in_reach {
        return BlockAction::Nothing;
    }
    if c.left_held {
        if c.object_here {
            return BlockAction::BreakObject;
        }
        match c.foreground_solid {
            None => BlockAction::Nothing,
            Some(solid) => {
                if solid {
                    BlockAction::MineTile
                } else if !c.left_item_in_stock {
                    BlockAction::Nothing
                } else if c.left_places_object {
                    BlockAction::PlaceObject
                } else if c.foreground_support && c.left_places_tile {
                    BlockAction::PlaceTile
                } else {
                    BlockAction::Nothing
                }
            },
        }
    } else {
        match c.background_filled {
            None => BlockAction::Nothing,
            Some(filled) => {
                if filled {
                    BlockAction::BreakBackground
                } else if c.background_support && c.right_places_tile {
                    BlockAction::PlaceBackground
                } else {
                    BlockAction::Nothing
                }
            },
        }
    }
}

/// The actions after which the tile layers changed, so lighting, pressure
/// and tile bitmasks around the cursor have to be refreshed (a mined tile
/// only once it breaks).
pub fn changes_tiles(a: BlockAction, tile_broke: bool) -> (r: bool)
    ensures
        r == match a {
            BlockAction::MineTile => tile_broke,
            BlockAction::PlaceTile | BlockAction::BreakBackground | BlockAction::PlaceBackground => true,
            _ => false,
        },
{
    match a {
        BlockAction::MineTile => tile_broke,
        BlockAction::PlaceTile | BlockAction::BreakBackground | BlockAction::PlaceBackground => true,
        _ => false,
    }
}

/// Every action that takes an item from the inventory is one for which the
/// hand holds an item in stock.
pub proof fn lemma_placing_needs_stock(c: BlockClick)
    ensures
        (block_action(c) == BlockAction::PlaceObject || block_action(c) == BlockAction::PlaceTile)
            ==> c.left_item_in_stock,
        block_action(c) == BlockAction::PlaceBackground ==> c.right_places_tile,
        block_action(c) != BlockAction::Nothing ==> c.in_reach && !c.chat_active,
{
}


/// Reach is the same a distance `d` below the player as `d` above: the
/// vertical direction does not matter.
pub proof fn lemma_reach_vertical_symmetric(tile_x: int, player_x: int, player_y: int, d: int, width: int)
    ensures
        reachable(tile_x, player_y - d, player_x, player_y, width) == reachable(tile_x, player_y + d, player_x, player_y, width),
{
}

/// A tile more than `BLOCK_REACH` rows above or below the player is never
/// within reach, whatever its column and the world's width.
pub proof fn lemma_far_rows_unreachable(tile_x: int, tile_y: int, player_x: int, player_y: int, width: int)
    requires
        tile_y - player_y > BLOCK_REACH || player_y - tile_y > BLOCK_REACH,
    ensures
        !reachable(tile_x, tile_y, player_x, player_y, width),
{
}

/// A tile within `BLOCK_REACH` rows and columns of the player (measured
/// directly, on a world wider than twice the reach) is within reach.
pub proof fn lemma_near_tiles_reachable(tile_x: int, tile_y: int, player_x: int, player_y: int, width: int)
    requires
        -BLOCK_REACH <= tile_x - player_x <= BLOCK_REACH,
        -BLOCK_REACH <= tile_y - player_y <= BLOCK_REACH,
        width >= 2 * BLOCK_REACH,
    ensures
        reachable(tile_x, tile_y, player_x, player_y, width),
{
}

} // verus!
