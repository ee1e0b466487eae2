//! The messages that the host and the server exchange, as plain values.
//! Their wire encoding is done around the library.
use vstd::prelude::*;

verus! {

/// One property of a block state as the server lists it, e.g. `facing=north`.
#[derive(Debug, Clone)]
pub struct SyncProperty {
    pub name: String,
    pub value: String,
}

/// A block state as the server lists it.
#[derive(Debug, Clone)]
pub struct SyncBlockState {
    pub id: i32,
    pub name: String,
    pub properties: Vec<SyncProperty>,
    pub is_default: bool,
}

/// All block states of the server.
#[derive(Debug, Clone)]
pub struct SyncBlockStates {
    pub states: Vec<SyncBlockState>,
}

/// A position in the world; each coordinate is the bit pattern of an IEEE 754
/// double.
#[derive(Debug, Clone, Copy, PartialEq, Eq)]
pub struct Vec3 {
    pub x: u64,
    pub y: u64,
    pub z: u64,
}

/// A text to show to a player, with the format it is written in.
#[derive(Debug, Clone)]
pub struct TextComponent {
    pub message_type: u32,
    pub message: String,
}

/// Show a text in a player's chat or action bar.
#[derive(Debug, Clone)]
pub struct SendMessageCommand {
    pub text: Option<TextComponent>,
    pub action_bar: bool,
}

/// Give a player a stack of an item.
#[derive(Debug, Clone)]
pub struct GiveItemCommand {
    pub item: String,
    pub count: i32,
}

/// A command that the server defines, with its payload.
#[derive(Debug, Clone)]
pub struct CustomCommand {
    pub command: i32,
    pub message: Vec<u8>,
}

/// What a player command asks for.
#[derive(Debug, Clone)]
pub enum Action {
    SendMessage(SendMessageCommand),
    GiveItem(GiveItemCommand),
    CustomCommand(CustomCommand),
}

/// A command addressed to a player.
#[derive(Debug, Clone)]
pub struct PlayerCommand {
    pub action: Option<Action>,
}

/// What changed about a player since the last exchange.
#[derive(Debug, Clone)]
pub struct PlayerChange {
    pub universal_id: u64,
    pub position: Option<Vec3>,
    pub commands: Vec<PlayerCommand>,
}

/// A block set at a packed position.
#[derive(Debug, Clone, Copy, PartialEq, Eq)]
pub struct BlockUpdate {
    pub position: u64,
    pub block: i32,
}

/// What changed in a level since the last exchange.
#[derive(Debug, Clone)]
pub struct LevelChange {
    pub universal_id: u64,
    pub block_updates: Vec<BlockUpdate>,
}

/// All changes of one exchange.
#[derive(Debug, Clone)]
pub struct UniverseChanges {
    pub player_changes: Vec<PlayerChange>,
    pub level_changes: Vec<LevelChange>,
}

} // verus!
