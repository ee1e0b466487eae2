//! The shadow copy of a player: who it is, where it stands, and the
//! commands that plugins address to it.
use vstd::prelude::*;
use crate::bindings::Syncable;
use crate::messages::{
    Action, CustomCommand, GiveItemCommand, PlayerChange, PlayerCommand, SendMessageCommand,
    TextComponent, Vec3,
};

verus! {

/// The flag of a changed position.
pub const POSITION_DIRTY: u64 = 1u64;

/// The flag of queued commands.
pub const COMMAND_QUEUE_DIRTY: u64 = 2u64;

/// A player as plugins see it.
#[derive(Debug)]
pub struct ShadowPlayer {
    level_handle: u64,
    username: String,
    uuid: i128,
    position: Vec3,
    pub command_queue: Vec<PlayerCommand>,
    pub dirty: u64,
}

/// A player's data as plain values.
pub struct PlayerView {
    pub level_handle: u64,
    pub username: Seq<char>,
    pub uuid: i128,
    pub position: Vec3,
    pub commands: Seq<PlayerCommand>,
    pub dirty: u64,
}

/// What changed about a player, as plain values.
pub struct PlayerChangeView {
    pub universal_id: u64,
    pub position: Option<Vec3>,
    pub commands: Seq<PlayerCommand>,
}

impl View for ShadowPlayer {
    type V = PlayerView;

    closed spec fn view(&self) -> PlayerView {
        PlayerView {
            level_handle: self.level_handle,
            username: self.username@,
            uuid: self.uuid,
            position: self.position,
            commands: self.command_queue@,
            dirty: self.dirty,
        }
    }
}

impl View for PlayerChange {
    type V = PlayerChangeView;

    open spec fn view(&self) -> PlayerChangeView {
        PlayerChangeView {
            universal_id: self.universal_id,
            position: self.position,
            commands: self.commands@,
        }
    }
}

/// The 128-bit id made of its most and least significant halves.
pub open spec fn uuid_of(uuid_m: u64, uuid_l: u64) -> i128 {
    ((uuid_m as i128) << 64u32) | (uuid_l as i128)
}

/// Byte `i` of a 128-bit id, least significant first.
pub open spec fn uuid_byte(uuid: i128, i: int) -> u8 {
    ((uuid >> (8 * i) as u32) & 0xffi128) as u8
}

/// The id as text: each of its 16 bytes, least significant first, as the
/// character with that code.
pub open spec fn uuid_text(uuid: i128) -> Seq<char> {
    Seq::new(16, |i: int| uuid_byte(uuid, i) as char)
}

/// The player after a command is queued.
pub open spec fn with_command(v: PlayerView, c: PlayerCommand) -> PlayerView {
    PlayerView { commands: v.commands.push(c), dirty: v.dirty | COMMAND_QUEUE_DIRTY, ..v }
}

/// Appends a character to a string (`String::push`).
#[verifier::external_body]
fn push_char(s: &mut String, c: char)
    ensures
        final(s)@ == old(s)@.push(c),
{
    s.push(c);
}

impl ShadowPlayer {
    /// A player with no pending changes.
    pub fn new(
        username: String,
        uuid_m: u64,
        uuid_l: u64,
        level_handle: u64,
        position: Vec3,
    ) -> (p: Self)
        ensures
            p@ == (PlayerView {
                level_handle,
                username: username@,
                uuid: uuid_of(uuid_m, uuid_l),
                position,
                commands: Seq::empty(),
                dirty: 0,
            }),
    {
        ShadowPlayer {
            username,
            level_handle,
            uuid: ((uuid_m as i128) << 64u32) | (uuid_l as i128),
            position,
            command_queue: Vec::new(),
            dirty: 0,
        }
    }

    /// The player's name.
    pub fn username(&self) -> (s: String)
        ensures
            s@ == self@.username,
    {
        self.username.clone()
    }

    /// The player's id as text; see `uuid_text`.
    pub fn uuid_string(&self) -> (s: String)
        ensures
            s@ == uuid_text(self@.uuid),
    {
        let mut s = String::new();
        let mut i: u32 = 0;
        while i < 16
            invariant
                i <= 16,
                s@.len() == i,
                forall|j: int| 0 <= j < i ==> s@[j] == uuid_byte(self.uuid, j) as char,
            decreases 16 - i,
        {
            let b: u8 = ((self.uuid >> (8 * i)) & 0xffi128) as u8;
            push_char(&mut s, b as char);
            i = i + 1;
        }
        assert(s@ =~= uuid_text(self.uuid));
        s
    }

    /// The handle of the level the player is in.
    pub fn level(&self) -> (l: u64)
        ensures
            l == self@.level_handle,
    {
        self.level_handle
    }

    /// The player's position.
    pub fn position(&self) -> (p: Vec3)
        ensures
            p == self@.position,
    {
        self.position
    }

    /// Queues a text to show to the player.
    pub fn send_message(&mut self, message_type: u32, message: String, action_bar: bool)
        ensures
            final(self)@ == with_command(
                old(self)@,
                PlayerCommand {
                    action: Some(
                        Action::SendMessage(
                            SendMessageCommand {
                                text: Some(TextComponent { message_type, message }),
                                action_bar,
                            },
                        ),
                    ),
                },
            ),
    {
        let text = TextComponent { message_type, message };
        self.command_queue.push(
            PlayerCommand {
                action: Some(Action::SendMessage(SendMessageCommand { text: Some(text), action_bar })),
            },
        );
        self.dirty = self.dirty | COMMAND_QUEUE_DIRTY;
    }

    /// Moves the player.
    pub fn teleport(&mut self, position: Vec3)
        ensures
            final(self)@ == (PlayerView {
                position,
                dirty: old(self)@.dirty | POSITION_DIRTY,
                ..old(self)@
            }),
    {
        self.position = position;
        self.dirty = self.dirty | POSITION_DIRTY;
    }

    /// Queues giving the player a stack of an item.
    pub fn give_item(&mut self, item: String, count: i32)
        ensures
            final(self)@ == with_command(
                old(self)@,
                PlayerCommand { action: Some(Action::GiveItem(GiveItemCommand { item, count })) },
            ),
    {
        self.command_queue.push(
            PlayerCommand { action: Some(Action::GiveItem(GiveItemCommand { item, count })) },
        );
        self.dirty = self.dirty | COMMAND_QUEUE_DIRTY;
    }

    /// Queues a command that the server defines.
    pub fn custom_command(&mut self, command: i32, message: Vec<u8>)
        ensures
            final(self)@ == with_command(
                old(self)@,
                PlayerCommand {
                    action: Some(Action::CustomCommand(CustomCommand { command, message })),
                },
            ),
    {
        self.command_queue.push(
            PlayerCommand { action: Some(Action::CustomCommand(CustomCommand { command, message })) },
        );
        self.dirty = self.dirty | COMMAND_QUEUE_DIRTY;
    }
}

impl Syncable for ShadowPlayer {
    type Change = PlayerChange;

    open spec fn encode_spec(v: PlayerView, universal_id: u64) -> (PlayerView, Option<PlayerChangeView>) {
        if v.dirty != 0 {
            (
                PlayerView { commands: Seq::empty(), dirty: 0, ..v },
                Some(
                    PlayerChangeView {
                        universal_id,
                        position: if v.dirty & POSITION_DIRTY != 0 {
                            Some(v.position)
                        } else {
                            None
                        },
                        commands: v.commands,
                    },
                ),
            )
        } else {
            (v, None)
        }
    }

    open spec fn decodable(v: PlayerView) -> bool {
        true
    }

    open spec fn decode_spec(v: PlayerView, change: PlayerChange) -> PlayerView {
        match change.position {
            Some(p) => PlayerView { position: p, ..v },
            None => v,
        }
    }

    fn encode_changes(&mut self, universal_id: u64) -> (r: Option<PlayerChange>) {
        if self.dirty != 0 {
            let position = if self.dirty & POSITION_DIRTY != 0 {
                Some(self.position)
            } else {
                None
            };
            self.dirty = 0;
            let mut commands: Vec<PlayerCommand> = Vec::new();
            std::mem::swap(&mut commands, &mut self.command_queue);
            Some(PlayerChange { universal_id, position, commands })
        } else {
            None
        }
    }

    fn decode_changes(&mut self, change: PlayerChange) {
        if let Some(position) = change.position {
            self.position = position;
        }
    }
}


/// A queued command is sent at the next exchange, after the commands queued
/// before it.
pub proof fn lemma_queued_command_sent(v: PlayerView, c: PlayerCommand, universal_id: u64)
    ensures
        ShadowPlayer::encode_spec(with_command(v, c), universal_id).1 == Some(
            PlayerChangeView {
                universal_id,
                position: if v.dirty & POSITION_DIRTY != 0 {
                    Some(v.position)
                } else {
                    None
                },
                commands: v.commands.push(c),
            },
        ),
{
    let d = v.dirty;
    assert((d | 2u64) != 0u64 && ((d | 2u64) & 1u64 != 0u64) == (d & 1u64 != 0u64)) by (bit_vector);
}

/// A move is sent at the next exchange.
pub proof fn lemma_teleport_sent(v: PlayerView, position: Vec3, universal_id: u64)
    ensures
        ShadowPlayer::encode_spec(
            PlayerView { position, dirty: v.dirty | POSITION_DIRTY, ..v },
            universal_id,
        ).1 == Some(PlayerChangeView { universal_id, position: Some(position), commands: v.commands }),
{
    let d = v.dirty;
    assert((d | 1u64) != 0u64 && (d | 1u64) & 1u64 != 0u64) by (bit_vector);
}

/// Nothing is sent twice: right after the changes are taken there is none.
pub proof fn lemma_player_changes_taken_once(v: PlayerView, universal_id: u64, next_id: u64)
    ensures
        ShadowPlayer::encode_spec(ShadowPlayer::encode_spec(v, universal_id).0, next_id).1 is None,
{
}

/// A change from the server marks nothing to send: what is sent next is
/// what was pending before it, with the position the server set.
pub proof fn lemma_server_change_not_sent_back(v: PlayerView, change: PlayerChange)
    ensures
        ShadowPlayer::decode_spec(v, change).dirty == v.dirty,
        ShadowPlayer::decode_spec(v, change).commands == v.commands,
{
}

/// A change from the server moves the player to the position it carries, and
/// a change without a position leaves the player as it is; nothing else about
/// the player changes.
pub proof fn lemma_server_change_sets_position(v: PlayerView, change: PlayerChange)
    ensures
        change.position is None ==> ShadowPlayer::decode_spec(v, change) == v,
        change.position is Some ==> ShadowPlayer::decode_spec(v, change).position
            == change.position.unwrap(),
        ShadowPlayer::decode_spec(v, change).username == v.username,
        ShadowPlayer::decode_spec(v, change).uuid == v.uuid,
        ShadowPlayer::decode_spec(v, change).level_handle == v.level_handle,
        ShadowPlayer::decode_spec(v, change).commands == v.commands,
        ShadowPlayer::decode_spec(v, change).dirty == v.dirty,
{
}

/// The text of an id has 16 characters: the bytes of its least significant
/// half, then those of its most significant half, each least significant
/// first, every byte as the character with that code (bytes from 0x80 on
/// included).
pub proof fn lemma_uuid_text_bytes(uuid_m: u64, uuid_l: u64, i: int)
    requires
        0 <= i < 16,
    ensures
        uuid_text(uuid_of(uuid_m, uuid_l)).len() == 16,
        uuid_byte(uuid_of(uuid_m, uuid_l), i) == if i < 8 {
            ((uuid_l >> (8 * i) as u64) & 0xffu64) as u8
        } else {
            ((uuid_m >> (8 * (i - 8)) as u64) & 0xffu64) as u8
        },
        uuid_text(uuid_of(uuid_m, uuid_l))[i] == if i < 8 {
            (((uuid_l >> (8 * i) as u64) & 0xffu64) as u8) as char
        } else {
            (((uuid_m >> (8 * (i - 8)) as u64) & 0xffu64) as u8) as char
        },
{
    let s: u32 = (8 * i) as u32;
    let u: i128 = uuid_of(uuid_m, uuid_l);
    if i < 8 {
        let sl: u64 = (8 * i) as u64;
        assert(((u >> s) & 0xffi128) as u8 == ((uuid_l >> sl) & 0xffu64) as u8) by (bit_vector)
            requires
                u == ((uuid_m as i128) << 64u32) | (uuid_l as i128),
                s <= 56u32,
                sl == s as u64;
    } else {
        let sm: u64 = (8 * (i - 8)) as u64;
        assert(((u >> s) & 0xffi128) as u8 == ((uuid_m >> sm) & 0xffu64) as u8) by (bit_vector)
            requires
                u == ((uuid_m as i128) << 64u32) | (uuid_l as i128),
                64u32 <= s <= 120u32,
                sm == (s - 64u32) as u64;
    }
}

} // verus!
