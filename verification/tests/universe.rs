use wasm_core::bindings::level::ShadowLevel;
use wasm_core::bindings::player::ShadowPlayer;
use wasm_core::bindings::Syncable;
use wasm_core::messages::{Action, BlockUpdate, PlayerChange, UniverseChanges, Vec3};
use wasm_core::universe::{handle, Universe, UniverseStorage};

fn pos(x: f64, y: f64, z: f64) -> Vec3 {
    Vec3 { x: x.to_bits(), y: y.to_bits(), z: z.to_bits() }
}

fn player(name: &str) -> ShadowPlayer {
    ShadowPlayer::new(name.to_string(), 0x0102_0304_0506_0708, 0x1112_1314_1516_1718, 7, pos(1.5, 64.0, -3.25))
}

#[test]
fn handles_are_distinct_and_found_again() {
    let mut u = Universe::new();
    let a = u.players.add(player("alice"));
    let b = u.players.add(player("bob"));
    assert_ne!(a, b);
    assert_eq!(handle(a), a);
    assert!(u.has_player(a) && u.has_player(b));
    assert_eq!(u.get_username(a), "alice".to_string());
    assert_eq!(u.get_username(b), "bob".to_string());
    assert_eq!(u.players.len(), 2);
}

#[test]
fn removed_player_is_gone() {
    let mut u = Universe::new();
    let a = u.players.add(player("alice"));
    u.players.remove(a);
    assert!(!u.has_player(a));
    assert_eq!(u.players.len(), 0);
    let b = u.players.add(player("bob"));
    assert_ne!(a, b);
    assert!(!u.has_player(a));
    assert_eq!(u.get_username(b), "bob".to_string());
}

#[test]
fn even_version_names_the_same_key() {
    let mut u = Universe::new();
    let a = u.players.add(player("alice"));
    let even = a & !(1u64 << 32);
    assert_eq!(handle(even), a);
    assert_eq!(u.get_username(even), "alice".to_string());
}

#[test]
fn player_getters() {
    let mut u = Universe::new();
    let a = u.players.add(player("alice"));
    assert_eq!(u.get_level(a), 7);
    assert_eq!(u.get_position(a), pos(1.5, 64.0, -3.25));
    let uuid: String = u.get_uuid(a);
    let expected: String = ((0x0102_0304_0506_0708u64 as i128) << 64 | 0x1112_1314_1516_1718u64 as i128)
        .to_le_bytes()
        .iter()
        .map(|&b| b as char)
        .collect();
    assert_eq!(uuid, expected);
    assert_eq!(uuid.chars().next(), Some('\u{18}'));
    assert_eq!(uuid.chars().nth(8), Some('\u{08}'));
}

#[test]
fn unknown_player() {
    let u = Universe::new();
    assert!(!u.has_player(42));
}

#[test]
fn nothing_changed_nothing_sent() {
    let mut u = Universe::new();
    u.players.add(player("alice"));
    u.levels.add(ShadowLevel::new());
    let changes = u.fetch_changes();
    assert!(changes.player_changes.is_empty());
    assert!(changes.level_changes.is_empty());
}

#[test]
fn queued_commands_are_sent_once_in_order() {
    let mut u = Universe::new();
    let a = u.players.add(player("alice"));
    let b = u.players.add(player("bob"));
    u.send_message(a, 0, "hello".to_string(), false);
    u.give_item(a, "diamond".to_string(), 3);
    u.custom_command(a, 5, b"payload".to_vec());
    let changes = u.fetch_changes();
    assert_eq!(changes.player_changes.len(), 1);
    let c = &changes.player_changes[0];
    assert_eq!(c.universal_id, a);
    assert_eq!(c.position, None);
    assert_eq!(c.commands.len(), 3);
    match &c.commands[0].action {
        Some(Action::SendMessage(m)) => {
            assert_eq!(m.text.as_ref().unwrap().message, "hello");
            assert_eq!(m.text.as_ref().unwrap().message_type, 0);
            assert!(!m.action_bar);
        }
        other => panic!("unexpected {:?}", other),
    }
    match &c.commands[1].action {
        Some(Action::GiveItem(g)) => {
            assert_eq!(g.item, "diamond");
            assert_eq!(g.count, 3);
        }
        other => panic!("unexpected {:?}", other),
    }
    match &c.commands[2].action {
        Some(Action::CustomCommand(cc)) => {
            assert_eq!(cc.command, 5);
            assert_eq!(cc.message, b"payload".to_vec());
        }
        other => panic!("unexpected {:?}", other),
    }
    let again = u.fetch_changes();
    assert!(again.player_changes.is_empty());
    let _ = b;
}

#[test]
fn teleport_sends_position() {
    let mut u = Universe::new();
    let a = u.players.add(player("alice"));
    u.teleport(a, pos(10.0, 70.0, 10.0));
    assert_eq!(u.get_position(a), pos(10.0, 70.0, 10.0));
    let changes = u.fetch_changes();
    assert_eq!(changes.player_changes.len(), 1);
    assert_eq!(changes.player_changes[0].position, Some(pos(10.0, 70.0, 10.0)));
    assert!(changes.player_changes[0].commands.is_empty());
}

#[test]
fn changes_come_in_slot_order() {
    let mut u = Universe::new();
    let a = u.players.add(player("alice"));
    let b = u.players.add(player("bob"));
    u.give_item(b, "stick".to_string(), 1);
    u.give_item(a, "stone".to_string(), 1);
    let changes = u.fetch_changes();
    let ids: Vec<u64> = changes.player_changes.iter().map(|c| c.universal_id).collect();
    assert_eq!(ids, vec![a, b]);
}

#[test]
fn commands_for_unknown_players_are_dropped() {
    let mut u = Universe::new();
    u.send_message(99, 0, "x".to_string(), true);
    u.teleport(99, pos(0.0, 0.0, 0.0));
    assert!(u.fetch_changes().player_changes.is_empty());
}

#[test]
fn block_updates_are_sent() {
    let mut u = Universe::new();
    let l = u.levels.add(ShadowLevel::new());
    u.set_block(l, 123, 5);
    u.set_block(l, 456, -1);
    u.set_block(l, 789, 0);
    let changes = u.fetch_changes();
    assert_eq!(changes.level_changes.len(), 1);
    assert_eq!(changes.level_changes[0].universal_id, l);
    assert_eq!(
        changes.level_changes[0].block_updates,
        vec![BlockUpdate { position: 123, block: 5 }, BlockUpdate { position: 789, block: 0 }]
    );
    assert!(u.fetch_changes().level_changes.is_empty());
}

#[test]
fn negative_block_is_ignored() {
    let mut u = Universe::new();
    let l = u.levels.add(ShadowLevel::new());
    u.set_block(l, 1, -5);
    assert!(u.fetch_changes().level_changes.is_empty());
}

#[test]
fn server_position_is_applied_and_not_sent_back() {
    let mut u = Universe::new();
    let a = u.players.add(player("alice"));
    let changes = UniverseChanges {
        player_changes: vec![
            PlayerChange { universal_id: a, position: Some(pos(5.0, 6.0, 7.0)), commands: Vec::new() },
            PlayerChange { universal_id: 12345, position: Some(pos(0.0, 0.0, 0.0)), commands: Vec::new() },
        ],
        level_changes: Vec::new(),
    };
    u.push_changes(changes);
    assert_eq!(u.get_position(a), pos(5.0, 6.0, 7.0));
    assert!(u.fetch_changes().player_changes.is_empty());
}

#[test]
fn later_server_change_wins() {
    let mut u = Universe::new();
    let a = u.players.add(player("alice"));
    u.push_changes(UniverseChanges {
        player_changes: vec![
            PlayerChange { universal_id: a, position: Some(pos(1.0, 1.0, 1.0)), commands: Vec::new() },
            PlayerChange { universal_id: a, position: None, commands: Vec::new() },
            PlayerChange { universal_id: a, position: Some(pos(2.0, 2.0, 2.0)), commands: Vec::new() },
        ],
        level_changes: Vec::new(),
    });
    assert_eq!(u.get_position(a), pos(2.0, 2.0, 2.0));
}

#[test]
fn storage_with_and_with_mut() {
    let mut s: UniverseStorage<ShadowLevel> = UniverseStorage::new();
    let l = s.add(ShadowLevel::new());
    assert_eq!(s.with(l, |lv: &ShadowLevel| lv.dirty), Some(0));
    assert_eq!(s.with_mut(l, |lv: &mut ShadowLevel| { lv.set_block(9, 9); lv.block_update_queue.len() }), Some(1));
    assert_eq!(s.with(l, |lv: &ShadowLevel| lv.dirty), Some(1));
    assert_eq!(s.with(l + 1, |lv: &ShadowLevel| lv.dirty), None);
    assert_eq!(s.with_mut(l + 1, |lv: &mut ShadowLevel| lv.dirty), None);
    let changes = s.flush_all();
    assert_eq!(changes.len(), 1);
    assert_eq!(changes[0].block_updates, vec![BlockUpdate { position: 9, block: 9 }]);
}

#[test]
fn player_encode_and_decode() {
    let mut p = player("carol");
    assert!(p.encode_changes(1).is_none());
    p.teleport(pos(3.0, 3.0, 3.0));
    p.send_message(1, "hi".to_string(), true);
    let c = p.encode_changes(1).unwrap();
    assert_eq!(c.universal_id, 1);
    assert_eq!(c.position, Some(pos(3.0, 3.0, 3.0)));
    assert_eq!(c.commands.len(), 1);
    assert_eq!(p.dirty, 0);
    assert!(p.command_queue.is_empty());
    p.decode_changes(PlayerChange { universal_id: 1, position: Some(pos(4.0, 4.0, 4.0)), commands: Vec::new() });
    assert_eq!(p.position(), pos(4.0, 4.0, 4.0));
    assert_eq!(p.dirty, 0);
    assert_eq!(p.username(), "carol");
    assert_eq!(p.level(), 7);
}

#[test]
fn level_encode() {
    let mut l = ShadowLevel::new();
    assert!(l.encode_changes(3).is_none());
    l.set_block(1, 2);
    let c = l.encode_changes(3).unwrap();
    assert_eq!(c.universal_id, 3);
    assert_eq!(c.block_updates, vec![BlockUpdate { position: 1, block: 2 }]);
    assert_eq!(l.dirty, 0);
    assert!(l.block_update_queue.is_empty());
}
