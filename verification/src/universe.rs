//! The players and levels that plugins can reach, each under the handle
//! that the slot map of its kind gave it.
use vstd::prelude::*;
use std::collections::HashMap;
use slotmap::{DefaultKey, KeyData, SlotMap};
use crate::bindings::{option_view, Syncable};
use crate::bindings::level::ShadowLevel;
use crate::bindings::player::{uuid_text, with_command, PlayerView, ShadowPlayer};
use crate::messages::{
    Action, CustomCommand, GiveItemCommand, PlayerChange, PlayerCommand, SendMessageCommand,
    TextComponent, UniverseChanges, Vec3,
};
use crate::bindings::level::{LevelView, BLOCK_UPDATE_DIRTY};
use crate::messages::BlockUpdate;

verus! {

/// A slot map that hands out the handles of one kind of entity; the
/// entities themselves are kept beside it, by handle.
#[verifier::external_body]
pub struct SlotKeys {
    map: SlotMap<DefaultKey, ()>,
}

/// The handles of the keys that the slot map holds (each key's
/// `KeyData::as_ffi`).
pub uninterp spec fn slot_handles(m: SlotKeys) -> Set<u64>;

/// The handle that `KeyData::from_ffi(uid).as_ffi()` gives: the low 32 bits
/// are the slot index, the high 32 bits the version, made odd.
pub open spec fn handle_of(uid: u64) -> u64 {
    (((uid >> 32u64) | 1u64) << 32u64) | (uid & 0xffff_ffffu64)
}

/// The slot index of a handle.
pub open spec fn slot_index(h: u64) -> u64 {
    h & 0xffff_ffffu64
}

/// The handle of the key that `uid` names; see `handle_of`.
pub fn handle(uid: u64) -> (h: u64)
    ensures
        h == handle_of(uid),
{
    (((uid >> 32u64) | 1u64) << 32u64) | (uid & 0xffff_ffffu64)
}

/// `SlotMap::new`: a slot map that holds no key.
#[verifier::external_body]
fn slots_new() -> (m: SlotKeys)
    ensures
        slot_handles(m) == Set::<u64>::empty(),
{
    SlotKeys { map: SlotMap::new() }
}

/// `SlotMap::insert`: holds a new key, not held before, and gives its
/// handle. It panics when the map is full; the number of held keys stays
/// below 2^32 - 2 so that it does not.
#[verifier::external_body]
fn slots_insert(m: &mut SlotKeys) -> (h: u64)
    requires
        slot_handles(*old(m)).finite(),
        slot_handles(*old(m)).len() < 0xFFFF_FFFE,
    ensures
        !slot_handles(*old(m)).contains(h),
        slot_handles(*final(m)) == slot_handles(*old(m)).insert(h),
        handle_of(h) == h,
{
    slotmap::Key::data(&m.map.insert(())).as_ffi()
}

/// `SlotMap::remove` with the key `KeyData::from_ffi(uid)`: drops that key,
/// and tells whether it was held.
#[verifier::external_body]
fn slots_remove(m: &mut SlotKeys, uid: u64) -> (found: bool)
    ensures
        found == slot_handles(*old(m)).contains(handle_of(uid)),
        slot_handles(*final(m)) == slot_handles(*old(m)).remove(handle_of(uid)),
{
    m.map.remove(KeyData::from_ffi(uid).into()).is_some()
}

/// `SlotMap::keys`: the handles of the held keys, in increasing slot index.
#[verifier::external_body]
fn slots_keys(m: &SlotKeys) -> (hs: Vec<u64>)
    ensures
        hs@.to_set() == slot_handles(*m),
        forall|i: int, j: int| 0 <= i < j < hs@.len() ==> slot_index(hs@[i]) < slot_index(hs@[j]),
{
    m.map.keys().map(|k| slotmap::Key::data(&k).as_ffi()).collect()
}

/// Runs `f` on `x`.
fn call_on<T, R>(x: &mut T, f: impl FnOnce(&mut T) -> R) -> (r: R)
    requires
        forall|t: &mut T| f.requires((t,)),
    ensures
        exists|t: &mut T| *t == *old(x) && *final(t) == *final(x) && f.ensures((t,), r),
{
    f(x)
}

/// Handles in increasing slot index.
pub open spec fn in_slot_order(hs: Seq<u64>) -> bool {
    forall|i: int, j: int| 0 <= i < j < hs.len() ==> slot_index(#[trigger] hs[i]) < slot_index(#[trigger] hs[j])
}

/// The views of a list of changes.
pub open spec fn changes_view<C: View>(cs: Seq<C>) -> Seq<C::V> {
    cs.map_values(|c: C| c@)
}

/// The changes taken from the entities, visited in the given order.
pub open spec fn flushed<T: Syncable>(m: Map<u64, T::V>, order: Seq<u64>) -> Seq<<T::Change as View>::V>
    decreases order.len(),
{
    if order.len() == 0 {
        Seq::empty()
    } else {
        let rest = flushed::<T>(m, order.drop_last());
        match T::encode_spec(m[order.last()], order.last()).1 {
            Some(c) => rest.push(c),
            None => rest,
        }
    }
}

/// The entities after their changes are taken.
pub open spec fn after_flush<T: Syncable>(m: Map<u64, T::V>) -> Map<u64, T::V> {
    Map::new(|h: u64| m.contains_key(h), |h: u64| T::encode_spec(m[h], h).0)
}

/// The entities of one kind, by handle.
pub struct UniverseStorage<T: Syncable> {
    slots: SlotKeys,
    entries: HashMap<u64, T>,
}

impl<T: Syncable> UniverseStorage<T> {
    /// The entities, by handle.
    pub closed spec fn values(&self) -> Map<u64, T> {
        self.entries@
    }

    /// The entities' views, by handle.
    pub open spec fn view(&self) -> Map<u64, T::V> {
        Map::new(|h: u64| self.values().contains_key(h), |h: u64| self.values()[h]@)
    }

    /// The slot map holds exactly the handles of the entities.
    pub closed spec fn wf(&self) -> bool {
        &&& slot_handles(self.slots).finite()
        &&& slot_handles(self.slots) == self.entries@.dom()
    }

    /// A storage with no entity.
    pub fn new() -> (s: Self)
        ensures
            s.wf(),
            s.values() == Map::<u64, T>::empty(),
    {
        broadcast use vstd::std_specs::hash::group_hash_axioms;

        let s = UniverseStorage { slots: slots_new(), entries: HashMap::new() };
        assert(s.entries@.dom() =~= Set::<u64>::empty());
        s
    }

    /// The number of entities.
    pub fn len(&self) -> (n: usize)
        requires
            self.wf(),
        ensures
            n == self.values().len(),
    {
        broadcast use vstd::std_specs::hash::group_hash_axioms;

        self.entries.len()
    }

    /// Stores an entity under a new handle and gives the handle.
    pub fn add(&mut self, value: T) -> (uid: u64)
        requires
            old(self).wf(),
            old(self).values().len() < 0xFFFF_FFFE,
        ensures
            final(self).wf(),
            !old(self).values().contains_key(uid),
            handle_of(uid) == uid,
            final(self).values() == old(self).values().insert(uid, value),
    {
        broadcast use vstd::std_specs::hash::group_hash_axioms;

        let h = slots_insert(&mut self.slots);
        self.entries.insert(h, value);
        assert(slot_handles(self.slots) =~= self.entries@.dom());
        h
    }

    /// Drops the entity that `uid` names, if there is one.
    pub fn remove(&mut self, uid: u64)
        requires
            old(self).wf(),
        ensures
            final(self).wf(),
            final(self).values() == old(self).values().remove(handle_of(uid)),
    {
        broadcast use vstd::std_specs::hash::group_hash_axioms;

        slots_remove(&mut self.slots, uid);
        let h = handle(uid);
        self.entries.remove(&h);
        assert(slot_handles(self.slots) =~= self.entries@.dom());
    }

    /// Whether `uid` names an entity.
    pub fn contains(&self, uid: u64) -> (b: bool)
        ensures
            b == self.values().contains_key(handle_of(uid)),
    {
        broadcast use vstd::std_specs::hash::group_hash_axioms;

        let h = handle(uid);
        self.entries.contains_key(&h)
    }

    /// Runs `f` on the entity that `uid` names, if there is one.
    pub fn with<R>(&self, uid: u64, f: impl FnOnce(&T) -> R) -> (r: Option<R>)
        requires
            forall|t: &T| f.requires((t,)),
        ensures
            match r {
                Some(x) => self.values().contains_key(handle_of(uid)) && f.ensures(
                    (&self.values()[handle_of(uid)],),
                    x,
                ),
                None => !self.values().contains_key(handle_of(uid)),
            },
    {
        broadcast use vstd::std_specs::hash::group_hash_axioms;

        let h = handle(uid);
        match self.entries.get(&h) {
            Some(v) => Some(f(v)),
            None => None,
        }
    }

    /// Runs `f` on the entity that `uid` names, if there is one, and keeps
    /// what `f` made of it.
    pub fn with_mut<R>(&mut self, uid: u64, f: impl FnOnce(&mut T) -> R) -> (r: Option<R>)
        requires
            old(self).wf(),
            forall|t: &mut T| f.requires((t,)),
        ensures
            final(self).wf(),
            match r {
                Some(x) => old(self).values().contains_key(handle_of(uid)) && exists|t: &mut T|
                    *t == old(self).values()[handle_of(uid)] && f.ensures((t,), x) && final(self).values()
                        == old(self).values().insert(handle_of(uid), *final(t)),
                None => !old(self).values().contains_key(handle_of(uid)) && final(self).values()
                    == old(self).values(),
            },
    {
        broadcast use vstd::std_specs::hash::group_hash_axioms;

        let h = handle(uid);
        match self.entries.remove(&h) {
            Some(mut v) => {
                let r = call_on(&mut v, f);
                self.entries.insert(h, v);
                assert(slot_handles(self.slots) =~= self.entries@.dom());
                assert(self.entries@ =~= old(self).entries@.insert(h, v));
                Some(r)
            },
            None => {
                assert(self.entries@ =~= old(self).entries@);
                None
            },
        }
    }

    /// Takes the pending changes of every entity, in increasing slot index.
    pub fn flush_all(&mut self) -> (changes: Vec<T::Change>)
        requires
            old(self).wf(),
        ensures
            final(self).wf(),
            final(self)@ == after_flush::<T>(old(self)@),
            exists|order: Seq<u64>|
                in_slot_order(order) && order.to_set() == old(self)@.dom() && changes_view(changes@)
                    == flushed::<T>(old(self)@, order),
    {
        broadcast use vstd::std_specs::hash::group_hash_axioms;

        let hs = slots_keys(&self.slots);
        let ghost start = self@;
        let mut out: Vec<T::Change> = Vec::new();
        let mut i: usize = 0;
        proof {
            assert forall|a: int, b: int| 0 <= a < b < hs@.len() implies hs@[a] != hs@[b] by {
                assert(slot_index(hs@[a]) < slot_index(hs@[b]));
            }
        }
        while i < hs.len()
            invariant
                self.wf(),
                i <= hs.len(),
                hs@.to_set() == start.dom(),
                in_slot_order(hs@),
                self@.dom() == start.dom(),
                forall|h: u64|
                    #[trigger] self@.contains_key(h) ==> self@[h] == if hs@.take(i as int).contains(h) {
                        T::encode_spec(start[h], h).0
                    } else {
                        start[h]
                    },
                changes_view(out@) == flushed::<T>(start, hs@.take(i as int)),
            decreases hs.len() - i,
        {
            let h = hs[i];
            assert(hs@.to_set().contains(hs@[i as int]));
            assert(!hs@.take(i as int).contains(h)) by {
                if hs@.take(i as int).contains(h) {
                    let k = choose|k: int| 0 <= k < i && hs@.take(i as int)[k] == h;
                    assert(slot_index(hs@[k]) < slot_index(hs@[i as int]));
                }
            }
            let ghost before = self@;
            let mut v = self.entries.remove(&h).unwrap();
            let c = v.encode_changes(h);
            self.entries.insert(h, v);
            assert(slot_handles(self.slots) =~= self.entries@.dom());
            let ghost t2 = hs@.take(i + 1);
            assert(t2.drop_last() =~= hs@.take(i as int));
            assert(t2.last() == h);
            match c {
                Some(x) => {
                    out.push(x);
                    assert(changes_view(out@) =~= flushed::<T>(start, hs@.take(i as int)).push(x@));
                },
                None => {},
            }
            assert forall|g: u64| #[trigger] self@.contains_key(g) implies self@[g] == if t2.contains(g) {
                T::encode_spec(start[g], g).0
            } else {
                start[g]
            } by {
                if g == h {
                    assert(t2[i as int] == h);
                } else {
                    assert(before.contains_key(g));
                    if t2.contains(g) {
                        let k = choose|k: int| 0 <= k < i + 1 && t2[k] == g;
                        assert(hs@.take(i as int)[k] == g);
                    }
                    if hs@.take(i as int).contains(g) {
                        let k = choose|k: int| 0 <= k < i && hs@.take(i as int)[k] == g;
                        assert(t2[k] == g);
                    }
                }
            }
            i = i + 1;
        }
        assert(hs@.take(hs.len() as int) =~= hs@);
        assert forall|h: u64| #[trigger] self@.contains_key(h) implies hs@.contains(h) by {
            assert(hs@.to_set().contains(h));
        }
        assert(self@ =~= after_flush::<T>(start));
        out
    }
}

/// The players after the server's changes are applied, in order; a change
/// for a handle that names no player is skipped.
pub open spec fn apply_player_changes(
    m: Map<u64, <ShadowPlayer as View>::V>,
    cs: Seq<PlayerChange>,
) -> Map<u64, <ShadowPlayer as View>::V>
    decreases cs.len(),
{
    if cs.len() == 0 {
        m
    } else {
        let prev = apply_player_changes(m, cs.drop_last());
        let h = handle_of(cs.last().universal_id);
        if prev.contains_key(h) {
            prev.insert(h, ShadowPlayer::decode_spec(prev[h], cs.last()))
        } else {
            prev
        }
    }
}

/// Applying the server's changes keeps the set of players.
pub proof fn lemma_player_changes_keep_players(m: Map<u64, PlayerView>, cs: Seq<PlayerChange>)
    ensures
        apply_player_changes(m, cs).dom() == m.dom(),
    decreases cs.len(),
{
    if cs.len() > 0 {
        lemma_player_changes_keep_players(m, cs.drop_last());
        let prev = apply_player_changes(m, cs.drop_last());
        let h = handle_of(cs.last().universal_id);
        if prev.contains_key(h) {
            assert(prev.insert(h, ShadowPlayer::decode_spec(prev[h], cs.last())).dom() =~= prev.dom());
        }
    }
}

/// A change for a handle that names no player is skipped: wherever it stands
/// among the changes, the players come out as without it.
pub proof fn lemma_unknown_player_change_skipped(
    m: Map<u64, PlayerView>,
    before: Seq<PlayerChange>,
    c: PlayerChange,
    after: Seq<PlayerChange>,
)
    requires
        !m.contains_key(handle_of(c.universal_id)),
    ensures
        apply_player_changes(m, before.push(c) + after) == apply_player_changes(m, before + after),
    decreases after.len(),
{
    if after.len() == 0 {
        assert(before.push(c) + after =~= before.push(c));
        assert(before + after =~= before);
        assert(before.push(c).drop_last() =~= before);
        lemma_player_changes_keep_players(m, before);
    } else {
        let a = after.drop_last();
        lemma_unknown_player_change_skipped(m, before, c, a);
        assert((before.push(c) + after).drop_last() =~= before.push(c) + a);
        assert((before + after).drop_last() =~= before + a);
        assert((before.push(c) + after).last() == after.last());
        assert((before + after).last() == after.last());
    }
}

/// A change for a player moves that player as `decode_spec` says and leaves
/// every other player as it was.
pub proof fn lemma_player_change_reaches_its_player(m: Map<u64, PlayerView>, cs: Seq<PlayerChange>, c: PlayerChange)
    ensures
        apply_player_changes(m, cs.push(c)).dom() == apply_player_changes(m, cs).dom(),
        apply_player_changes(m, cs).contains_key(handle_of(c.universal_id)) ==> apply_player_changes(
            m,
            cs.push(c),
        )[handle_of(c.universal_id)] == ShadowPlayer::decode_spec(
            apply_player_changes(m, cs)[handle_of(c.universal_id)],
            c,
        ),
        forall|h: u64| h != handle_of(c.universal_id) && #[trigger] apply_player_changes(m, cs).contains_key(h)
            ==> apply_player_changes(m, cs.push(c))[h] == apply_player_changes(m, cs)[h],
{
    assert(cs.push(c).drop_last() =~= cs);
    lemma_player_changes_keep_players(m, cs);
    lemma_player_changes_keep_players(m, cs.push(c));
}

/// Everything plugins can reach: the players and the levels.
pub struct Universe {
    pub players: UniverseStorage<ShadowPlayer>,
    pub levels: UniverseStorage<ShadowLevel>,
}

impl Universe {
    /// Both storages are well formed.
    pub open spec fn wf(&self) -> bool {
        self.players.wf() && self.levels.wf()
    }

    /// A universe with no player and no level.
    pub fn new() -> (u: Self)
        ensures
            u.wf(),
            u.players.values() == Map::<u64, ShadowPlayer>::empty(),
            u.levels.values() == Map::<u64, ShadowLevel>::empty(),
    {
        Universe { players: UniverseStorage::new(), levels: UniverseStorage::new() }
    }

    /// Takes the pending changes of every player and every level.
    pub fn fetch_changes(&mut self) -> (changes: UniverseChanges)
        requires
            old(self).wf(),
        ensures
            final(self).wf(),
            final(self).players@ == after_flush::<ShadowPlayer>(old(self).players@),
            final(self).levels@ == after_flush::<ShadowLevel>(old(self).levels@),
            exists|order: Seq<u64>|
                in_slot_order(order) && order.to_set() == old(self).players@.dom() && changes_view(
                    changes.player_changes@,
                ) == flushed::<ShadowPlayer>(old(self).players@, order),
            exists|order: Seq<u64>|
                in_slot_order(order) && order.to_set() == old(self).levels@.dom() && changes_view(
                    changes.level_changes@,
                ) == flushed::<ShadowLevel>(old(self).levels@, order),
    {
        let player_changes = self.players.flush_all();
        let level_changes = self.levels.flush_all();
        UniverseChanges { player_changes, level_changes }
    }

    /// Applies one change of the server to the player it names, if there is
    /// one.
    fn apply_player_change(&mut self, c: PlayerChange)
        requires
            old(self).wf(),
        ensures
            final(self).wf(),
            final(self).levels.values() == old(self).levels.values(),
            final(self).players@ == (if old(self).players@.contains_key(handle_of(c.universal_id)) {
                old(self).players@.insert(
                    handle_of(c.universal_id),
                    ShadowPlayer::decode_spec(old(self).players@[handle_of(c.universal_id)], c),
                )
            } else {
                old(self).players@
            }),
    {
        let ghost cc = c;
        let ghost h = handle_of(c.universal_id);
        let uid = c.universal_id;
        let apply = |p: &mut ShadowPlayer|
            ensures
                final(p)@ == ShadowPlayer::decode_spec(old(p)@, cc),
            { p.decode_changes(c) };
        let r = self.players.with_mut(uid, apply);
        match r {
            Some(_) => {
                assert(self.players@ =~= old(self).players@.insert(h, ShadowPlayer::decode_spec(old(self).players@[h], cc)));
            },
            None => {
                assert(self.players@ =~= old(self).players@);
            },
        }
    }

    /// Applies the server's player changes, in order.
    pub fn push_changes(&mut self, changes: UniverseChanges)
        requires
            old(self).wf(),
        ensures
            final(self).wf(),
            final(self).players@ == apply_player_changes(old(self).players@, changes.player_changes@),
            final(self).levels.values() == old(self).levels.values(),
    {
        let mut src = changes.player_changes;
        let ghost all = src@;
        let mut rest: Vec<PlayerChange> = Vec::new();
        while src.len() > 0
            invariant
                src@ == all.take(src@.len() as int),
                src@.len() + rest@.len() == all.len(),
                forall|j: int| 0 <= j < rest@.len() ==> rest@[j] == all[all.len() - 1 - j],
            decreases src.len(),
        {
            let ghost n = src@.len();
            let c = src.pop().unwrap();
            assert(c == all[n - 1]);
            assert(src@ =~= all.take(n - 1));
            rest.push(c);
        }
        let ghost start = self.players@;
        let n = rest.len();
        assert(all.len() == n);
        let mut done: usize = 0;
        assert(all.take(0) =~= Seq::<PlayerChange>::empty());
        while rest.len() > 0
            invariant
                self.wf(),
                self.levels.values() == old(self).levels.values(),
                done <= all.len(),
                all.len() <= usize::MAX,
                rest@.len() == all.len() - done,
                forall|j: int| 0 <= j < rest@.len() ==> rest@[j] == all[all.len() - 1 - j],
                self.players@ == apply_player_changes(start, all.take(done as int)),
            decreases rest.len(),
        {
            let c = rest.pop().unwrap();
            assert(c == all[done as int]);
            let ghost cc = c;
            self.apply_player_change(c);
            let ghost t2 = all.take(done + 1);
            assert(t2.drop_last() =~= all.take(done as int));
            assert(t2.last() == cc);
            done = done + 1;
        }
        assert(all.take(all.len() as int) =~= all);
    }
}


/// The players after the one `uid` names, if there is one, is changed to
/// `p(old view)`.
pub open spec fn update_player(
    m: Map<u64, PlayerView>,
    uid: u64,
    new_view: PlayerView,
) -> Map<u64, PlayerView> {
    if m.contains_key(handle_of(uid)) {
        m.insert(handle_of(uid), new_view)
    } else {
        m
    }
}

impl Universe {
    /// Whether `player` names a player.
    pub fn has_player(&self, player: u64) -> (b: bool)
        ensures
            b == self.players@.contains_key(handle_of(player)),
    {
        self.players.contains(player)
    }

    /// The name of the player `player` names, which must exist.
    pub fn get_username(&self, player: u64) -> (s: String)
        requires
            self.players@.contains_key(handle_of(player)),
        ensures
            s@ == self.players@[handle_of(player)].username,
    {
        let read = |p: &ShadowPlayer| -> (s: String)
            ensures
                s@ == p@.username,
            { p.username() };
        match self.players.with(player, read) {
            Some(x) => x,
            None => vstd::pervasive::unreached(),
        }
    }

    /// The id, as text, of the player `player` names, which must exist; see
    /// `uuid_text`.
    pub fn get_uuid(&self, player: u64) -> (s: String)
        requires
            self.players@.contains_key(handle_of(player)),
        ensures
            s@ == uuid_text(self.players@[handle_of(player)].uuid),
    {
        let read = |p: &ShadowPlayer| -> (s: String)
            ensures
                s@ == uuid_text(p@.uuid),
            { p.uuid_string() };
        match self.players.with(player, read) {
            Some(x) => x,
            None => vstd::pervasive::unreached(),
        }
    }

    /// The level of the player `player` names, which must exist.
    pub fn get_level(&self, player: u64) -> (l: u64)
        requires
            self.players@.contains_key(handle_of(player)),
        ensures
            l == self.players@[handle_of(player)].level_handle,
    {
        let read = |p: &ShadowPlayer| -> (l: u64)
            ensures
                l == p@.level_handle,
            { p.level() };
        match self.players.with(player, read) {
            Some(x) => x,
            None => vstd::pervasive::unreached(),
        }
    }

    /// The position of the player `player` names, which must exist.
    pub fn get_position(&self, player: u64) -> (v: Vec3)
        requires
            self.players@.contains_key(handle_of(player)),
        ensures
            v == self.players@[handle_of(player)].position,
    {
        let read = |p: &ShadowPlayer| -> (v: Vec3)
            ensures
                v == p@.position,
            { p.position() };
        match self.players.with(player, read) {
            Some(x) => x,
            None => vstd::pervasive::unreached(),
        }
    }

    /// Queues a text for the player `player` names, if there is one.
    pub fn send_message(
        &mut self,
        player: u64,
        message_type: u32,
        message: String,
        action_bar: bool,
    )
        requires
            old(self).wf(),
        ensures
            final(self).wf(),
            final(self).levels.values() == old(self).levels.values(),
            final(self).players@ == update_player(
                old(self).players@,
                player,
                with_command(
                    old(self).players@[handle_of(player)],
                    PlayerCommand {
                        action: Some(
                            Action::SendMessage(
                                SendMessageCommand {
                                    text: Some(TextComponent { message_type, message }),
                                    action_bar,
                                },
                            ),
                        ),
                    },
                ),
            ),
    {
        let ghost m = message;
        let ghost cmd = PlayerCommand {
            action: Some(
                Action::SendMessage(
                    SendMessageCommand { text: Some(TextComponent { message_type, message: m }), action_bar },
                ),
            ),
        };
        let ghost h = handle_of(player);
        let act = |p: &mut ShadowPlayer|
            ensures
                final(p)@ == with_command(old(p)@, cmd),
            { p.send_message(message_type, message, action_bar) };
        let r = self.players.with_mut(player, act);
        match r {
            Some(_) => {
                assert(self.players@ =~= old(self).players@.insert(h, with_command(old(self).players@[h], cmd)));
            },
            None => {
                assert(self.players@ =~= old(self).players@);
            },
        }
    }

    /// Moves the player `player` names, if there is one.
    pub fn teleport(&mut self, player: u64, position: Vec3)
        requires
            old(self).wf(),
        ensures
            final(self).wf(),
            final(self).levels.values() == old(self).levels.values(),
            final(self).players@ == update_player(
                old(self).players@,
                player,
                PlayerView {
                    position,
                    dirty: old(self).players@[handle_of(player)].dirty | crate::bindings::player::POSITION_DIRTY,
                    ..old(self).players@[handle_of(player)]
                },
            ),
    {
        let ghost h = handle_of(player);
        let act = |p: &mut ShadowPlayer|
            ensures
                final(p)@ == (PlayerView {
                    position,
                    dirty: old(p)@.dirty | crate::bindings::player::POSITION_DIRTY,
                    ..old(p)@
                }),
            { p.teleport(position) };
        let r = self.players.with_mut(player, act);
        match r {
            Some(_) => {
                let ghost o = old(self).players@[h];
                assert(self.players@ =~= old(self).players@.insert(
                    h,
                    PlayerView { position, dirty: o.dirty | crate::bindings::player::POSITION_DIRTY, ..o },
                ));
            },
            None => {
                assert(self.players@ =~= old(self).players@);
            },
        }
    }

    /// Queues giving an item to the player `player` names, if there is one.
    pub fn give_item(&mut self, player: u64, item: String, count: i32)
        requires
            old(self).wf(),
        ensures
            final(self).wf(),
            final(self).levels.values() == old(self).levels.values(),
            final(self).players@ == update_player(
                old(self).players@,
                player,
                with_command(
                    old(self).players@[handle_of(player)],
                    PlayerCommand { action: Some(Action::GiveItem(GiveItemCommand { item, count })) },
                ),
            ),
    {
        let ghost it = item;
        let ghost cmd = PlayerCommand { action: Some(Action::GiveItem(GiveItemCommand { item: it, count })) };
        let ghost h = handle_of(player);
        let act = |p: &mut ShadowPlayer|
            ensures
                final(p)@ == with_command(old(p)@, cmd),
            { p.give_item(item, count) };
        let r = self.players.with_mut(player, act);
        match r {
            Some(_) => {
                assert(self.players@ =~= old(self).players@.insert(h, with_command(old(self).players@[h], cmd)));
            },
            None => {
                assert(self.players@ =~= old(self).players@);
            },
        }
    }

    /// Queues a server-defined command for the player `player` names, if
    /// there is one.
    pub fn custom_command(&mut self, player: u64, command: i32, message: Vec<u8>)
        requires
            old(self).wf(),
        ensures
            final(self).wf(),
            final(self).levels.values() == old(self).levels.values(),
            final(self).players@ == update_player(
                old(self).players@,
                player,
                with_command(
                    old(self).players@[handle_of(player)],
                    PlayerCommand {
                        action: Some(Action::CustomCommand(CustomCommand { command, message })),
                    },
                ),
            ),
    {
        let ghost msg = message;
        let ghost cmd = PlayerCommand {
            action: Some(Action::CustomCommand(CustomCommand { command, message: msg })),
        };
        let ghost h = handle_of(player);
        let act = |p: &mut ShadowPlayer|
            ensures
                final(p)@ == with_command(old(p)@, cmd),
            { p.custom_command(command, message) };
        let r = self.players.with_mut(player, act);
        match r {
            Some(_) => {
                assert(self.players@ =~= old(self).players@.insert(h, with_command(old(self).players@[h], cmd)));
            },
            None => {
                assert(self.players@ =~= old(self).players@);
            },
        }
    }

    /// Queues setting a block in the level `level` names, if there is one and
    /// the block id is not negative.
    pub fn set_block(&mut self, level: u64, position: u64, block: i32)
        requires
            old(self).wf(),
        ensures
            final(self).wf(),
            final(self).players.values() == old(self).players.values(),
            final(self).levels@ == (if block < 0 || !old(self).levels@.contains_key(handle_of(level)) {
                old(self).levels@
            } else {
                old(self).levels@.insert(
                    handle_of(level),
                    LevelView {
                        updates: old(self).levels@[handle_of(level)].updates.push(
                            BlockUpdate { position, block },
                        ),
                        dirty: old(self).levels@[handle_of(level)].dirty | BLOCK_UPDATE_DIRTY,
                    },
                )
            }),
    {
        if block < 0 {
            return;
        }
        let ghost h = handle_of(level);
        let act = |l: &mut ShadowLevel|
            requires
                block >= 0,
            ensures
                final(l)@ == (LevelView {
                    updates: old(l)@.updates.push(BlockUpdate { position, block }),
                    dirty: old(l)@.dirty | BLOCK_UPDATE_DIRTY,
                }),
            { l.set_block(position, block) };
        let r = self.levels.with_mut(level, act);
        match r {
            Some(_) => {
                let ghost o = old(self).levels@[h];
                assert(self.levels@ =~= old(self).levels@.insert(
                    h,
                    LevelView { updates: o.updates.push(BlockUpdate { position, block }), dirty: o.dirty | BLOCK_UPDATE_DIRTY },
                ));
            },
            None => {
                assert(self.levels@ =~= old(self).levels@);
            },
        }
    }
}


/// A handle names itself: passing the handle of a key again names the same
/// key.
pub proof fn lemma_handle_idempotent(uid: u64)
    ensures
        handle_of(handle_of(uid)) == handle_of(uid),
{
    assert(((((((uid >> 32u64) | 1u64) << 32u64) | (uid & 0xffff_ffffu64)) >> 32u64) | 1u64) << 32u64
        | ((((uid >> 32u64) | 1u64) << 32u64) | (uid & 0xffff_ffffu64)) & 0xffff_ffffu64
        == (((uid >> 32u64) | 1u64) << 32u64) | (uid & 0xffff_ffffu64)) by (bit_vector);
}

/// What is added can be found again under the handle that adding gave, and
/// what is removed cannot.
pub proof fn lemma_added_then_removed<T>(m: Map<u64, T>, uid: u64, value: T)
    requires
        handle_of(uid) == uid,
    ensures
        m.insert(uid, value).contains_key(handle_of(uid)),
        m.insert(uid, value)[handle_of(uid)] == value,
        !m.insert(uid, value).remove(handle_of(uid)).contains_key(handle_of(uid)),
{
}

/// Nothing is sent twice: right after the players' changes are taken, taking
/// them again gives none.
pub proof fn lemma_players_flushed_once(m: Map<u64, PlayerView>, order: Seq<u64>)
    requires
        forall|i: int| 0 <= i < order.len() ==> m.contains_key(#[trigger] order[i]),
    ensures
        flushed::<ShadowPlayer>(after_flush::<ShadowPlayer>(m), order) == Seq::<
            crate::bindings::player::PlayerChangeView,
        >::empty(),
    decreases order.len(),
{
    if order.len() > 0 {
        assert forall|i: int| 0 <= i < order.drop_last().len() implies m.contains_key(
            #[trigger] order.drop_last()[i],
        ) by {
            assert(order.drop_last()[i] == order[i]);
        }
        lemma_players_flushed_once(m, order.drop_last());
        assert(m.contains_key(order[order.len() - 1]));
    }
}

/// Nothing is sent twice: right after the levels' changes are taken, taking
/// them again gives none.
pub proof fn lemma_levels_flushed_once(m: Map<u64, LevelView>, order: Seq<u64>)
    requires
        forall|i: int| 0 <= i < order.len() ==> m.contains_key(#[trigger] order[i]),
    ensures
        flushed::<ShadowLevel>(after_flush::<ShadowLevel>(m), order) == Seq::<
            crate::bindings::level::LevelChangeView,
        >::empty(),
    decreases order.len(),
{
    if order.len() > 0 {
        assert forall|i: int| 0 <= i < order.drop_last().len() implies m.contains_key(
            #[trigger] order.drop_last()[i],
        ) by {
            assert(order.drop_last()[i] == order[i]);
        }
        lemma_levels_flushed_once(m, order.drop_last());
        assert(m.contains_key(order[order.len() - 1]));
    }
}

} // verus!
