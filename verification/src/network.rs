//! Per-player flag bits shared between players on one system, and the
//! round-trip-time report.
use vstd::prelude::*;
use vstd::string::StringExecFns;
use crate::text::{decimal, decimal_int, push_decimal, push_decimal_i64};

verus! {

/// `count` rounded up to a whole number of bytes' worth of bits.
pub open spec fn aligned_bits(count: nat) -> nat {
    ((count + 7) / 8) * 8
}

/// The rounded count is a whole number of bytes, covers `count`, and wastes
/// less than a byte.
pub proof fn lemma_aligned_bits(count: nat)
    ensures
        aligned_bits(count) % 8 == 0,
        count <= aligned_bits(count) < count + 8,
{
    let q = (count + 7) / 8;
    assert(q * 8 % 8 == 0) by (nonlinear_arith);
    assert(count <= q * 8 < count + 8) by (nonlinear_arith)
        requires
            q == (count + 7) / 8,
    ;
}

/// The flag bits of one player.  The player is known by its address
/// (`player_ptr`), 0 standing for no player.
#[derive(Debug, Clone)]
pub struct PlayerFlags {
    pub player_ptr: usize,
    pub flags: Vec<u8>,
    pub count: usize,
}

/// A player's flags as the contracts see them: address, bytes, bit count.
pub open spec fn flags_view(p: PlayerFlags) -> (usize, Seq<u8>, usize) {
    (p.player_ptr, p.flags@, p.count)
}

impl PlayerFlags {
    /// Room for `count` flags, rounded up to whole bytes, all clear.
    pub fn new(player_ptr: usize, count: usize) -> (p: Self)
        requires
            count + 8 <= usize::MAX,
        ensures
            p.player_ptr == player_ptr,
            p.count == aligned_bits(count as nat),
            p.flags@ == Seq::new(aligned_bits(count as nat) / 8, |_i: int| 0u8),
    {
        let rounded_up = count + 8 - 1;
        let low_bits: usize = 8 - 1;
        let aligned_count = rounded_up & !low_bits;
        assert(aligned_count == (rounded_up / 8) * 8) by (bit_vector)
            requires
                low_bits == 7usize,
                aligned_count == rounded_up & !low_bits,
        ;
        let n = aligned_count / 8;
        let mut flags: Vec<u8> = Vec::new();
        let mut i: usize = 0;
        while i < n
            invariant
                i <= n,
                flags@ == Seq::new(i as nat, |_i: int| 0u8),
            decreases n - i,
        {
            flags.push(0u8);
            i = i + 1;
            assert(flags@ =~= Seq::new(i as nat, |_i: int| 0u8));
        }
        PlayerFlags { player_ptr, flags, count: aligned_count }
    }
}

/// The flags of all players, each sized for `flag_index_size` flags.
pub struct PlayerFlagsManager {
    pub flag_index_size: usize,
    pub player_flags: Vec<PlayerFlags>,
}

/// The byte that holds flag `index`.
pub open spec fn flag_byte(index: nat) -> nat {
    index / 8
}

/// The bit of that byte that holds flag `index`, most significant first.
pub open spec fn flag_mask(index: nat) -> u8 {
    128u8 >> ((index % 8) as u8)
}

/// The entries after `set_flag`: each entry the closure matched (`hits`)
/// gets the bit set, when the byte exists.
pub open spec fn set_in_entries(
    es: Seq<(usize, Seq<u8>, usize)>,
    byte: nat,
    mask: u8,
    hits: Seq<bool>,
) -> Seq<(usize, Seq<u8>, usize)> {
    Seq::new(
        es.len(),
        |k: int|
            if hits[k] && byte < es[k].1.len() {
                (es[k].0, es[k].1.update(byte as int, es[k].1[byte as int] | mask), es[k].2)
            } else {
                es[k]
            },
    )
}

/// What `get_flag` reads: the bit in the first entry of `player` that has the
/// byte; false when there is none.
pub open spec fn get_in_entries(
    es: Seq<(usize, Seq<u8>, usize)>,
    player: usize,
    byte: nat,
    mask: u8,
) -> bool
    decreases es.len(),
{
    if es.len() == 0 {
        false
    } else if es[0].0 == player && byte < es[0].1.len() {
        es[0].1[byte as int] & mask != 0
    } else {
        get_in_entries(es.drop_first(), player, byte, mask)
    }
}

impl PlayerFlagsManager {
    /// The entries as the contracts see them.
    pub open spec fn entries(&self) -> Seq<(usize, Seq<u8>, usize)> {
        self.player_flags@.map_values(|p: PlayerFlags| flags_view(p))
    }

    /// No players yet; each will get room for `flag_index_size` flags.
    pub fn new(flag_index_size: usize) -> (m: Self)
        ensures
            m.flag_index_size == flag_index_size,
            m.entries() == Seq::<(usize, Seq<u8>, usize)>::empty(),
    {
        let m = PlayerFlagsManager { flag_index_size, player_flags: Vec::new() };
        assert(m.entries() =~= Seq::<(usize, Seq<u8>, usize)>::empty());
        m
    }

    /// Adds a player with all flags clear, except that the flags of the first
    /// existing player on the same system (as `is_same_system` decides) are
    /// copied, as far as both have room.
    pub fn add_player<F: Fn(usize, usize) -> bool>(&mut self, player_ptr: usize, is_same_system: F)
        requires
            old(self).flag_index_size + 8 <= usize::MAX,
            forall|a: usize, b: usize| is_same_system.requires((a, b)),
        ensures
            final(self).flag_index_size == old(self).flag_index_size,
            final(self).entries().len() == old(self).entries().len() + 1,
            final(self).entries().take(old(self).entries().len() as int) == old(self).entries(),
            ({
                let old_es = old(self).entries();
                let e = final(self).entries()[old_es.len() as int];
                &&& e.0 == player_ptr
                &&& e.2 == aligned_bits(old(self).flag_index_size as nat)
                &&& e.1.len() == aligned_bits(old(self).flag_index_size as nat) / 8
                &&& exists|j: int|
                    0 <= j <= old_es.len() && (forall|k: int|
                        0 <= k < j ==> is_same_system.ensures(
                            (player_ptr, #[trigger] old_es[k].0),
                            false,
                        )) && (j < old_es.len() ==> is_same_system.ensures(
                        (player_ptr, old_es[j].0),
                        true,
                    )) && (forall|t: int|
                        0 <= t < e.1.len() ==> #[trigger] e.1[t] == if j < old_es.len() && t
                            < old_es[j].1.len() {
                            old_es[j].1[t]
                        } else {
                            0u8
                        })
            }),
    {
        let ghost old_es = self.entries();
        let mut entry = PlayerFlags::new(player_ptr, self.flag_index_size);
        let n = self.player_flags.len();
        let mut j: usize = 0;
        let mut found = false;
        while j < n && !found
            invariant
                n == self.player_flags@.len(),
                old_es == self.entries(),
                self.flag_index_size == old(self).flag_index_size,
                self.player_flags@ == old(self).player_flags@,
                j <= n,
                found ==> j < n && is_same_system.ensures((player_ptr, old_es[j as int].0), true),
                forall|k: int| 0 <= k < j ==> is_same_system.ensures((player_ptr, #[trigger] old_es[k].0), false),
                forall|a: usize, b: usize| is_same_system.requires((a, b)),
                entry.player_ptr == player_ptr,
                entry.count == aligned_bits(old(self).flag_index_size as nat),
                entry.flags@ == Seq::new(aligned_bits(old(self).flag_index_size as nat) / 8, |_i: int| 0u8),
            decreases n - j + if found {
                0int
            } else {
                1int
            },
        {
            let other = self.player_flags[j].player_ptr;
            assert(other == old_es[j as int].0);
            if is_same_system(player_ptr, other) {
                found = true;
            } else {
                j = j + 1;
            }
        }
        if found {
            let src = &self.player_flags[j];
            let copy_len = if entry.flags.len() <= src.flags.len() {
                entry.flags.len()
            } else {
                src.flags.len()
            };
            let mut t: usize = 0;
            while t < copy_len
                invariant
                    t <= copy_len,
                    copy_len <= entry.flags@.len(),
                    copy_len <= src.flags@.len(),
                    entry.player_ptr == player_ptr,
                    entry.count == aligned_bits(old(self).flag_index_size as nat),
                    entry.flags@.len() == aligned_bits(old(self).flag_index_size as nat) / 8,
                    forall|u: int| 0 <= u < t ==> entry.flags@[u] == src.flags@[u],
                    forall|u: int| t <= u < entry.flags@.len() ==> entry.flags@[u] == 0u8,
                decreases copy_len - t,
            {
                entry.flags.set(t, src.flags[t]);
                t = t + 1;
            }
        }
        let ghost e = flags_view(entry);
        self.player_flags.push(entry);
        proof {
            assert(self.entries().take(old_es.len() as int) =~= old_es);
            assert(self.entries()[old_es.len() as int] == e);
            assert(0 <= j <= old_es.len());
            if found {
                assert(forall|t: int| 0 <= t < e.1.len() ==> #[trigger] e.1[t] == if t < old_es[j as int].1.len() {
                    old_es[j as int].1[t]
                } else {
                    0u8
                });
            } else {
                assert(j == old_es.len());
            }
        }
    }

    /// Forgets all players.
    pub fn reset(&mut self)
        ensures
            final(self).flag_index_size == old(self).flag_index_size,
            final(self).entries() == Seq::<(usize, Seq<u8>, usize)>::empty(),
    {
        self.player_flags.clear();
        assert(self.entries() =~= Seq::<(usize, Seq<u8>, usize)>::empty());
    }

    /// Sets flag `index` for every player on the same system as `player_ptr`
    /// (as `is_same_system` decides), when the index is in range and the
    /// player is not null.
    pub fn set_flag<F: Fn(usize, usize) -> bool>(
        &mut self,
        player_ptr: usize,
        index: usize,
        is_same_system: F,
    )
        requires
            forall|a: usize, b: usize| is_same_system.requires((a, b)),
        ensures
            final(self).flag_index_size == old(self).flag_index_size,
            index >= old(self).flag_index_size || player_ptr == 0 ==> final(self).entries() == old(
                self,
            ).entries(),
            index < old(self).flag_index_size && player_ptr != 0 ==> exists|hits: Seq<bool>|
                hits.len() == old(self).entries().len() && (forall|k: int|
                    0 <= k < hits.len() ==> is_same_system.ensures(
                        (player_ptr, #[trigger] old(self).entries()[k].0),
                        hits[k],
                    )) && final(self).entries() == set_in_entries(
                    old(self).entries(),
                    flag_byte(index as nat),
                    flag_mask(index as nat),
                    hits,
                ),
    {
        if index >= self.flag_index_size || player_ptr == 0 {
            return;
        }
        let byte_idx = index / 8;
        let bit_mask: u8 = 128u8 >> ((index % 8) as u8);
        let ghost old_es = self.entries();
        let ghost mut hits: Seq<bool> = Seq::empty();
        let n = self.player_flags.len();
        let mut k: usize = 0;
        while k < n
            invariant
                n == old_es.len(),
                n == self.player_flags@.len(),
                k <= n,
                hits.len() == k,
                self.flag_index_size == old(self).flag_index_size,
                forall|a: usize, b: usize| is_same_system.requires((a, b)),
                forall|m: int| 0 <= m < k ==> is_same_system.ensures((player_ptr, #[trigger] old_es[m].0), hits[m]),
                forall|m: int| 0 <= m < k ==> #[trigger] flags_view(self.player_flags@[m]) == set_in_entries(old_es.take(k as int), byte_idx as nat, bit_mask, hits)[m],
                forall|m: int| k <= m < n ==> #[trigger] flags_view(self.player_flags@[m]) == old_es[m],
            decreases n - k,
        {
            assert(flags_view(self.player_flags@[k as int]) == old_es[k as int]);
            let ghost before = self.player_flags@;
            let other = self.player_flags[k].player_ptr;
            let hit = is_same_system(player_ptr, other);
            if hit && byte_idx < self.player_flags[k].flags.len() {
                let v = self.player_flags[k].flags[byte_idx] | bit_mask;
                self.player_flags[k].flags.set(byte_idx, v);
            }
            assert(forall|m: int| 0 <= m < n && m != k ==> self.player_flags@[m] == before[m]);
            proof {
                hits = hits.push(hit);
            }
            k = k + 1;
        }
        proof {
            assert(old_es.take(n as int) =~= old_es);
            assert forall|m: int| 0 <= m < n implies #[trigger] self.entries()[m] == set_in_entries(
                old_es,
                byte_idx as nat,
                bit_mask,
                hits,
            )[m] by {
                assert(flags_view(self.player_flags@[m]) == set_in_entries(
                    old_es.take(n as int),
                    byte_idx as nat,
                    bit_mask,
                    hits,
                )[m]);
            }
            assert(self.entries() =~= set_in_entries(old_es, byte_idx as nat, bit_mask, hits));
            assert(old_es == old(self).entries());
            assert(flag_byte(index as nat) == byte_idx as nat);
            assert(flag_mask(index as nat) == bit_mask);
            assert(hits.len() == old(self).entries().len() && (forall|m: int|
                0 <= m < hits.len() ==> is_same_system.ensures(
                    (player_ptr, #[trigger] old(self).entries()[m].0),
                    hits[m],
                )) && self.entries() == set_in_entries(
                old(self).entries(),
                flag_byte(index as nat),
                flag_mask(index as nat),
                hits,
            ));
        }
    }

    /// Reads flag `index` of the first entry for exactly `player_ptr` that
    /// has room for it; false when the index is out of range, the player is
    /// null, or no such entry exists.
    pub fn get_flag(&self, player_ptr: usize, index: usize) -> (r: bool)
        ensures
            r == if index >= self.flag_index_size || player_ptr == 0 {
                false
            } else {
                get_in_entries(
                    self.entries(),
                    player_ptr,
                    flag_byte(index as nat),
                    flag_mask(index as nat),
                )
            },
    {
        if index >= self.flag_index_size || player_ptr == 0 {
            return false;
        }
        let byte_idx = index / 8;
        let bit_mask: u8 = 128u8 >> ((index % 8) as u8);
        assert(flag_byte(index as nat) == byte_idx as nat);
        assert(flag_mask(index as nat) == bit_mask);
        let ghost es = self.entries();
        let n = self.player_flags.len();
        let mut k: usize = 0;
        assert(es.skip(0) =~= es);
        while k < n
            invariant
                n == es.len(),
                es == self.entries(),
                flag_byte(index as nat) == byte_idx as nat,
                flag_mask(index as nat) == bit_mask,
                index < self.flag_index_size,
                player_ptr != 0,
                k <= n,
                get_in_entries(es, player_ptr, byte_idx as nat, bit_mask) == get_in_entries(
                    es.skip(k as int),
                    player_ptr,
                    byte_idx as nat,
                    bit_mask,
                ),
            decreases n - k,
        {
            let entry = &self.player_flags[k];
            assert(es[k as int] == flags_view(self.player_flags@[k as int]));
            assert(es.skip(k as int)[0] == es[k as int]);
            assert(es.skip(k as int).drop_first() =~= es.skip(k + 1));
            if entry.player_ptr == player_ptr {
                if byte_idx < entry.flags.len() {
                    let r = (entry.flags[byte_idx] & bit_mask) != 0;
                    assert(es.skip(k as int)[0].1[byte_idx as int] == entry.flags@[byte_idx as int]);
                    assert(get_in_entries(es.skip(k as int), player_ptr, byte_idx as nat, bit_mask)
                        == r);
                    return r;
                }
            }
            k = k + 1;
        }
        false
    }
}

/// A flag set for a player reads back as set: when every entry of the
/// player was matched by the set, the bit mask is not empty, and some entry
/// of the player has the byte.
pub proof fn lemma_set_then_get(
    es: Seq<(usize, Seq<u8>, usize)>,
    player: usize,
    byte: nat,
    mask: u8,
    hits: Seq<bool>,
)
    requires
        hits.len() == es.len(),
        mask != 0,
        forall|k: int| 0 <= k < es.len() && es[k].0 == player ==> hits[k],
        exists|k: int| 0 <= k < es.len() && es[k].0 == player && byte < es[k].1.len(),
    ensures
        get_in_entries(set_in_entries(es, byte, mask, hits), player, byte, mask),
    decreases es.len(),
{
    let s = set_in_entries(es, byte, mask, hits);
    if es[0].0 == player && byte < es[0].1.len() {
        let b = es[0].1[byte as int];
        assert(s[0].1[byte as int] == b | mask);
        assert((b | mask) & mask == mask) by (bit_vector);
    } else {
        let k = choose|k: int| 0 <= k < es.len() && es[k].0 == player && byte < es[k].1.len();
        assert(k > 0);
        assert(es.drop_first()[k - 1] == es[k]);
        lemma_set_then_get(es.drop_first(), player, byte, mask, hits.drop_first());
        assert(set_in_entries(es.drop_first(), byte, mask, hits.drop_first()) =~= s.drop_first());
    }
}

/// Setting a flag touches only the entries the closure matched, and of those
/// only the one byte, where the bit is or-ed in; every entry keeps its
/// player, its length and its extra field, and every entry that was not
/// matched is left as it was.
pub proof fn lemma_set_touches_only_matched(
    es: Seq<(usize, Seq<u8>, usize)>,
    byte: nat,
    mask: u8,
    hits: Seq<bool>,
)
    requires
        hits.len() == es.len(),
    ensures
        set_in_entries(es, byte, mask, hits).len() == es.len(),
        forall|k: int|
            0 <= k < es.len() && !hits[k] ==> #[trigger] set_in_entries(es, byte, mask, hits)[k]
                == es[k],
        forall|k: int|
            #![trigger set_in_entries(es, byte, mask, hits)[k]]
            0 <= k < es.len() ==> {
                let e = set_in_entries(es, byte, mask, hits)[k];
                &&& e.0 == es[k].0
                &&& e.2 == es[k].2
                &&& e.1.len() == es[k].1.len()
                &&& forall|j: int|
                    0 <= j < e.1.len() ==> #[trigger] e.1[j] == if hits[k] && j == byte {
                        es[k].1[j] | mask
                    } else {
                        es[k].1[j]
                    }
            },
{
}

/// A flag set through the entries of other systems does not show on a
/// player none of whose entries was matched: every flag of that player reads
/// as before.
pub proof fn lemma_set_leaves_unmatched_player(
    es: Seq<(usize, Seq<u8>, usize)>,
    player: usize,
    byte: nat,
    mask: u8,
    hits: Seq<bool>,
    byte2: nat,
    mask2: u8,
)
    requires
        hits.len() == es.len(),
        forall|k: int| 0 <= k < es.len() && es[k].0 == player ==> !hits[k],
    ensures
        get_in_entries(set_in_entries(es, byte, mask, hits), player, byte2, mask2) == get_in_entries(
            es,
            player,
            byte2,
            mask2,
        ),
    decreases es.len(),
{
    if es.len() > 0 {
        let s = set_in_entries(es, byte, mask, hits);
        lemma_set_leaves_unmatched_player(
            es.drop_first(),
            player,
            byte,
            mask,
            hits.drop_first(),
            byte2,
            mask2,
        );
        assert(set_in_entries(es.drop_first(), byte, mask, hits.drop_first()) =~= s.drop_first());
        if es[0].0 == player {
            assert(s[0] == es[0]);
        } else {
            assert(s[0].0 == es[0].0);
        }
    }
}

/// The state of the network session that the platform layer keeps.
pub struct NetworkState {
    pub flags_mgr: PlayerFlagsManager,
    pub game_running: bool,
    pub leaving_game: bool,
    pub is_offline_game: bool,
    pub is_private_game: bool,
    pub host_changed: bool,
}

impl NetworkState {
    /// No game, no players, hosting.
    pub fn new() -> (s: Self)
        ensures
            s.flags_mgr.flag_index_size == 0,
            s.flags_mgr.entries() == Seq::<(usize, Seq<u8>, usize)>::empty(),
            !s.game_running,
            !s.leaving_game,
            !s.is_offline_game,
            !s.is_private_game,
            !s.host_changed,
    {
        NetworkState {
            flags_mgr: PlayerFlagsManager::new(0),
            game_running: false,
            leaving_game: false,
            is_offline_game: false,
            is_private_game: false,
            host_changed: false,
        }
    }

    /// Starts over with no players, each to get room for `flag_index_size`
    /// flags.
    pub fn system_flag_init(&mut self, flag_index_size: usize)
        ensures
            final(self).flags_mgr.flag_index_size == flag_index_size,
            final(self).flags_mgr.entries() == Seq::<(usize, Seq<u8>, usize)>::empty(),
            final(self).game_running == old(self).game_running,
            final(self).leaving_game == old(self).leaving_game,
            final(self).is_offline_game == old(self).is_offline_game,
            final(self).is_private_game == old(self).is_private_game,
            final(self).host_changed == old(self).host_changed,
    {
        self.flags_mgr = PlayerFlagsManager::new(flag_index_size);
    }

    /// Sets a flag for a signed index; a negative index does nothing.
    pub fn system_flag_set<F: Fn(usize, usize) -> bool>(
        &mut self,
        player_ptr: usize,
        index: i32,
        is_same_system: F,
    )
        requires
            forall|a: usize, b: usize| is_same_system.requires((a, b)),
        ensures
            final(self).flags_mgr.flag_index_size == old(self).flags_mgr.flag_index_size,
            index < 0 || index >= old(self).flags_mgr.flag_index_size || player_ptr == 0
                ==> final(self).flags_mgr.entries() == old(self).flags_mgr.entries(),
            index >= 0 && index < old(self).flags_mgr.flag_index_size && player_ptr != 0
                ==> exists|hits: Seq<bool>|
                #![trigger hits.len()]
                hits.len() == old(self).flags_mgr.entries().len() && (forall|k: int|
                    0 <= k < hits.len() ==> is_same_system.ensures(
                        (player_ptr, #[trigger] old(self).flags_mgr.entries()[k].0),
                        hits[k],
                    )) && final(self).flags_mgr.entries() == set_in_entries(
                    old(self).flags_mgr.entries(),
                    flag_byte(index as nat),
                    flag_mask(index as nat),
                    hits,
                ),
            final(self).game_running == old(self).game_running,
            final(self).leaving_game == old(self).leaving_game,
            final(self).is_offline_game == old(self).is_offline_game,
            final(self).is_private_game == old(self).is_private_game,
            final(self).host_changed == old(self).host_changed,
    {
        if index < 0 {
            return;
        }
        self.flags_mgr.set_flag(player_ptr, index as usize, is_same_system);
    }

    /// Reads a flag for a signed index; false for a negative index.
    pub fn system_flag_get(&self, player_ptr: usize, index: i32) -> (r: bool)
        ensures
            r == if index < 0 || index >= self.flags_mgr.flag_index_size || player_ptr == 0 {
                false
            } else {
                get_in_entries(
                    self.flags_mgr.entries(),
                    player_ptr,
                    flag_byte(index as nat),
                    flag_mask(index as nat),
                )
            },
    {
        if index < 0 {
            return false;
        }
        self.flags_mgr.get_flag(player_ptr, index as usize)
    }

    /// Marks the game as local or online; always succeeds.
    pub fn set_local_game(&mut self, is_local: bool) -> (r: bool)
        ensures
            r,
            final(self).is_offline_game == is_local,
            final(self).game_running == old(self).game_running,
            final(self).leaving_game == old(self).leaving_game,
            final(self).is_private_game == old(self).is_private_game,
            final(self).host_changed == old(self).host_changed,
    {
        self.is_offline_game = is_local;
        true
    }

    /// Marks the game as private or public.
    pub fn set_private_game(&mut self, is_private: bool)
        ensures
            final(self).is_private_game == is_private,
            final(self).game_running == old(self).game_running,
            final(self).leaving_game == old(self).leaving_game,
            final(self).is_offline_game == old(self).is_offline_game,
            final(self).host_changed == old(self).host_changed,
    {
        self.is_private_game = is_private;
    }

    /// Whether this machine still hosts the game.
    pub fn is_host(&self) -> (r: bool)
        ensures
            r == !self.host_changed,
    {
        !self.host_changed
    }

    /// Whether a game is running.
    pub fn is_in_session(&self) -> (r: bool)
        ensures
            r == self.game_running,
    {
        self.game_running
    }

    /// Records whether a game is running.
    pub fn set_game_running(&mut self, running: bool)
        ensures
            final(self).game_running == running,
            final(self).leaving_game == old(self).leaving_game,
            final(self).is_offline_game == old(self).is_offline_game,
            final(self).is_private_game == old(self).is_private_game,
            final(self).host_changed == old(self).host_changed,
    {
        self.game_running = running;
    }

    /// Whether the player is leaving the game.
    pub fn is_leaving_game(&self) -> (r: bool)
        ensures
            r == self.leaving_game,
    {
        self.leaving_game
    }

    /// Records whether the player is leaving the game.
    pub fn set_leaving_game(&mut self, leaving: bool)
        ensures
            final(self).leaving_game == leaving,
            final(self).game_running == old(self).game_running,
            final(self).is_offline_game == old(self).is_offline_game,
            final(self).is_private_game == old(self).is_private_game,
            final(self).host_changed == old(self).host_changed,
    {
        self.leaving_game = leaving;
    }
}

/// The text for one remote player: its index, its round-trip time, a slash.
pub open spec fn rtt_entry(i: nat, rtt: i32) -> Seq<char> {
    decimal(i) + ": "@ + decimal_int(rtt as int) + "/"@
}

/// The entries for players `0..locals.len()` that are not local.
pub open spec fn rtt_text(locals: Seq<bool>, rtts: Seq<i32>) -> Seq<char>
    decreases locals.len(),
{
    if locals.len() == 0 {
        Seq::empty()
    } else {
        let n = (locals.len() - 1) as nat;
        rtt_text(locals.take(n as int), rtts.take(n as int)) + if locals[n as int] {
            Seq::empty()
        } else {
            rtt_entry(n, rtts[n as int])
        }
    }
}

/// "Rtt: " followed by `index: rtt/` for each player that is not local, as
/// `is_local` and `get_rtt` report them.
pub fn gather_rtt_stats<FLocal: Fn(u32) -> bool, FRtt: Fn(u32) -> i32>(
    player_count: u32,
    is_local: FLocal,
    get_rtt: FRtt,
) -> (r: String)
    requires
        forall|i: u32| is_local.requires((i,)),
        forall|i: u32| get_rtt.requires((i,)),
    ensures
        exists|locals: Seq<bool>, rtts: Seq<i32>|
            locals.len() == player_count && rtts.len() == player_count && (forall|i: int|
                0 <= i < player_count ==> is_local.ensures((i as u32,), #[trigger] locals[i]))
                && (forall|i: int|
                0 <= i < player_count && !locals[i] ==> get_rtt.ensures((i as u32,), #[trigger] rtts[i]))
                && r@ == "Rtt: "@ + rtt_text(locals, rtts),
{
    let mut stats = String::from_str("Rtt: ");
    let ghost mut locals: Seq<bool> = Seq::empty();
    let ghost mut rtts: Seq<i32> = Seq::empty();
    let mut i: u32 = 0;
    while i < player_count
        invariant
            i <= player_count,
            locals.len() == i,
            rtts.len() == i,
            forall|k: u32| is_local.requires((k,)),
            forall|k: u32| get_rtt.requires((k,)),
            forall|k: int| 0 <= k < i ==> is_local.ensures((k as u32,), #[trigger] locals[k]),
            forall|k: int| 0 <= k < i && !locals[k] ==> get_rtt.ensures((k as u32,), #[trigger] rtts[k]),
            stats@ == "Rtt: "@ + rtt_text(locals, rtts),
        decreases player_count - i,
    {
        let local = is_local(i);
        let ghost before = stats@;
        let mut rtt: i32 = 0;
        if !local {
            rtt = get_rtt(i);
            push_decimal(&mut stats, i as u64);
            stats.append(": ");
            push_decimal_i64(&mut stats, rtt as i64);
            stats.append("/");
        }
        proof {
            let l2 = locals.push(local);
            let r2 = rtts.push(rtt);
            assert(l2.take(i as int) =~= locals);
            assert(r2.take(i as int) =~= rtts);
            locals = l2;
            rtts = r2;
            assert(stats@ =~= "Rtt: "@ + rtt_text(locals, rtts));
        }
        i = i + 1;
    }
    stats
}

} // verus!
