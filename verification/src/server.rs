//! The server's bookkeeping of its players and what it decides on their messages, on
//! console commands and on each tick: who has joined, who hears what, which chunks each
//! player holds, and which of them it must drop.
//!
//! The network, the clock and players' floating-point positions stay with the caller, which
//! hands in the chunk a player stands in and carries out what is decided here.

use vstd::prelude::*;
use crate::coords::{ChunkPos, WorldPos, LocalPos, world_to_chunk, spec_local_coord};
use crate::chunk::BlockId;
use crate::server_world::{chunk_of, lemma_chunk_of_pos};
use crate::text::{chars_of, decimal, push_decimal};
use crate::decimal::{all_digits, digits_value};
use crate::commands::{eq_ignore_ascii_case, ascii_lowercase, ascii_lower};
use crate::seq_facts::{lemma_push_contains, lemma_push_no_duplicates, lemma_prefix_push};

verus! {

/// Ticks per second.
pub const TICK_RATE: u32 = 20;

/// Milliseconds a tick lasts.
pub const TICK_DURATION_MS: u64 = 50;

/// Water flows every this many ticks.
pub const WATER_TICK_INTERVAL_TICKS: u64 = 5;

/// Changed chunks are saved every this many ticks.
pub const SAVE_INTERVAL_TICKS: u64 = 600;

/// The time of day is sent to players every this many ticks.
pub const TIME_SYNC_INTERVAL_TICKS: u64 = 100;

/// Players are sent the chunks up to this many chunks away along x and z.
pub const CHUNK_STREAM_HORIZONTAL_RADIUS: i32 = 12;

/// Players are sent the chunks up to this many chunks below the one they stand in.
pub const CHUNK_STREAM_VERTICAL_BELOW: i32 = 2;

/// Players are sent the chunks up to this many chunks above the one they stand in.
pub const CHUNK_STREAM_VERTICAL_ABOVE: i32 = 1;

/// Where the server keeps its world and which port it listens on.
#[derive(Debug, Clone)]
pub struct ServerConfig {
    pub world_path: String,
    pub port: u16,
}

/// What the server does on a tick besides moving players.
#[derive(Debug, Clone, Copy, PartialEq, Eq)]
pub struct TickActions {
    /// Let water flow.
    pub water: bool,
    /// Save the changed chunks.
    pub save: bool,
    /// Send every player the time of day.
    pub time_sync: bool,
}

/// What the server does on a given tick.
pub fn tick_actions(tick: u64) -> (r: TickActions)
    ensures
        r.water == (tick % WATER_TICK_INTERVAL_TICKS == 0),
        r.save == (tick % SAVE_INTERVAL_TICKS == 0),
        r.time_sync == (tick % TIME_SYNC_INTERVAL_TICKS == 0),
{
    TickActions {
        water: tick % WATER_TICK_INTERVAL_TICKS == 0,
        save: tick % SAVE_INTERVAL_TICKS == 0,
        time_sync: tick % TIME_SYNC_INTERVAL_TICKS == 0,
    }
}

/// The ticks since a player's position was last taken, at least one.
pub fn elapsed_ticks(now: u64, last_position_tick: u64) -> (r: u64)
    ensures
        r == if now > last_position_tick && now - last_position_tick > 1 {
            (now - last_position_tick) as u64
        } else {
            1u64
        },
{
    let d = now.saturating_sub(last_position_tick);
    if d > 1 {
        d
    } else {
        1
    }
}

/// The number a run of digits reads as, when it is one and fits in 64 bits.
pub open spec fn parsed_digits(d: Seq<char>) -> Option<u64> {
    if d.len() == 0 || !all_digits(d) || digits_value(d) > u64::MAX {
        None
    } else {
        Some(digits_value(d) as u64)
    }
}

/// The number a text reads as (`u64::from_str`): decimal digits, possibly after a `+`, whose
/// value fits in 64 bits.
pub open spec fn parsed_u64(s: Seq<char>) -> Option<u64> {
    parsed_digits(if s.len() > 0 && s[0] == '+' {
        s.drop_first()
    } else {
        s
    })
}

proof fn lemma_digits_value_grows(d: Seq<char>, c: char)
    requires
        '0' <= c <= '9',
    ensures
        digits_value(d.push(c)) >= digits_value(d),
        digits_value(d.push(c)) == digits_value(d) * 10 + ((c as u32) - 48) as nat,
{
    assert(d.push(c).drop_last() =~= d);
}

proof fn lemma_digits_value_prefix_bound(d: Seq<char>, i: int)
    requires
        0 <= i <= d.len(),
        all_digits(d),
    ensures
        digits_value(d.subrange(0, i)) <= digits_value(d),
    decreases d.len() - i,
{
    if i < d.len() {
        lemma_digits_value_prefix_bound(d, i + 1);
        assert(d.subrange(0, i + 1) =~= d.subrange(0, i).push(d[i]));
        lemma_digits_value_grows(d.subrange(0, i), d[i]);
    } else {
        assert(d.subrange(0, i) =~= d);
    }
}

/// Reads a text as a number the way `u64::from_str` does.
pub fn parse_u64(s: &[char]) -> (r: Option<u64>)
    ensures
        r == parsed_u64(s@),
{
    let start: usize = if s.len() > 0 && s[0] == '+' {
        1
    } else {
        0
    };
    let ghost d = if s@.len() > 0 && s@[0] == '+' {
        s@.drop_first()
    } else {
        s@
    };
    assert(d =~= s@.subrange(start as int, s@.len() as int));
    if start == s.len() {
        return None;
    }
    let mut value: u64 = 0;
    let mut i: usize = start;
    while i < s.len()
        invariant
            start <= i <= s@.len(),
            start < s@.len(),
            d == s@.subrange(start as int, s@.len() as int),
            parsed_u64(s@) == parsed_digits(d),
            all_digits(s@.subrange(start as int, i as int)),
            value as nat == digits_value(s@.subrange(start as int, i as int)),
        decreases s@.len() - i,
    {
        let c = s[i];
        let ghost before = s@.subrange(start as int, i as int);
        assert(s@.subrange(start as int, i + 1) =~= before.push(c));
        if c < '0' || c > '9' {
            assert(d[i - start] == c);
            assert(!all_digits(d));
            return None;
        }
        let digit = (c as u32 - 48) as u64;
        proof {
            lemma_digits_value_grows(before, c);
        }
        let next = match value.checked_mul(10) {
            Some(m) => m.checked_add(digit),
            None => None,
        };
        match next {
            Some(v) => {
                value = v;
            },
            None => {
                proof {
                    assert(digits_value(before.push(c)) > u64::MAX);
                    if all_digits(d) {
                        lemma_digits_value_prefix_bound(d, i + 1 - start);
                        assert(d.subrange(0, i + 1 - start) =~= before.push(c));
                    }
                }
                return None;
            },
        }
        i += 1;
    }
    assert(s@.subrange(start as int, i as int) =~= d);
    Some(value)
}

/// A player who has joined: its id, name and the tick its position was last taken at.
#[derive(Debug, Clone)]
pub struct PlayerEntry {
    pub player_id: u64,
    pub username: String,
    pub last_position_tick: u64,
}

/// The players by id, with their names and the tick their position was last taken at.
pub open spec fn player_map(s: Seq<PlayerEntry>) -> Map<u64, (Seq<char>, u64)> {
    Map::new(
        |id: u64| exists|i: int| 0 <= i < s.len() && #[trigger] s[i].player_id == id,
        |id: u64|
            {
                let i = choose|i: int| 0 <= i < s.len() && #[trigger] s[i].player_id == id;
                (s[i].username@, s[i].last_position_tick)
            },
    )
}

/// No id occurs twice.
pub open spec fn distinct_ids(s: Seq<PlayerEntry>) -> bool {
    forall|i: int, j: int| 0 <= i < s.len() && 0 <= j < s.len() && i != j ==> s[i].player_id != s[j].player_id
}

proof fn lemma_player_map_at(s: Seq<PlayerEntry>, i: int)
    requires
        distinct_ids(s),
        0 <= i < s.len(),
    ensures
        player_map(s).dom().contains(s[i].player_id),
        player_map(s)[s[i].player_id] == (s[i].username@, s[i].last_position_tick),
{
    let id = s[i].player_id;
    assert(player_map(s).dom().contains(id));
    let j = choose|j: int| 0 <= j < s.len() && #[trigger] s[j].player_id == id;
    assert(j == i);
}

/// The ids of the players whose name matches `target` without regard to ASCII case.
pub open spec fn name_matches(players: Map<u64, (Seq<char>, u64)>, id: u64, target: Seq<char>) -> bool {
    players.dom().contains(id) && eq_ignore_ascii_case(players[id].0, target)
}

/// The message when no player has the id.
pub open spec fn id_not_connected_text(id: u64) -> Seq<char> {
    "player id "@ + decimal(id as nat) + " is not connected"@
}

/// The message when no player has the name.
pub open spec fn name_not_connected_text(target: Seq<char>) -> Seq<char> {
    "player '"@ + target + "' is not connected"@
}

/// The message when several players have the name.
pub open spec fn name_ambiguous_text(target: Seq<char>) -> Seq<char> {
    "multiple players match '"@ + target + "', use /list and kick by id"@
}

/// The player a console command names, by id or by name without regard to ASCII case.
pub open spec fn resolves_to(players: Map<u64, (Seq<char>, u64)>, target: Seq<char>, r: Result<u64, Seq<char>>) -> bool {
    match parsed_u64(target) {
        Some(id) => if players.dom().contains(id) {
            r == Ok::<u64, Seq<char>>(id)
        } else {
            r == Err::<u64, Seq<char>>(id_not_connected_text(id))
        },
        None => {
            if forall|k: u64| !name_matches(players, k, target) {
                r == Err::<u64, Seq<char>>(name_not_connected_text(target))
            } else if exists|a: u64, b: u64| a != b && name_matches(players, a, target) && name_matches(players, b, target) {
                r == Err::<u64, Seq<char>>(name_ambiguous_text(target))
            } else {
                r matches Ok(id) && name_matches(players, id, target)
            }
        },
    }
}

/// The result of `resolve_player_target` with its message as characters.
pub open spec fn result_view(r: Result<u64, String>) -> Result<u64, Seq<char>> {
    match r {
        Ok(id) => Ok(id),
        Err(m) => Err(m@),
    }
}

/// Some entry of the list has the id.
pub open spec fn listed(s: Seq<(u64, String)>, id: u64) -> bool {
    exists|k: int| 0 <= k < s.len() && #[trigger] s[k].0 == id
}

/// One of the first `i` players has the id.
pub open spec fn joined_before(s: Seq<PlayerEntry>, i: int, id: u64) -> bool {
    exists|j: int| 0 <= j < i && #[trigger] s[j].player_id == id
}

/// The players who have joined, by id.
pub struct PlayerRoster {
    entries: Vec<PlayerEntry>,
}

impl View for PlayerRoster {
    type V = Map<u64, (Seq<char>, u64)>;

    closed spec fn view(&self) -> Map<u64, (Seq<char>, u64)> {
        player_map(self.entries@)
    }
}

impl PlayerRoster {
    /// Each id is held once.
    pub closed spec fn wf(&self) -> bool {
        distinct_ids(self.entries@)
    }

    /// A roster with no player.
    pub fn new() -> (r: PlayerRoster)
        ensures
            r.wf(),
            r@ == Map::<u64, (Seq<char>, u64)>::empty(),
    {
        let r = PlayerRoster { entries: Vec::new() };
        assert(r@ =~= Map::<u64, (Seq<char>, u64)>::empty());
        r
    }

    fn find(&self, id: u64) -> (r: Option<usize>)
        requires
            self.wf(),
        ensures
            r matches Some(i) ==> i < self.entries@.len() && self.entries@[i as int].player_id == id,
            r is None <==> !self@.dom().contains(id),
    {
        let mut i: usize = 0;
        while i < self.entries.len()
            invariant
                self.wf(),
                i <= self.entries@.len(),
                forall|k: int| 0 <= k < i ==> (#[trigger] self.entries@[k]).player_id != id,
            decreases self.entries@.len() - i,
        {
            if self.entries[i].player_id == id {
                proof {
                    lemma_player_map_at(self.entries@, i as int);
                }
                return Some(i);
            }
            i += 1;
        }
        proof {
            if self@.dom().contains(id) {
                let k = choose|k: int| 0 <= k < self.entries@.len() && #[trigger] self.entries@[k].player_id == id;
                assert(self.entries@[k].player_id == id);
            }
        }
        None
    }

    /// Whether a player with the id has joined.
    pub fn contains(&self, id: u64) -> (r: bool)
        requires
            self.wf(),
        ensures
            r == self@.dom().contains(id),
    {
        self.find(id).is_some()
    }

    /// The name of the player with the id.
    pub fn username(&self, id: u64) -> (r: Option<String>)
        requires
            self.wf(),
        ensures
            r is Some <==> self@.dom().contains(id),
            r matches Some(n) ==> n@ == self@[id].0,
    {
        match self.find(id) {
            Some(i) => {
                proof {
                    lemma_player_map_at(self.entries@, i as int);
                }
                Some(self.entries[i].username.clone())
            },
            None => None,
        }
    }

    /// The tick at which the position of the player with the id was last taken.
    pub fn last_position_tick(&self, id: u64) -> (r: Option<u64>)
        requires
            self.wf(),
        ensures
            r is Some <==> self@.dom().contains(id),
            r matches Some(t) ==> t == self@[id].1,
    {
        match self.find(id) {
            Some(i) => {
                proof {
                    lemma_player_map_at(self.entries@, i as int);
                }
                Some(self.entries[i].last_position_tick)
            },
            None => None,
        }
    }

    /// Sets the name and last position tick of the player with the id, adding it when new.
    pub fn upsert(&mut self, id: u64, username: String, tick: u64)
        requires
            old(self).wf(),
        ensures
            final(self).wf(),
            final(self)@ == old(self)@.insert(id, (username@, tick)),
    {
        let ghost name = username@;
        match self.find(id) {
            Some(i) => {
                let ghost before = self.entries@;
                self.entries.set(i, PlayerEntry { player_id: id, username, last_position_tick: tick });
                proof {
                    assert forall|a: int, b: int|
                        0 <= a < self.entries@.len() && 0 <= b < self.entries@.len() && a != b implies self.entries@[a].player_id != self.entries@[b].player_id by {
                        assert(before[a].player_id != before[b].player_id);
                    }
                    assert forall|k: u64| #[trigger] self@.dom().contains(k) <==> old(self)@.insert(id, (name, tick)).dom().contains(k) by {
                        if self@.dom().contains(k) {
                            let j = choose|j: int| 0 <= j < self.entries@.len() && #[trigger] self.entries@[j].player_id == k;
                            if j != i {
                                assert(before[j].player_id == k);
                            }
                        }
                        if old(self)@.dom().contains(k) {
                            let j = choose|j: int| 0 <= j < before.len() && #[trigger] before[j].player_id == k;
                            assert(self.entries@[j].player_id == k);
                        }
                    }
                    assert forall|k: u64| #[trigger] self@.dom().contains(k) implies self@[k] == old(self)@.insert(id, (name, tick))[k] by {
                        let j = choose|j: int| 0 <= j < self.entries@.len() && #[trigger] self.entries@[j].player_id == k;
                        lemma_player_map_at(self.entries@, j);
                        if j != i {
                            assert(before[j] == self.entries@[j]);
                            lemma_player_map_at(before, j);
                        }
                    }
                    assert(self@ =~= old(self)@.insert(id, (name, tick)));
                }
            },
            None => {
                let ghost before = self.entries@;
                self.entries.push(PlayerEntry { player_id: id, username, last_position_tick: tick });
                proof {
                    let n = before.len() as int;
                    assert forall|a: int, b: int|
                        0 <= a < self.entries@.len() && 0 <= b < self.entries@.len() && a != b implies self.entries@[a].player_id != self.entries@[b].player_id by {
                        if a < n && b < n {
                            assert(before[a].player_id != before[b].player_id);
                        } else if a < n {
                            assert(!player_map(before).dom().contains(id));
                            assert(before[a].player_id != id);
                        } else {
                            assert(!player_map(before).dom().contains(id));
                            assert(before[b].player_id != id);
                        }
                    }
                    assert forall|k: u64| #[trigger] self@.dom().contains(k) <==> old(self)@.insert(id, (name, tick)).dom().contains(k) by {
                        if self@.dom().contains(k) {
                            let j = choose|j: int| 0 <= j < self.entries@.len() && #[trigger] self.entries@[j].player_id == k;
                            if j < n {
                                assert(before[j].player_id == k);
                            }
                        }
                        if old(self)@.dom().contains(k) {
                            let j = choose|j: int| 0 <= j < before.len() && #[trigger] before[j].player_id == k;
                            assert(self.entries@[j].player_id == k);
                        }
                        if k == id {
                            assert(self.entries@[n].player_id == id);
                        }
                    }
                    assert forall|k: u64| #[trigger] self@.dom().contains(k) implies self@[k] == old(self)@.insert(id, (name, tick))[k] by {
                        let j = choose|j: int| 0 <= j < self.entries@.len() && #[trigger] self.entries@[j].player_id == k;
                        lemma_player_map_at(self.entries@, j);
                        if j < n {
                            assert(before[j] == self.entries@[j]);
                            lemma_player_map_at(before, j);
                        }
                    }
                    assert(self@ =~= old(self)@.insert(id, (name, tick)));
                }
            },
        }
    }

    /// Takes the player's position at a tick.
    pub fn touch(&mut self, id: u64, tick: u64)
        requires
            old(self).wf(),
        ensures
            final(self).wf(),
            old(self)@.dom().contains(id) ==> final(self)@ == old(self)@.insert(id, (old(self)@[id].0, tick)),
            !old(self)@.dom().contains(id) ==> final(self)@ == old(self)@,
    {
        if let Some(name) = self.username(id) {
            self.upsert(id, name, tick);
        }
    }

    /// Drops the player with the id.
    pub fn remove(&mut self, id: u64)
        requires
            old(self).wf(),
        ensures
            final(self).wf(),
            final(self)@ == old(self)@.remove(id),
    {
        match self.find(id) {
            Some(i) => {
                let ghost before = self.entries@;
                self.entries.remove(i);
                proof {
                    let after = self.entries@;
                    assert(after =~= before.remove(i as int));
                    assert forall|a: int, b: int|
                        0 <= a < after.len() && 0 <= b < after.len() && a != b implies after[a].player_id != after[b].player_id by {
                        let a2 = if a < i { a } else { a + 1 };
                        let b2 = if b < i { b } else { b + 1 };
                        assert(before[a2].player_id != before[b2].player_id);
                    }
                    assert forall|k: u64| #[trigger] self@.dom().contains(k) <==> old(self)@.remove(id).dom().contains(k) by {
                        if self@.dom().contains(k) {
                            let j = choose|j: int| 0 <= j < after.len() && #[trigger] after[j].player_id == k;
                            let j2 = if j < i { j } else { j + 1 };
                            assert(before[j2].player_id == k);
                            assert(k != id);
                        }
                        if old(self)@.remove(id).dom().contains(k) {
                            let j = choose|j: int| 0 <= j < before.len() && #[trigger] before[j].player_id == k;
                            assert(j != i);
                            let j2 = if j < i { j } else { j - 1 };
                            assert(after[j2].player_id == k);
                        }
                    }
                    assert forall|k: u64| #[trigger] self@.dom().contains(k) implies self@[k] == old(self)@.remove(id)[k] by {
                        let j = choose|j: int| 0 <= j < after.len() && #[trigger] after[j].player_id == k;
                        let j2 = if j < i { j } else { j + 1 };
                        lemma_player_map_at(after, j);
                        lemma_player_map_at(before, j2);
                    }
                    assert(self@ =~= old(self)@.remove(id));
                }
            },
            None => {
                assert(old(self)@.remove(id) =~= old(self)@);
            },
        }
    }

    /// The ids of the players, each once.
    pub fn ids(&self) -> (r: Vec<u64>)
        requires
            self.wf(),
        ensures
            r@.no_duplicates(),
            forall|id: u64| r@.contains(id) <==> self@.dom().contains(id),
    {
        let mut r: Vec<u64> = Vec::new();
        let mut i: usize = 0;
        while i < self.entries.len()
            invariant
                self.wf(),
                i <= self.entries@.len(),
                r@ == self.entries@.subrange(0, i as int).map_values(|e: PlayerEntry| e.player_id),
            decreases self.entries@.len() - i,
        {
            r.push(self.entries[i].player_id);
            i += 1;
            assert(r@ =~= self.entries@.subrange(0, i as int).map_values(|e: PlayerEntry| e.player_id));
        }
        proof {
            assert(self.entries@.subrange(0, i as int) =~= self.entries@);
            assert forall|id: u64| r@.contains(id) <==> self@.dom().contains(id) by {
                if r@.contains(id) {
                    let k = choose|k: int| 0 <= k < r@.len() && r@[k] == id;
                    assert(self.entries@[k].player_id == id);
                }
                if self@.dom().contains(id) {
                    let k = choose|k: int| 0 <= k < self.entries@.len() && #[trigger] self.entries@[k].player_id == id;
                    assert(r@[k] == id);
                }
            }
        }
        r
    }

    /// The players ordered by id, with their names (as `/list` shows them).
    pub fn sorted_by_id(&self) -> (r: Vec<(u64, String)>)
        requires
            self.wf(),
        ensures
            forall|a: int, b: int| 0 <= a < b < r@.len() ==> r@[a].0 < r@[b].0,
            forall|id: u64| #[trigger] listed(r@, id) <==> self@.dom().contains(id),
            forall|i: int| 0 <= i < r@.len() ==> (#[trigger] r@[i]).1@ == self@[r@[i].0].0,
    {
        let mut r: Vec<(u64, String)> = Vec::new();
        let mut i: usize = 0;
        while i < self.entries.len()
            invariant
                self.wf(),
                i <= self.entries@.len(),
                forall|a: int, b: int| 0 <= a < b < r@.len() ==> r@[a].0 < r@[b].0,
                forall|id: u64| #[trigger] listed(r@, id) <==> joined_before(self.entries@, i as int, id),
                forall|k: int| 0 <= k < r@.len() ==> (#[trigger] r@[k]).1@ == self@[r@[k].0].0,
            decreases self.entries@.len() - i,
        {
            let id = self.entries[i].player_id;
            proof {
                lemma_player_map_at(self.entries@, i as int);
                assert forall|k: int| 0 <= k < r@.len() implies r@[k].0 != id by {
                    assert(listed(r@, r@[k].0));
                    assert(joined_before(self.entries@, i as int, r@[k].0));
                    let j = choose|j: int| 0 <= j < i && #[trigger] self.entries@[j].player_id == r@[k].0;
                    assert(self.entries@[j].player_id != self.entries@[i as int].player_id);
                }
            }
            let mut k: usize = 0;
            while k < r.len() && r[k].0 < id
                invariant
                    k <= r@.len(),
                    forall|m: int| 0 <= m < k ==> r@[m].0 < id,
                decreases r@.len() - k,
            {
                k += 1;
            }
            let ghost before = r@;
            r.insert(k, (id, self.entries[i].username.clone()));
            proof {
                assert(r@ == before.insert(k as int, (id, self.entries@[i as int].username)));
                assert forall|a: int, b: int| 0 <= a < b < r@.len() implies r@[a].0 < r@[b].0 by {
                    if k < before.len() {
                        assert(before[k as int].0 >= id);
                        assert(before[k as int].0 != id);
                    }
                    if a < k && b == k {
                    } else if a < k && b > k {
                        assert(r@[b] == before[b - 1]);
                    } else if a == k && b > k {
                        assert(r@[b] == before[b - 1]);
                        if b - 1 > k {
                            assert(before[k as int].0 < before[b - 1].0);
                        }
                    } else if a > k {
                        assert(r@[a] == before[a - 1]);
                        assert(r@[b] == before[b - 1]);
                    }
                }
                assert forall|x: u64| #[trigger] listed(r@, x) <==> joined_before(self.entries@, i + 1, x) by {
                    if listed(r@, x) {
                        let m = choose|m: int| 0 <= m < r@.len() && #[trigger] r@[m].0 == x;
                        if m < k {
                            assert(before[m].0 == x);
                            assert(listed(before, x));
                        } else if m > k {
                            assert(before[m - 1].0 == x);
                            assert(listed(before, x));
                        } else {
                            assert(self.entries@[i as int].player_id == x);
                        }
                    }
                    if joined_before(self.entries@, i + 1, x) {
                        let j = choose|j: int| 0 <= j < i + 1 && #[trigger] self.entries@[j].player_id == x;
                        if j < i {
                            assert(joined_before(self.entries@, i as int, x));
                            assert(listed(before, x));
                            let m = choose|m: int| 0 <= m < before.len() && #[trigger] before[m].0 == x;
                            if m < k {
                                assert(r@[m].0 == x);
                            } else {
                                assert(r@[m + 1].0 == x);
                            }
                        } else {
                            assert(r@[k as int].0 == x);
                        }
                    }
                }
                assert forall|m: int| 0 <= m < r@.len() implies (#[trigger] r@[m]).1@ == self@[r@[m].0].0 by {
                    if m < k {
                        assert(r@[m] == before[m]);
                    } else if m > k {
                        assert(r@[m] == before[m - 1]);
                    }
                }
            }
            i += 1;
        }
        proof {
            assert forall|id: u64| #[trigger] listed(r@, id) <==> self@.dom().contains(id) by {
                if self@.dom().contains(id) {
                    let j = choose|j: int| 0 <= j < self.entries@.len() && #[trigger] self.entries@[j].player_id == id;
                    assert(self.entries@[j].player_id == id);
                }
            }
        }
        r
    }

    /// The player a console command names: a number is an id, which must have joined;
    /// anything else is a name, which exactly one player must have, without regard to ASCII
    /// case.
    pub fn resolve_player_target(&self, target: &str) -> (r: Result<u64, String>)
        requires
            self.wf(),
        ensures
            resolves_to(self@, target@, result_view(r)),
    {
        let chars = chars_of(target);
        match parse_u64(chars.as_slice()) {
            Some(id) => {
                if self.contains(id) {
                    Ok(id)
                } else {
                    let mut m = String::new();
                    m.push_str("player id ");
                    push_decimal(&mut m, id);
                    m.push_str(" is not connected");
                    assert(m@ =~= id_not_connected_text(id));
                    Err(m)
                }
            },
            None => {
                let mut first: Option<usize> = None;
                let mut i: usize = 0;
                while i < self.entries.len()
                    invariant
                        self.wf(),
                        i <= self.entries@.len(),
                        chars@ == target@,
                        parsed_u64(target@) is None,
                        first matches Some(f) ==> f < i && name_matches(self@, self.entries@[f as int].player_id, target@)
                            && forall|k: int| 0 <= k < i && name_matches(self@, #[trigger] self.entries@[k].player_id, target@)
                                ==> k == f,
                        first is None ==> forall|k: int| 0 <= k < i ==> !name_matches(self@, #[trigger] self.entries@[k].player_id, target@),
                    decreases self.entries@.len() - i,
                {
                    proof {
                        lemma_player_map_at(self.entries@, i as int);
                    }
                    let name = chars_of(self.entries[i].username.as_str());
                    if names_match(name.as_slice(), chars.as_slice()) {
                        match first {
                            Some(f) => {
                                proof {
                                    let a = self.entries@[f as int].player_id;
                                    let b = self.entries@[i as int].player_id;
                                    assert(a != b);
                                    assert(name_matches(self@, a, target@));
                                    assert(name_matches(self@, b, target@));
                                    assert(exists|x: u64, y: u64| x != y && name_matches(self@, x, target@) && name_matches(self@, y, target@));
                                }
                                let mut m = String::new();
                                m.push_str("multiple players match '");
                                m.push_str(target);
                                m.push_str("', use /list and kick by id");
                                assert(m@ =~= name_ambiguous_text(target@));
                                return Err(m);
                            },
                            None => {
                                first = Some(i);
                            },
                        }
                    }
                    i += 1;
                }
                match first {
                    Some(f) => {
                        let id = self.entries[f].player_id;
                        proof {
                            assert forall|a: u64, b: u64|
                                !(a != b && name_matches(self@, a, target@) && name_matches(self@, b, target@)) by {
                                if name_matches(self@, a, target@) {
                                    let ka = choose|k: int| 0 <= k < self.entries@.len() && #[trigger] self.entries@[k].player_id == a;
                                    assert(self.entries@[ka].player_id == a);
                                }
                                if name_matches(self@, b, target@) {
                                    let kb = choose|k: int| 0 <= k < self.entries@.len() && #[trigger] self.entries@[k].player_id == b;
                                    assert(self.entries@[kb].player_id == b);
                                }
                            }
                        }
                        Ok(id)
                    },
                    None => {
                        proof {
                            assert forall|k: u64| !name_matches(self@, k, target@) by {
                                if self@.dom().contains(k) {
                                    let j = choose|j: int| 0 <= j < self.entries@.len() && #[trigger] self.entries@[j].player_id == k;
                                    assert(self.entries@[j].player_id == k);
                                }
                            }
                        }
                        let mut m = String::new();
                        m.push_str("player '");
                        m.push_str(target);
                        m.push_str("' is not connected");
                        assert(m@ =~= name_not_connected_text(target@));
                        Err(m)
                    },
                }
            },
        }
    }
}

/// Whether two names are equal without regard to ASCII case.
fn names_match(a: &[char], b: &[char]) -> (r: bool)
    ensures
        r == eq_ignore_ascii_case(a@, b@),
{
    if a.len() != b.len() {
        assert(ascii_lowercase(a@).len() != ascii_lowercase(b@).len());
        return false;
    }
    let mut i: usize = 0;
    while i < a.len()
        invariant
            a@.len() == b@.len(),
            i <= a@.len(),
            forall|j: int| 0 <= j < i ==> ascii_lower(a@[j]) == ascii_lower(b@[j]),
        decreases a@.len() - i,
    {
        let x = lower(a[i]);
        let y = lower(b[i]);
        if x != y {
            assert(ascii_lowercase(a@)[i as int] != ascii_lowercase(b@)[i as int]);
            return false;
        }
        i += 1;
    }
    assert(ascii_lowercase(a@) =~= ascii_lowercase(b@));
    true
}

fn lower(c: char) -> (r: char)
    ensures
        r == ascii_lower(c),
{
    if 'A' <= c && c <= 'Z' {
        let v: u8 = (c as u32 + 32) as u8;
        v as char
    } else {
        c
    }
}

/// Whether a chunk is among those sent to a player standing in the chunk `center`: at most
/// 12 chunks away along x and z, and from 2 below to 1 above along y.
pub open spec fn in_stream_range(center: ChunkPos, pos: ChunkPos) -> bool {
    &&& center.x - CHUNK_STREAM_HORIZONTAL_RADIUS <= pos.x <= center.x + CHUNK_STREAM_HORIZONTAL_RADIUS
    &&& center.z - CHUNK_STREAM_HORIZONTAL_RADIUS <= pos.z <= center.z + CHUNK_STREAM_HORIZONTAL_RADIUS
    &&& center.y - CHUNK_STREAM_VERTICAL_BELOW <= pos.y <= center.y + CHUNK_STREAM_VERTICAL_ABOVE
}

/// The streaming area around `center` lies within the range of chunk coordinates.
pub open spec fn stream_area_fits(center: ChunkPos) -> bool {
    &&& i32::MIN + CHUNK_STREAM_HORIZONTAL_RADIUS <= center.x <= i32::MAX - CHUNK_STREAM_HORIZONTAL_RADIUS
    &&& i32::MIN + CHUNK_STREAM_HORIZONTAL_RADIUS <= center.z <= i32::MAX - CHUNK_STREAM_HORIZONTAL_RADIUS
    &&& i32::MIN + CHUNK_STREAM_VERTICAL_BELOW <= center.y <= i32::MAX - CHUNK_STREAM_VERTICAL_ABOVE
}

/// Whether a chunk is among those sent to a player standing in the chunk `center`.
pub fn is_in_stream_range(center: ChunkPos, pos: ChunkPos) -> (r: bool)
    ensures
        r == in_stream_range(center, pos),
{
    let (cx, cy, cz) = (center.x as i64, center.y as i64, center.z as i64);
    let (px, py, pz) = (pos.x as i64, pos.y as i64, pos.z as i64);
    cx - 12 <= px && px <= cx + 12 && cz - 12 <= pz && pz <= cz + 12 && cy - 2 <= py && py <= cy + 1
}

/// The `i`-th chunk of the streaming area around `center`: y outermost from the lowest
/// layer, then z, then x.
pub open spec fn stream_target(center: ChunkPos, i: int) -> ChunkPos {
    ChunkPos {
        x: (center.x - 12 + i % 25) as i32,
        y: (center.y - 2 + i / 625) as i32,
        z: (center.z - 12 + (i / 25) % 25) as i32,
    }
}

/// The chunks sent to a player standing in the chunk `center`, in the order they are listed:
/// each layer from the lowest, each row from the smallest z, each from the smallest x.
pub fn gather_stream_targets(center: ChunkPos) -> (r: Vec<ChunkPos>)
    requires
        stream_area_fits(center),
    ensures
        r@.len() == 2500,
        forall|i: int| 0 <= i < 2500 ==> #[trigger] r@[i] == stream_target(center, i),
        forall|p: ChunkPos| r@.contains(p) <==> in_stream_range(center, p),
        r@.no_duplicates(),
{
    let mut r: Vec<ChunkPos> = Vec::new();
    let mut yi: i32 = 0;
    while yi < 4
        invariant
            stream_area_fits(center),
            0 <= yi <= 4,
            r@.len() == yi * 625,
            forall|i: int| 0 <= i < r@.len() ==> #[trigger] r@[i] == stream_target(center, i),
        decreases 4 - yi,
    {
        let mut zi: i32 = 0;
        while zi < 25
            invariant
                stream_area_fits(center),
                0 <= yi < 4,
                0 <= zi <= 25,
                r@.len() == yi * 625 + zi * 25,
                forall|i: int| 0 <= i < r@.len() ==> #[trigger] r@[i] == stream_target(center, i),
            decreases 25 - zi,
        {
            let mut xi: i32 = 0;
            while xi < 25
                invariant
                    stream_area_fits(center),
                    0 <= yi < 4,
                    0 <= zi < 25,
                    0 <= xi <= 25,
                    r@.len() == yi * 625 + zi * 25 + xi,
                    forall|i: int| 0 <= i < r@.len() ==> #[trigger] r@[i] == stream_target(center, i),
                decreases 25 - xi,
            {
                let ghost n = r@.len() as int;
                proof {
                    assert(n % 25 == xi as int) by (nonlinear_arith)
                        requires n == yi * 625 + zi * 25 + xi, 0 <= xi < 25, 0 <= zi < 25, 0 <= yi < 4;
                    assert(n / 625 == yi as int) by (nonlinear_arith)
                        requires n == yi * 625 + zi * 25 + xi, 0 <= xi < 25, 0 <= zi < 25, 0 <= yi < 4;
                    assert((n / 25) % 25 == zi as int) by (nonlinear_arith)
                        requires n == yi * 625 + zi * 25 + xi, 0 <= xi < 25, 0 <= zi < 25, 0 <= yi < 4;
                }
                r.push(ChunkPos { x: center.x - 12 + xi, y: center.y - 2 + yi, z: center.z - 12 + zi });
                xi += 1;
            }
            zi += 1;
        }
        yi += 1;
    }
    proof {
        assert forall|p: ChunkPos| r@.contains(p) <==> in_stream_range(center, p) by {
            if r@.contains(p) {
                let i = choose|i: int| 0 <= i < r@.len() && r@[i] == p;
                assert(r@[i] == stream_target(center, i));
                assert(0 <= i % 25 < 25);
                assert(0 <= i / 625 < 4) by (nonlinear_arith) requires 0 <= i < 2500;
                assert(0 <= (i / 25) % 25 < 25);
            }
            if in_stream_range(center, p) {
                let i = ((p.y - center.y + 2) * 625 + (p.z - center.z + 12) * 25 + (p.x - center.x + 12)) as int;
                let (a, b, c) = ((p.y - center.y + 2) as int, (p.z - center.z + 12) as int, (p.x - center.x + 12) as int);
                assert(i % 25 == c && i / 625 == a && (i / 25) % 25 == b && 0 <= i < 2500) by (nonlinear_arith)
                    requires i == a * 625 + b * 25 + c, 0 <= a < 4, 0 <= b < 25, 0 <= c < 25;
                assert(r@[i] == p);
            }
        }
        assert forall|a: int, b: int| 0 <= a < r@.len() && 0 <= b < r@.len() && a != b implies r@[a] != r@[b] by {
            assert(r@[a] == stream_target(center, a));
            assert(r@[b] == stream_target(center, b));
            assert(a == (a / 625) * 625 + ((a / 25) % 25) * 25 + a % 25) by (nonlinear_arith)
                requires 0 <= a;
            assert(b == (b / 625) * 625 + ((b / 25) % 25) * 25 + b % 25) by (nonlinear_arith)
                requires 0 <= b;
        }
    }
    r
}

/// What a handshake decides.
#[derive(Debug)]
pub enum HandshakeOutcome {
    /// The client speaks another protocol version; tell it why and disconnect it.
    Reject { reason: String },
    /// The player is in. When it has just joined, the players in `announce_to` hear of it.
    Accept { joined: bool, announce_to: Vec<u64> },
}

/// What a player's movement input decides.
#[derive(Debug, Clone, Copy, PartialEq, Eq)]
pub enum InputOutcome {
    /// The client has not completed its handshake: the input is ignored.
    Ignored,
    /// No player state is kept for the client.
    NoPlayer,
    /// The player may move this many ticks' worth; its position is taken at this tick.
    Moved { elapsed_ticks: u64 },
}

/// Who a chat message goes to, and under which name.
#[derive(Debug)]
pub struct ChatRoute {
    pub sender_name: String,
    pub recipients: Vec<u64>,
}

/// The reason given for refusing a handshake.
pub open spec fn version_mismatch_text(version: u32, expected: u32) -> Seq<char> {
    "Unsupported protocol version "@ + decimal(version as nat) + ", expected "@ + decimal(expected as nat)
}

/// Why a block edit is refused before its distance is looked at, if it is.
pub open spec fn block_edit_refusal(handshaken: bool, block_is_valid: bool, block_id: u16, has_player: bool) -> Option<Seq<char>> {
    if !handshaken {
        Some("handshake required before editing blocks"@)
    } else if !block_is_valid {
        Some("invalid block id "@ + decimal(block_id as nat))
    } else if !has_player {
        Some("player state not found"@)
    } else {
        None
    }
}

proof fn lemma_push_contains_u64(s: Seq<u64>, x: u64, a: u64)
    ensures
        s.push(x).contains(a) <==> (s.contains(a) || a == x),
{
    if s.push(x).contains(a) {
        let k = choose|k: int| 0 <= k < s.push(x).len() && s.push(x)[k] == a;
        if k < s.len() {
            assert(s[k] == a);
        }
    }
    if s.contains(a) {
        let k = choose|k: int| 0 <= k < s.len() && s[k] == a;
        assert(s.push(x)[k] == a);
    }
    if a == x {
        assert(s.push(x)[s.len() as int] == x);
    }
}

fn contains_id(v: &Vec<u64>, id: u64) -> (r: bool)
    ensures
        r == v@.contains(id),
{
    let mut i: usize = 0;
    while i < v.len()
        invariant
            i <= v@.len(),
            forall|k: int| 0 <= k < i ==> v@[k] != id,
        decreases v@.len() - i,
    {
        if v[i] == id {
            assert(v@[i as int] == id);
            return true;
        }
        i += 1;
    }
    false
}

fn contains_pair(v: &Vec<(u64, ChunkPos)>, client: u64, pos: ChunkPos) -> (r: bool)
    ensures
        r == v@.contains((client, pos)),
{
    let mut i: usize = 0;
    while i < v.len()
        invariant
            i <= v@.len(),
            forall|k: int| 0 <= k < i ==> v@[k] != (client, pos),
        decreases v@.len() - i,
    {
        if v[i].0 == client && v[i].1 == pos {
            assert(v@[i as int] == (client, pos));
            return true;
        }
        i += 1;
    }
    false
}

/// The ids in `v` other than `id`, in order.
fn ids_except(v: &Vec<u64>, id: u64) -> (r: Vec<u64>)
    requires
        v@.no_duplicates(),
    ensures
        r@.no_duplicates(),
        forall|k: u64| r@.contains(k) <==> (v@.contains(k) && k != id),
{
    let mut r: Vec<u64> = Vec::new();
    let mut i: usize = 0;
    while i < v.len()
        invariant
            v@.no_duplicates(),
            i <= v@.len(),
            r@.no_duplicates(),
            forall|k: u64| r@.contains(k) <==> (v@.subrange(0, i as int).contains(k) && k != id),
        decreases v@.len() - i,
    {
        let x = v[i];
        proof {
            assert forall|k: u64| v@.subrange(0, i + 1).contains(k) <==> (v@.subrange(0, i as int).contains(k) || k == x) by {
                assert(v@.subrange(0, i + 1) =~= v@.subrange(0, i as int).push(x));
                lemma_push_contains_u64(v@.subrange(0, i as int), x, k);
            }
        }
        if x != id {
            let ghost before = r@;
            proof {
                if before.contains(x) {
                    let k = choose|k: int| 0 <= k < i && v@.subrange(0, i as int)[k] == x;
                    assert(v@[k] == v@[i as int]);
                }
            }
            r.push(x);
            proof {
                assert forall|k: u64| r@.contains(k) <==> (v@.subrange(0, i + 1).contains(k) && k != id) by {
                    lemma_push_contains_u64(before, x, k);
                }
                assert forall|a: int, b: int| 0 <= a < b < r@.len() implies r@[a] != r@[b] by {
                    if b == before.len() {
                        assert(before.contains(before[a]));
                    }
                }
            }
        }
        i += 1;
    }
    assert(v@.subrange(0, i as int) =~= v@);
    r
}

/// The server's record of its players and of the chunks each has been sent.
pub struct Session {
    players: PlayerRoster,
    handshaken: Vec<u64>,
    sent: Vec<(u64, ChunkPos)>,
    tick: u64,
}

impl Session {
    /// The players who have joined, by id, with their names and the tick their position was
    /// last taken at.
    pub closed spec fn players(&self) -> Map<u64, (Seq<char>, u64)> {
        self.players@
    }

    /// The clients that completed their handshake.
    pub closed spec fn handshaken_set(&self) -> Set<u64> {
        self.handshaken@.to_set()
    }

    /// Which player holds which chunk.
    pub closed spec fn sent_set(&self) -> Set<(u64, ChunkPos)> {
        self.sent@.to_set()
    }

    /// The server's tick.
    pub closed spec fn spec_tick(&self) -> u64 {
        self.tick
    }

    /// Each player, client and (player, chunk) pair is held once.
    pub closed spec fn wf(&self) -> bool {
        &&& self.players.wf()
        &&& self.handshaken@.no_duplicates()
        &&& self.sent@.no_duplicates()
    }

    /// A session with no player, at tick 0.
    pub fn new() -> (r: Session)
        ensures
            r.wf(),
            r.players() == Map::<u64, (Seq<char>, u64)>::empty(),
            r.handshaken_set() == Set::<u64>::empty(),
            r.sent_set() == Set::<(u64, ChunkPos)>::empty(),
            r.spec_tick() == 0,
    {
        let r = Session { players: PlayerRoster::new(), handshaken: Vec::new(), sent: Vec::new(), tick: 0 };
        assert(r.handshaken@.to_set() =~= Set::<u64>::empty());
        assert(r.sent@.to_set() =~= Set::<(u64, ChunkPos)>::empty());
        r
    }

    /// The server's tick.
    pub fn tick(&self) -> (r: u64)
        ensures
            r == self.spec_tick(),
    {
        self.tick
    }

    /// The roster of players.
    pub fn roster(&self) -> (r: &PlayerRoster)
        requires
            self.wf(),
        ensures
            r.wf(),
            r@ == self.players(),
    {
        &self.players
    }

    /// Moves on to the next tick and says what to do on it.
    pub fn advance_tick(&mut self) -> (r: TickActions)
        requires
            old(self).wf(),
            old(self).spec_tick() < u64::MAX,
        ensures
            final(self).wf(),
            final(self).spec_tick() == old(self).spec_tick() + 1,
            r == tick_actions_spec(final(self).spec_tick()),
            final(self).players() == old(self).players(),
            final(self).handshaken_set() == old(self).handshaken_set(),
            final(self).sent_set() == old(self).sent_set(),
    {
        self.tick = self.tick + 1;
        tick_actions(self.tick)
    }

    /// Whether the client completed its handshake.
    pub fn is_handshaken(&self, client: u64) -> (r: bool)
        ensures
            r == self.handshaken_set().contains(client),
    {
        contains_id(&self.handshaken, client)
    }

    /// The clients that completed their handshake, each once.
    pub fn handshaken_ids(&self) -> (r: Vec<u64>)
        requires
            self.wf(),
        ensures
            r@.no_duplicates(),
            r@.to_set() == self.handshaken_set(),
    {
        self.handshaken.clone()
    }

    /// A client asks to join with a name and the protocol version it speaks. With the
    /// expected version the player is recorded as standing at the spawn point now and, on
    /// its first handshake, the other players are told.
    pub fn handshake(&mut self, client: u64, username: String, protocol_version: u32, expected_version: u32) -> (r: HandshakeOutcome)
        requires
            old(self).wf(),
        ensures
            final(self).wf(),
            final(self).spec_tick() == old(self).spec_tick(),
            final(self).sent_set() == old(self).sent_set(),
            protocol_version != expected_version ==> {
                &&& r matches HandshakeOutcome::Reject { reason } && reason@ == version_mismatch_text(protocol_version, expected_version)
                &&& final(self).players() == old(self).players()
                &&& final(self).handshaken_set() == old(self).handshaken_set()
            },
            protocol_version == expected_version ==> {
                &&& r matches HandshakeOutcome::Accept { joined, announce_to }
                &&& joined == !old(self).handshaken_set().contains(client)
                &&& final(self).players() == old(self).players().insert(client, (username@, old(self).spec_tick()))
                &&& final(self).handshaken_set() == old(self).handshaken_set().insert(client)
                &&& announce_to@.no_duplicates()
                &&& forall|k: u64| #[trigger] announce_to@.contains(k) <==> (joined
                    && final(self).players().dom().contains(k) && k != client)
            },
    {
        if protocol_version != expected_version {
            let mut reason = String::new();
            reason.push_str("Unsupported protocol version ");
            push_decimal(&mut reason, protocol_version as u64);
            reason.push_str(", expected ");
            push_decimal(&mut reason, expected_version as u64);
            assert(reason@ =~= version_mismatch_text(protocol_version, expected_version));
            return HandshakeOutcome::Reject { reason };
        }
        self.players.upsert(client, username, self.tick);
        let joined = !contains_id(&self.handshaken, client);
        let mut announce_to: Vec<u64> = Vec::new();
        if joined {
            let ghost before = self.handshaken@;
            self.handshaken.push(client);
            proof {
                assert forall|a: int, b: int| 0 <= a < b < self.handshaken@.len() implies self.handshaken@[a] != self.handshaken@[b] by {
                    if b == before.len() {
                        assert(before.contains(before[a]));
                    }
                }
                assert forall|k: u64| self.handshaken@.to_set().contains(k) <==> before.to_set().insert(client).contains(k) by {
                    lemma_push_contains_u64(before, client, k);
                }
                assert(self.handshaken@.to_set() =~= before.to_set().insert(client));
            }
            let ids = self.players.ids();
            announce_to = ids_except(&ids, client);
        } else {
            assert(old(self).handshaken_set().insert(client) =~= old(self).handshaken_set());
        }
        HandshakeOutcome::Accept { joined, announce_to }
    }

    /// A client is gone: it is forgotten, and when it had joined, the players in the result
    /// are told.
    pub fn disconnect(&mut self, client: u64) -> (r: Vec<u64>)
        requires
            old(self).wf(),
        ensures
            final(self).wf(),
            final(self).spec_tick() == old(self).spec_tick(),
            final(self).players() == old(self).players().remove(client),
            final(self).handshaken_set() == old(self).handshaken_set().remove(client),
            forall|e: (u64, ChunkPos)| #[trigger] final(self).sent_set().contains(e) <==> (old(self).sent_set().contains(e) && e.0 != client),
            r@.no_duplicates(),
            old(self).handshaken_set().contains(client) ==> r@.to_set() == final(self).handshaken_set(),
            !old(self).handshaken_set().contains(client) ==> r@.len() == 0,
    {
        self.players.remove(client);
        let was_handshaken = contains_id(&self.handshaken, client);
        let remaining = ids_except(&self.handshaken, client);
        proof {
            assert(remaining@.to_set() =~= old(self).handshaken_set().remove(client));
        }
        self.handshaken = remaining;
        let mut kept: Vec<(u64, ChunkPos)> = Vec::new();
        let mut i: usize = 0;
        while i < self.sent.len()
            invariant
                i <= self.sent@.len(),
                self.sent@ == old(self).sent@,
                self.sent@.no_duplicates(),
                kept@.no_duplicates(),
                forall|e: (u64, ChunkPos)| kept@.contains(e) <==> (self.sent@.subrange(0, i as int).contains(e) && e.0 != client),
            decreases self.sent@.len() - i,
        {
            let e = self.sent[i];
            let ghost pre = self.sent@.subrange(0, i as int);
            let ghost before = kept@;
            proof {
                lemma_prefix_push(self.sent@, i as int);
                if e.0 != client && before.contains(e) {
                    let k = choose|k: int| 0 <= k < pre.len() && pre[k] == e;
                    assert(self.sent@[k] == self.sent@[i as int]);
                }
            }
            if e.0 != client {
                kept.push(e);
                proof {
                    lemma_push_no_duplicates(before, e);
                }
            }
            proof {
                assert forall|x: (u64, ChunkPos)| kept@.contains(x) <==> (pre.push(e).contains(x) && x.0 != client) by {
                    lemma_push_contains(pre, e, x);
                    if e.0 != client {
                        lemma_push_contains(before, e, x);
                    }
                }
            }
            i += 1;
        }
        assert(self.sent@.subrange(0, i as int) =~= self.sent@);
        self.sent = kept;
        if was_handshaken {
            self.handshaken.clone()
        } else {
            Vec::new()
        }
    }

    /// Records that a player was sent a chunk.
    pub fn record_chunk_sent(&mut self, client: u64, pos: ChunkPos)
        requires
            old(self).wf(),
        ensures
            final(self).wf(),
            final(self).sent_set() == old(self).sent_set().insert((client, pos)),
            final(self).players() == old(self).players(),
            final(self).handshaken_set() == old(self).handshaken_set(),
            final(self).spec_tick() == old(self).spec_tick(),
    {
        if contains_pair(&self.sent, client, pos) {
            assert(old(self).sent_set().insert((client, pos)) =~= old(self).sent_set());
            return;
        }
        let ghost before = self.sent@;
        self.sent.push((client, pos));
        proof {
            assert forall|a: int, b: int| 0 <= a < b < self.sent@.len() implies self.sent@[a] != self.sent@[b] by {
                if b == before.len() {
                    assert(before[a] != (client, pos));
                }
            }
            assert forall|e: (u64, ChunkPos)| self.sent@.to_set().contains(e) <==> before.to_set().insert((client, pos)).contains(e) by {
                if self.sent@.contains(e) {
                    let k = choose|k: int| 0 <= k < self.sent@.len() && self.sent@[k] == e;
                    if k < before.len() {
                        assert(before[k] == e);
                    }
                }
                if before.contains(e) {
                    let k = choose|k: int| 0 <= k < before.len() && before[k] == e;
                    assert(self.sent@[k] == e);
                }
                assert(self.sent@[before.len() as int] == (client, pos));
            }
            assert(self.sent@.to_set() =~= before.to_set().insert((client, pos)));
        }
    }

    /// The players that hold a chunk, each once.
    pub fn chunk_recipients(&self, pos: ChunkPos) -> (r: Vec<u64>)
        requires
            self.wf(),
        ensures
            r@.no_duplicates(),
            forall|c: u64| #[trigger] r@.contains(c) <==> self.sent_set().contains((c, pos)),
    {
        let mut r: Vec<u64> = Vec::new();
        let mut i: usize = 0;
        while i < self.sent.len()
            invariant
                self.wf(),
                i <= self.sent@.len(),
                r@.no_duplicates(),
                forall|c: u64| #[trigger] r@.contains(c) <==> self.sent@.subrange(0, i as int).contains((c, pos)),
            decreases self.sent@.len() - i,
        {
            let e = self.sent[i];
            let ghost pre = self.sent@.subrange(0, i as int);
            assert(self.sent@.subrange(0, i + 1) =~= pre.push(e));
            if e.1 == pos {
                let ghost before = r@;
                proof {
                    if before.contains(e.0) {
                        let k = choose|k: int| 0 <= k < pre.len() && pre[k] == (e.0, pos);
                        assert(self.sent@[k] == self.sent@[i as int]);
                    }
                }
                r.push(e.0);
                proof {
                    assert forall|a: int, b: int| 0 <= a < b < r@.len() implies r@[a] != r@[b] by {
                        if b == before.len() {
                            assert(before.contains(before[a]));
                        }
                    }
                    assert forall|c: u64| #[trigger] r@.contains(c) <==> pre.push(e).contains((c, pos)) by {
                        lemma_push_contains_u64(before, e.0, c);
                        if pre.push(e).contains((c, pos)) {
                            let k = choose|k: int| 0 <= k < pre.push(e).len() && pre.push(e)[k] == (c, pos);
                            if k < pre.len() {
                                assert(pre[k] == (c, pos));
                            }
                        }
                        if pre.contains((c, pos)) {
                            let k = choose|k: int| 0 <= k < pre.len() && pre[k] == (c, pos);
                            assert(pre.push(e)[k] == (c, pos));
                        }
                        assert(pre.push(e)[pre.len() as int] == e);
                    }
                }
            } else {
                proof {
                    assert forall|c: u64| #[trigger] r@.contains(c) <==> pre.push(e).contains((c, pos)) by {
                        if pre.push(e).contains((c, pos)) {
                            let k = choose|k: int| 0 <= k < pre.push(e).len() && pre.push(e)[k] == (c, pos);
                            if k < pre.len() {
                                assert(pre[k] == (c, pos));
                            }
                        }
                        if pre.contains((c, pos)) {
                            let k = choose|k: int| 0 <= k < pre.len() && pre[k] == (c, pos);
                            assert(pre.push(e)[k] == (c, pos));
                        }
                    }
                }
            }
            i += 1;
        }
        assert(self.sent@.subrange(0, i as int) =~= self.sent@);
        r
    }

    /// The chunks to take back from a player who now stands in the chunk `center`: those it
    /// holds outside the streaming area, which it no longer holds afterwards. A client with
    /// no player state gives none.
    pub fn take_unloads(&mut self, client: u64, center: ChunkPos) -> (r: Vec<ChunkPos>)
        requires
            old(self).wf(),
        ensures
            final(self).wf(),
            r@.no_duplicates(),
            !old(self).players().dom().contains(client) ==> r@.len() == 0 && final(self).sent_set() == old(self).sent_set(),
            old(self).players().dom().contains(client) ==> {
                &&& forall|p: ChunkPos| #[trigger] r@.contains(p) <==> (old(self).sent_set().contains((client, p))
                    && !in_stream_range(center, p))
                &&& forall|e: (u64, ChunkPos)| #[trigger] final(self).sent_set().contains(e) <==> (old(self).sent_set().contains(e)
                    && !(e.0 == client && !in_stream_range(center, e.1)))
            },
            final(self).players() == old(self).players(),
            final(self).handshaken_set() == old(self).handshaken_set(),
            final(self).spec_tick() == old(self).spec_tick(),
    {
        if !self.players.contains(client) {
            return Vec::new();
        }
        let mut unload: Vec<ChunkPos> = Vec::new();
        let mut kept: Vec<(u64, ChunkPos)> = Vec::new();
        let mut i: usize = 0;
        while i < self.sent.len()
            invariant
                i <= self.sent@.len(),
                self.sent@ == old(self).sent@,
                self.sent@.no_duplicates(),
                kept@.no_duplicates(),
                unload@.no_duplicates(),
                forall|e: (u64, ChunkPos)| #[trigger] kept@.contains(e) <==> (self.sent@.subrange(0, i as int).contains(e)
                    && !(e.0 == client && !in_stream_range(center, e.1))),
                forall|p: ChunkPos| #[trigger] unload@.contains(p) <==> (self.sent@.subrange(0, i as int).contains((client, p))
                    && !in_stream_range(center, p)),
            decreases self.sent@.len() - i,
        {
            let e = self.sent[i];
            let ghost pre = self.sent@.subrange(0, i as int);
            let ghost kept_before = kept@;
            let ghost unload_before = unload@;
            proof {
                lemma_prefix_push(self.sent@, i as int);
                if pre.contains(e) {
                    let k = choose|k: int| 0 <= k < pre.len() && pre[k] == e;
                    assert(self.sent@[k] == self.sent@[i as int]);
                }
            }
            if e.0 == client && !is_in_stream_range(center, e.1) {
                proof {
                    if unload_before.contains(e.1) {
                        assert(pre.contains((client, e.1)));
                    }
                }
                unload.push(e.1);
                proof {
                    lemma_push_no_duplicates(unload_before, e.1);
                }
            } else {
                proof {
                    if kept_before.contains(e) {
                        assert(pre.contains(e));
                    }
                }
                kept.push(e);
                proof {
                    lemma_push_no_duplicates(kept_before, e);
                }
            }
            proof {
                assert forall|x: (u64, ChunkPos)| #[trigger] kept@.contains(x) <==> (pre.push(e).contains(x)
                    && !(x.0 == client && !in_stream_range(center, x.1))) by {
                    lemma_push_contains(pre, e, x);
                    lemma_push_contains(kept_before, e, x);
                }
                assert forall|p: ChunkPos| #[trigger] unload@.contains(p) <==> (pre.push(e).contains((client, p))
                    && !in_stream_range(center, p)) by {
                    lemma_push_contains(pre, e, (client, p));
                    lemma_push_contains(unload_before, e.1, p);
                    if p == e.1 && e.0 == client {
                        assert((client, p) == e);
                    }
                    if (client, p) == e {
                        assert(p == e.1 && e.0 == client);
                    }
                }
            }
            i += 1;
        }
        assert(self.sent@.subrange(0, i as int) =~= self.sent@);
        self.sent = kept;
        unload
    }

    /// A player's movement input. A handshaken player's position is taken at this tick, and
    /// it may have moved the ticks' worth given back.
    pub fn player_input(&mut self, client: u64) -> (r: InputOutcome)
        requires
            old(self).wf(),
        ensures
            final(self).wf(),
            final(self).handshaken_set() == old(self).handshaken_set(),
            final(self).sent_set() == old(self).sent_set(),
            final(self).spec_tick() == old(self).spec_tick(),
            !old(self).handshaken_set().contains(client) ==> r is Ignored && final(self).players() == old(self).players(),
            old(self).handshaken_set().contains(client) && !old(self).players().dom().contains(client)
                ==> r is NoPlayer && final(self).players() == old(self).players(),
            old(self).handshaken_set().contains(client) && old(self).players().dom().contains(client) ==> {
                let last = old(self).players()[client].1;
                let now = old(self).spec_tick();
                &&& r matches InputOutcome::Moved { elapsed_ticks } && elapsed_ticks == if now > last && now - last > 1 {
                    (now - last) as u64
                } else {
                    1u64
                }
                &&& final(self).players() == old(self).players().insert(client, (old(self).players()[client].0, now))
            },
    {
        if !self.is_handshaken(client) {
            return InputOutcome::Ignored;
        }
        match self.players.last_position_tick(client) {
            None => InputOutcome::NoPlayer,
            Some(last) => {
                let elapsed = elapsed_ticks(self.tick, last);
                self.players.touch(client, self.tick);
                InputOutcome::Moved { elapsed_ticks: elapsed }
            },
        }
    }

    /// Who a chat message from a client goes to: every player, under the sender's name (empty
    /// when it has none); nobody when the client has not completed its handshake.
    pub fn chat_route(&self, client: u64) -> (r: Option<ChatRoute>)
        requires
            self.wf(),
        ensures
            r is None <==> !self.handshaken_set().contains(client),
            r matches Some(route) ==> {
                &&& route.sender_name@ == if self.players().dom().contains(client) {
                    self.players()[client].0
                } else {
                    Seq::<char>::empty()
                }
                &&& route.recipients@.no_duplicates()
                &&& forall|k: u64| #[trigger] route.recipients@.contains(k) <==> self.players().dom().contains(k)
            },
    {
        if !self.is_handshaken(client) {
            return None;
        }
        let sender_name = match self.players.username(client) {
            Some(n) => n,
            None => String::new(),
        };
        Some(ChatRoute { sender_name, recipients: self.players.ids() })
    }

    /// Why a block edit from a client is refused before its distance is looked at: no
    /// handshake, an unknown block, or no player state.
    pub fn block_edit_refusal(&self, client: u64, block_id: u16, block_is_valid: bool) -> (r: Option<String>)
        requires
            self.wf(),
        ensures
            match block_edit_refusal(
                self.handshaken_set().contains(client),
                block_is_valid,
                block_id,
                self.players().dom().contains(client),
            ) {
                Some(m) => r matches Some(s) && s@ == m,
                None => r is None,
            },
    {
        let mut m = String::new();
        if !self.is_handshaken(client) {
            m.push_str("handshake required before editing blocks");
            assert(m@ =~= "handshake required before editing blocks"@);
            Some(m)
        } else if !block_is_valid {
            m.push_str("invalid block id ");
            push_decimal(&mut m, block_id as u64);
            assert(m@ =~= "invalid block id "@ + decimal(block_id as nat));
            Some(m)
        } else if !self.players.contains(client) {
            m.push_str("player state not found");
            assert(m@ =~= "player state not found"@);
            Some(m)
        } else {
            None
        }
    }

    /// The name a player is logged under: its name, or `Player<id>` when it has none.
    pub fn display_name(&self, client: u64) -> (r: String)
        requires
            self.wf(),
        ensures
            r@ == if self.players().dom().contains(client) {
                self.players()[client].0
            } else {
                "Player"@ + decimal(client as nat)
            },
    {
        match self.players.username(client) {
            Some(n) => n,
            None => {
                let mut m = String::new();
                m.push_str("Player");
                push_decimal(&mut m, client as u64);
                assert(m@ =~= "Player"@ + decimal(client as nat));
                m
            },
        }
    }

    /// Takes a player's position at this tick (after a teleport).
    pub fn touch_player(&mut self, client: u64)
        requires
            old(self).wf(),
        ensures
            final(self).wf(),
            old(self).players().dom().contains(client) ==> final(self).players() == old(self).players().insert(
                client,
                (old(self).players()[client].0, old(self).spec_tick()),
            ),
            !old(self).players().dom().contains(client) ==> final(self).players() == old(self).players(),
            final(self).handshaken_set() == old(self).handshaken_set(),
            final(self).sent_set() == old(self).sent_set(),
            final(self).spec_tick() == old(self).spec_tick(),
    {
        self.players.touch(client, self.tick);
    }

}

/// What the server does on a given tick.
pub open spec fn tick_actions_spec(tick: u64) -> TickActions {
    TickActions {
        water: tick % WATER_TICK_INTERVAL_TICKS == 0,
        save: tick % SAVE_INTERVAL_TICKS == 0,
        time_sync: tick % TIME_SYNC_INTERVAL_TICKS == 0,
    }
}

/// The offset in its chunk of a changed block, with the block.
pub open spec fn local_change(c: (WorldPos, BlockId)) -> (LocalPos, BlockId) {
    (
        LocalPos {
            x: spec_local_coord(c.0.x as int) as u8,
            y: spec_local_coord(c.0.y as int) as u8,
            z: spec_local_coord(c.0.z as int) as u8,
        },
        c.1,
    )
}

/// The order of changes within a chunk: by y, then z, then x.
pub open spec fn yzx_key(l: LocalPos) -> int {
    l.y as int * 65536 + l.z as int * 256 + l.x as int
}

/// `s`, sorted by `yzx_key`, with `e` put after every element whose key is not greater.
pub open spec fn insert_sorted(s: Seq<(LocalPos, BlockId)>, e: (LocalPos, BlockId)) -> Seq<(LocalPos, BlockId)>
    decreases s.len(),
{
    if s.len() == 0 || yzx_key(s.last().0) <= yzx_key(e.0) {
        s.push(e)
    } else {
        insert_sorted(s.drop_last(), e).push(s.last())
    }
}

/// `s` sorted by `yzx_key`, elements with equal keys keeping their order (a stable sort).
pub open spec fn stable_sort(s: Seq<(LocalPos, BlockId)>) -> Seq<(LocalPos, BlockId)>
    decreases s.len(),
{
    if s.len() == 0 {
        s
    } else {
        insert_sorted(stable_sort(s.drop_last()), s.last())
    }
}

/// The chunks that the changes fall in, each once, in the order they first appear.
pub open spec fn chunk_order(s: Seq<(WorldPos, BlockId)>) -> Seq<ChunkPos>
    decreases s.len(),
{
    if s.len() == 0 {
        Seq::empty()
    } else {
        let r = chunk_order(s.drop_last());
        if r.contains(chunk_of(s.last().0)) {
            r
        } else {
            r.push(chunk_of(s.last().0))
        }
    }
}

/// The changes that fall in chunk `c`, in order, by their offsets in it.
pub open spec fn changes_in(s: Seq<(WorldPos, BlockId)>, c: ChunkPos) -> Seq<(LocalPos, BlockId)>
    decreases s.len(),
{
    if s.len() == 0 {
        Seq::empty()
    } else {
        let r = changes_in(s.drop_last(), c);
        if chunk_of(s.last().0) == c {
            r.push(local_change(s.last()))
        } else {
            r
        }
    }
}

proof fn lemma_changes_in_absent(s: Seq<(WorldPos, BlockId)>, c: ChunkPos)
    requires
        !chunk_order(s).contains(c),
    ensures
        changes_in(s, c) == Seq::<(LocalPos, BlockId)>::empty(),
    decreases s.len(),
{
    if s.len() > 0 {
        let r = chunk_order(s.drop_last());
        if r.contains(c) {
            assert(chunk_order(s).contains(c)) by {
                if !r.contains(chunk_of(s.last().0)) {
                    lemma_push_contains(r, chunk_of(s.last().0), c);
                }
            }
        }
        if chunk_of(s.last().0) == c {
            if r.contains(chunk_of(s.last().0)) {
            } else {
                lemma_push_contains(r, chunk_of(s.last().0), c);
            }
        }
        lemma_changes_in_absent(s.drop_last(), c);
    }
}

proof fn lemma_chunk_order_unique(s: Seq<(WorldPos, BlockId)>)
    ensures
        chunk_order(s).no_duplicates(),
    decreases s.len(),
{
    if s.len() > 0 {
        lemma_chunk_order_unique(s.drop_last());
        let r = chunk_order(s.drop_last());
        if !r.contains(chunk_of(s.last().0)) {
            lemma_push_no_duplicates(r, chunk_of(s.last().0));
        }
    }
}

proof fn lemma_insert_sorted_at(s: Seq<(LocalPos, BlockId)>, e: (LocalPos, BlockId), k: int)
    requires
        0 <= k <= s.len(),
        forall|j: int| k <= j < s.len() ==> yzx_key((#[trigger] s[j]).0) > yzx_key(e.0),
        k == 0 || yzx_key(s[k - 1].0) <= yzx_key(e.0),
    ensures
        insert_sorted(s, e) == s.insert(k, e),
    decreases s.len() - k,
{
    if k == s.len() {
        assert(s.insert(k, e) =~= s.push(e));
    } else {
        assert(s.drop_last().len() == s.len() - 1);
        assert forall|j: int| k <= j < s.drop_last().len() implies yzx_key((#[trigger] s.drop_last()[j]).0) > yzx_key(e.0) by {
            assert(s.drop_last()[j] == s[j]);
        }
        if k > 0 {
            assert(s.drop_last()[k - 1] == s[k - 1]);
        }
        lemma_insert_sorted_at(s.drop_last(), e, k);
        assert(s.drop_last().insert(k, e).push(s.last()) =~= s.insert(k, e));
    }
}

fn key_of(l: LocalPos) -> (r: u32)
    ensures
        r as int == yzx_key(l),
{
    l.y as u32 * 65536 + l.z as u32 * 256 + l.x as u32
}

/// Sorts changes within a chunk by y, then z, then x, keeping the order of changes at the
/// same place.
pub fn sort_changes(v: Vec<(LocalPos, BlockId)>) -> (r: Vec<(LocalPos, BlockId)>)
    ensures
        r@ == stable_sort(v@),
{
    let mut r: Vec<(LocalPos, BlockId)> = Vec::new();
    let mut i: usize = 0;
    while i < v.len()
        invariant
            i <= v@.len(),
            r@ == stable_sort(v@.subrange(0, i as int)),
        decreases v@.len() - i,
    {
        let e = v[i];
        let key = key_of(e.0);
        let mut k: usize = r.len();
        while k > 0 && key_of(r[k - 1].0) > key
            invariant
                k <= r@.len(),
                key as int == yzx_key(e.0),
                forall|j: int| k <= j < r@.len() ==> yzx_key((#[trigger] r@[j]).0) > yzx_key(e.0),
            decreases k,
        {
            k -= 1;
        }
        proof {
            lemma_insert_sorted_at(r@, e, k as int);
            assert(v@.subrange(0, i + 1).drop_last() =~= v@.subrange(0, i as int));
        }
        r.insert(k, e);
        i += 1;
    }
    assert(v@.subrange(0, i as int) =~= v@);
    r
}

/// Groups block changes by the chunk they fall in, the chunks in the order they first
/// appear; within a chunk the changes are ordered by y, then z, then x of their offsets,
/// changes at the same place keeping their order.
pub fn group_block_changes(changes: &[(WorldPos, BlockId)]) -> (r: Vec<(ChunkPos, Vec<(LocalPos, BlockId)>)>)
    ensures
        r@.len() == chunk_order(changes@).len(),
        forall|g: int| 0 <= g < r@.len() ==> (#[trigger] r@[g]).0 == chunk_order(changes@)[g]
            && r@[g].1@ == stable_sort(changes_in(changes@, r@[g].0)),
{
    let mut groups: Vec<(ChunkPos, Vec<(LocalPos, BlockId)>)> = Vec::new();
    let mut i: usize = 0;
    while i < changes.len()
        invariant
            i <= changes@.len(),
            groups@.len() == chunk_order(changes@.subrange(0, i as int)).len(),
            forall|g: int| 0 <= g < groups@.len() ==> (#[trigger] groups@[g]).0 == chunk_order(changes@.subrange(0, i as int))[g]
                && groups@[g].1@ == changes_in(changes@.subrange(0, i as int), groups@[g].0),
        decreases changes@.len() - i,
    {
        let (w, block) = changes[i];
        let (chunk_pos, local) = world_to_chunk(w);
        let ghost pre = changes@.subrange(0, i as int);
        let ghost next = changes@.subrange(0, i + 1);
        proof {
            assert(next.drop_last() =~= pre);
            assert(next.last() == (w, block));
            lemma_chunk_of_pos(w);
            assert(chunk_pos == chunk_of(w));
            assert((local, block) == local_change((w, block)));
        }
        let mut g: usize = 0;
        while g < groups.len() && groups[g].0 != chunk_pos
            invariant
                g <= groups@.len(),
                forall|h: int| 0 <= h < g ==> (#[trigger] groups@[h]).0 != chunk_pos,
            decreases groups@.len() - g,
        {
            g += 1;
        }
        let ghost before = groups@;
        if g < groups.len() {
            let mut entry = groups.remove(g);
            entry.1.push((local, block));
            let ghost updated = entry;
            groups.insert(g, entry);
            proof {
                assert(groups@ =~= before.update(g as int, updated));
                lemma_chunk_order_unique(pre);
                assert(chunk_order(pre).contains(chunk_pos)) by {
                    assert(chunk_order(pre)[g as int] == chunk_pos);
                }
                assert(chunk_order(next) == chunk_order(pre));
                assert forall|h: int| 0 <= h < groups@.len() implies (#[trigger] groups@[h]).0 == chunk_order(next)[h]
                    && groups@[h].1@ == changes_in(next, groups@[h].0) by {
                    if h != g {
                        assert(groups@[h] == before[h]);
                    }
                }
            }
        } else {
            let mut list: Vec<(LocalPos, BlockId)> = Vec::new();
            list.push((local, block));
            groups.push((chunk_pos, list));
            proof {
                assert(!chunk_order(pre).contains(chunk_pos)) by {
                    if chunk_order(pre).contains(chunk_pos) {
                        let h = choose|h: int| 0 <= h < chunk_order(pre).len() && chunk_order(pre)[h] == chunk_pos;
                        assert(before[h].0 == chunk_pos);
                    }
                }
                lemma_changes_in_absent(pre, chunk_pos);
                assert(chunk_order(next) == chunk_order(pre).push(chunk_pos));
                assert forall|h: int| 0 <= h < groups@.len() implies (#[trigger] groups@[h]).0 == chunk_order(next)[h]
                    && groups@[h].1@ == changes_in(next, groups@[h].0) by {
                    if h < before.len() {
                        assert(groups@[h] == before[h]);
                    } else {
                        assert(groups@[h].1@ =~= changes_in(pre, chunk_pos).push((local, block)));
                    }
                }
            }
        }
        i += 1;
    }
    assert(changes@.subrange(0, i as int) =~= changes@);
    let mut r: Vec<(ChunkPos, Vec<(LocalPos, BlockId)>)> = Vec::new();
    let mut k: usize = 0;
    while k < groups.len()
        invariant
            k <= groups@.len(),
            groups@.len() == chunk_order(changes@).len(),
            forall|g: int| 0 <= g < groups@.len() ==> (#[trigger] groups@[g]).0 == chunk_order(changes@)[g]
                && groups@[g].1@ == changes_in(changes@, groups@[g].0),
            r@.len() == k,
            forall|g: int| 0 <= g < k ==> (#[trigger] r@[g]).0 == chunk_order(changes@)[g]
                && r@[g].1@ == stable_sort(changes_in(changes@, r@[g].0)),
        decreases groups@.len() - k,
    {
        let pos = groups[k].0;
        let sorted = sort_changes(vstd::slice::slice_to_vec(groups[k].1.as_slice()));
        r.push((pos, sorted));
        k += 1;
    }
    r
}

proof fn lemma_decimal_digits(n: nat)
    ensures
        decimal(n).len() > 0,
        all_digits(decimal(n)),
        decimal(n)[0] != '+',
        digits_value(decimal(n)) == n,
    decreases n,
{
    if n >= 10 {
        lemma_decimal_digits(n / 10);
        let d = decimal(n / 10).push(crate::text::digit_char((n % 10) as int));
        assert(decimal(n) == d);
        assert(d.drop_last() =~= decimal(n / 10));
        assert forall|i: int| 0 <= i < d.len() implies '0' <= #[trigger] d[i] <= '9' by {
            if i < d.len() - 1 {
                assert(d[i] == decimal(n / 10)[i]);
            }
        }
        assert(d[0] == decimal(n / 10)[0]);
        let k = (n % 10) as int;
        assert((crate::text::digit_char(k) as u32) == 48 + k);
        assert(digits_value(d) == digits_value(decimal(n / 10)) * 10 + k);
        assert(n == (n / 10) * 10 + k);
        assert(digits_value(decimal(n)) == n);
    } else {
        assert(decimal(n) =~= seq![crate::text::digit_char(n as int)]);
        assert(decimal(n).drop_last() =~= Seq::<char>::empty());
        assert((crate::text::digit_char(n as int) as u32) == 48 + n);
        assert(digits_value(decimal(n)) == digits_value(Seq::<char>::empty()) * 10 + n);
    }
}

/// An id written out in decimal reads back as the same id.
pub proof fn lemma_decimal_parses(n: u64)
    ensures
        parsed_u64(decimal(n as nat)) == Some(n),
{
    lemma_decimal_digits(n as nat);
}

/// A console command naming a joined player by its id, written in decimal, resolves to that
/// player.
pub proof fn lemma_id_text_resolves(players: Map<u64, (Seq<char>, u64)>, id: u64)
    requires
        players.dom().contains(id),
    ensures
        resolves_to(players, decimal(id as nat), Ok::<u64, Seq<char>>(id)),
{
    lemma_decimal_parses(id);
}

/// After the chunks outside the streaming area are taken back from a player, every chunk it
/// still holds lies within the area, and it holds every chunk in the area it held before.
pub proof fn lemma_unloads_keep_stream_area(
    before: Set<(u64, ChunkPos)>,
    after: Set<(u64, ChunkPos)>,
    client: u64,
    center: ChunkPos,
)
    requires
        forall|e: (u64, ChunkPos)| #[trigger] after.contains(e) <==> (before.contains(e)
            && !(e.0 == client && !in_stream_range(center, e.1))),
    ensures
        forall|p: ChunkPos| #[trigger] after.contains((client, p)) ==> in_stream_range(center, p),
        forall|p: ChunkPos| before.contains((client, p)) && in_stream_range(center, p) ==> #[trigger] after.contains((client, p)),
{
    assert forall|p: ChunkPos| #[trigger] after.contains((client, p)) implies in_stream_range(center, p) by {
        assert((client, p).0 == client && (client, p).1 == p);
    }
}

/// `insert_sorted` adds the element to the sorted list and keeps it sorted.
proof fn lemma_insert_sorted(s: Seq<(LocalPos, BlockId)>, e: (LocalPos, BlockId))
    requires
        forall|i: int, j: int| 0 <= i < j < s.len() ==> yzx_key(s[i].0) <= yzx_key(s[j].0),
    ensures
        forall|i: int, j: int| 0 <= i < j < insert_sorted(s, e).len()
            ==> yzx_key(insert_sorted(s, e)[i].0) <= yzx_key(insert_sorted(s, e)[j].0),
        insert_sorted(s, e).to_multiset() == s.to_multiset().insert(e),
    decreases s.len(),
{
    broadcast use vstd::seq_lib::group_to_multiset_ensures;
    if s.len() == 0 || yzx_key(s.last().0) <= yzx_key(e.0) {
    } else {
        let t = s.drop_last();
        lemma_insert_sorted(t, e);
        let r = insert_sorted(t, e);
        assert(s =~= t.push(s.last()));
        assert forall|i: int, j: int| 0 <= i < j < r.push(s.last()).len()
            implies yzx_key(r.push(s.last())[i].0) <= yzx_key(r.push(s.last())[j].0) by {
            if j == r.len() {
                let x = r[i];
                assert(r.to_multiset().count(x) > 0) by {
                    vstd::seq_lib::lemma_seq_contains_after_push(r, s.last(), x);
                    assert(r.contains(x));
                }
                assert(t.to_multiset().insert(e).count(x) > 0);
                if x != e {
                    assert(t.to_multiset().count(x) > 0);
                    assert(t.contains(x));
                    let k = choose|k: int| 0 <= k < t.len() && t[k] == x;
                    assert(yzx_key(t[k].0) <= yzx_key(s[s.len() - 1].0));
                }
            }
        }
        assert(r.push(s.last()).to_multiset() =~= s.to_multiset().insert(e));
    }
}

/// Sorting changes within a chunk orders them by y, then z, then x, and keeps every change.
pub proof fn lemma_stable_sort_sorted(s: Seq<(LocalPos, BlockId)>)
    ensures
        forall|i: int, j: int| 0 <= i < j < stable_sort(s).len()
            ==> yzx_key(stable_sort(s)[i].0) <= yzx_key(stable_sort(s)[j].0),
        stable_sort(s).to_multiset() == s.to_multiset(),
    decreases s.len(),
{
    broadcast use vstd::seq_lib::group_to_multiset_ensures;
    if s.len() > 0 {
        lemma_stable_sort_sorted(s.drop_last());
        lemma_insert_sorted(stable_sort(s.drop_last()), s.last());
        assert(s =~= s.drop_last().push(s.last()));
    }
}

} // verus!
