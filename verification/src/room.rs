//! The room catalog and the weighted, depth-gated room selector.
//!
//! A catalog of room definitions is loaded once. At every room exit the
//! selector filters the catalog to rooms not yet taken, applies the
//! depth-gating windows (a room whose window closes exactly at the current
//! depth is *forced* and collapses the eligible set to itself), and draws
//! the next rooms by weighted sampling, marking each as taken. After each
//! draw every remaining gated room's weight grows by a fixed bonus so
//! that gated rooms eventually surface.

use crate::fixed::Vec2;
use rand::distributions::Distribution;
use vstd::prelude::*;

verus! {

/// The weight bonus granted to gated rooms that were skipped by a draw.
pub const GATED_WEIGHT_BONUS: usize = 100;

/// The kind of a room, which decides the builder that spawns its content.
#[derive(Clone, Copy, Debug, PartialEq, Eq, Structural)]
pub enum RoomType {
    Combat,
    Treasure,
    Boss,
    PreBoss,
    PostBoss,
    Start,
    Store,
}

/// The enemy archetypes an encounter can spawn.
#[derive(Clone, Copy, Debug, PartialEq, Eq, Structural)]
pub enum Enemy {
    Sloth,
    BossA,
    Envy,
    Gluttony,
    Greed,
    Pride,
    Wrath,
    Lust,
}

/// One enemy of an encounter: its archetype and its spawn position.
#[derive(Clone, Copy, Debug, PartialEq, Eq, Structural)]
pub struct EnemyEntity {
    pub enemy_type: Enemy,
    pub position: Vec2,
}

/// One weighted enemy group a room can host.
#[derive(Debug)]
pub struct Encounter {
    pub enemys: Vec<EnemyEntity>,
    pub weight: usize,
    pub is_select: bool,
}

/// A room definition from the catalog.
#[derive(Debug)]
pub struct Room {
    pub room_type: RoomType,
    pub num_exits: usize,
    pub arena: usize,
    pub encounters: Option<Vec<Encounter>>,
    pub weight: usize,
    pub force_select_depth_min: Option<usize>,
    pub force_select_depth_max: Option<usize>,
    pub is_select: bool,
}

/// The room catalog.
#[derive(Debug)]
pub struct Rooms {
    pub rooms: Vec<Room>,
}

/// An immutable snapshot of a chosen room, handed to the transition
/// pipeline.
#[derive(Debug)]
pub struct SelectedRoom {
    pub room_type: RoomType,
    pub num_exits: usize,
    pub arena: usize,
    pub encounter: Option<Encounter>,
}

/// The rooms chosen for the current exit choice, and the player's
/// navigation index into them.
#[derive(Debug)]
pub struct SelectedRooms {
    pub rooms: Vec<SelectedRoom>,
    pub index: usize,
}

/// Why a selection pass could not complete. All of these are fatal
/// content-authoring errors.
#[derive(Clone, Copy, Debug, PartialEq, Eq, Structural)]
pub enum SelectError {
    /// More than one room is forced at the current depth.
    TooManyForcedRooms,
    /// No room with positive weight was left to draw from.
    NoSelectableRoom,
    /// A chosen room's encounter table had no positive weight.
    NoSelectableEncounter,
}

/// Whether a room carries a complete depth window.
pub open spec fn has_window(room: Room) -> bool {
    room.force_select_depth_min is Some && room.force_select_depth_max is Some
}

/// Whether a room is forced at the given depth: not yet taken, and its
/// window closes exactly there.
pub open spec fn forced_at(room: Room, depth: int) -> bool {
    &&& !room.is_select
    &&& has_window(room)
    &&& depth == room.force_select_depth_max.unwrap()
}

/// Whether a room's depth window admits the given depth. A room without a
/// window is unrestricted.
pub open spec fn window_open(room: Room, depth: int) -> bool {
    has_window(room) ==> {
        ||| room.force_select_depth_min.unwrap() <= depth < room.force_select_depth_max.unwrap()
        ||| depth == room.force_select_depth_max.unwrap()
    }
}

/// Whether a room can be drawn at the given depth. In forced mode only
/// the forced candidates remain eligible.
pub open spec fn room_eligible(room: Room, depth: int, forced: bool) -> bool {
    if forced {
        forced_at(room, depth)
    } else {
        !room.is_select && window_open(room, depth)
    }
}

/// The number of rooms forced at the given depth.
pub open spec fn forced_count(rooms: Seq<Room>, depth: int) -> int
    decreases rooms.len(),
{
    if rooms.len() == 0 {
        0
    } else {
        forced_count(rooms.drop_last(), depth) + if forced_at(rooms.last(), depth) {
            1int
        } else {
            0int
        }
    }
}

/// Whether any room is forced at the given depth.
pub open spec fn forced_mode(rooms: Seq<Room>, depth: int) -> bool {
    forced_count(rooms, depth) >= 1
}

/// The number of eligible rooms.
pub open spec fn eligible_count(rooms: Seq<Room>, depth: int, forced: bool) -> int
    decreases rooms.len(),
{
    if rooms.len() == 0 {
        0
    } else {
        eligible_count(rooms.drop_last(), depth, forced) + if room_eligible(
            rooms.last(),
            depth,
            forced,
        ) {
            1int
        } else {
            0int
        }
    }
}

/// The total of a weight list.
pub open spec fn weight_total(ws: Seq<usize>) -> int
    decreases ws.len(),
{
    if ws.len() == 0 {
        0
    } else {
        weight_total(ws.drop_last()) + ws.last()
    }
}

/// The total weight of an encounter table.
pub open spec fn encounter_total(es: Seq<Encounter>) -> int
    decreases es.len(),
{
    if es.len() == 0 {
        0
    } else {
        encounter_total(es.drop_last()) + es.last().weight
    }
}

/// Whether a room's encounter table (if any) can be drawn from.
pub open spec fn encounters_ok(room: Room) -> bool {
    room.encounters matches Some(es) ==> encounter_total(es@) > 0
}

/// Machine bounds on the catalog under which no weight arithmetic can
/// overflow.
pub open spec fn catalog_wf(rooms: Seq<Room>) -> bool {
    &&& rooms.len() <= 1000
    &&& forall|i: int|
        0 <= i < rooms.len() ==> {
            &&& (#[trigger] rooms[i]).weight <= 1_000_000
            &&& (rooms[i].encounters matches Some(es) ==> es@.len() <= 1000 && forall|j: int|
                0 <= j < es@.len() ==> (#[trigger] es@[j]).weight <= 1_000_000)
        }
}

/// The condition under which a selection pass is owed success whatever
/// the random draws return: at most one forced candidate, enough eligible
/// rooms, every eligible room carrying a positive weight and a drawable
/// encounter table.
pub open spec fn selection_viable(rooms: Seq<Room>, depth: int, num_exits: int) -> bool {
    &&& forced_count(rooms, depth) <= 1
    &&& eligible_count(rooms, depth, forced_mode(rooms, depth)) >= num_exits
    &&& forall|i: int|
        0 <= i < rooms.len() && room_eligible(#[trigger] rooms[i], depth, forced_mode(rooms, depth))
            ==> rooms[i].weight >= 1 && encounters_ok(rooms[i])
}

/// Relies on `rand::distributions::WeightedIndex::new` and
/// `Distribution::sample` with `rand::thread_rng`: the draw returns the
/// index of one entry of `weights`, never one of zero weight, and fails
/// exactly when the list is empty or all weights are zero. The caller
/// keeps the total below `usize::MAX` so that building the distribution
/// cannot overflow.
#[verifier::external_body]
pub(crate) fn sample_weighted(weights: &Vec<usize>) -> (r: Option<usize>)
    requires
        weight_total(weights@) <= usize::MAX,
    ensures
        r matches Some(i) ==> i < weights@.len() && weights@[i as int] > 0,
        r is Some <==> weight_total(weights@) > 0,
{
    match rand::distributions::WeightedIndex::new(weights) {
        Ok(dist) => Some(dist.sample(&mut rand::thread_rng())),
        Err(_) => None,
    }
}

/// Whether an index occurs in a pool of indices.
pub open spec fn pool_has(pool: Seq<usize>, i: int) -> bool {
    exists|j: int| 0 <= j < pool.len() && pool[j] == i
}

/// Whether two rooms agree on everything but their selection mark, their
/// weight and their encounter marks.
pub open spec fn room_core_eq(a: Room, b: Room) -> bool {
    &&& a.room_type == b.room_type
    &&& a.num_exits == b.num_exits
    &&& a.arena == b.arena
    &&& a.force_select_depth_min == b.force_select_depth_min
    &&& a.force_select_depth_max == b.force_select_depth_max
}

/// Whether `e` is a faithful, marked copy of the encounter `orig`, which
/// carried a positive weight.
pub open spec fn chosen_encounter(e: Encounter, orig: Encounter) -> bool {
    &&& e.enemys@ == orig.enemys@
    &&& e.weight == orig.weight
    &&& orig.weight > 0
    &&& e.is_select
}

/// Whether a selected-room snapshot faithfully copies a catalog room: the
/// static fields agree, and the attached encounter (if the room has any)
/// is one of the room's positively weighted encounters.
pub open spec fn snapshot_of(s: SelectedRoom, room: Room) -> bool {
    &&& s.room_type == room.room_type
    &&& s.num_exits == room.num_exits
    &&& s.arena == room.arena
    &&& (room.encounters is None ==> s.encounter is None)
    &&& (room.encounters matches Some(es) ==> (s.encounter matches Some(e) && exists|j: int|
        0 <= j < es@.len() && chosen_encounter(e, #[trigger] es@[j])))
}

/// An encounter with its taken mark set and everything else untouched.
pub open spec fn mark_encounter(e: Encounter) -> Encounter {
    Encounter { is_select: true, ..e }
}

/// The weight bonus a room has accumulated after `t` completed draws:
/// gated rooms earn the fixed bonus once per draw they sat out, others
/// never change.
pub open spec fn bonus_after(room: Room, t: int) -> int {
    if has_window(room) {
        (GATED_WEIGHT_BONUS as int) * t
    } else {
        0
    }
}

/// What a draw does to the drawn room itself, where `draw_bonus` is the
/// weight bonus the room had accumulated by its draw: the room was
/// drawable (its weight at draw time was positive), it is marked taken
/// with that weight frozen, and — if it has an encounter table — exactly
/// one positively weighted entry, the one attached to the snapshot, is
/// marked taken, the table otherwise preserved.
pub open spec fn drawn_room_marked(
    newr: Room,
    oldr: Room,
    snap: SelectedRoom,
    draw_bonus: int,
) -> bool {
    &&& newr.is_select
    &&& oldr.weight + draw_bonus > 0
    &&& newr.weight == oldr.weight + draw_bonus
    &&& (oldr.encounters is None ==> newr.encounters is None)
    &&& (oldr.encounters matches Some(es) ==> (newr.encounters matches Some(nes)
        && snap.encounter matches Some(e) && exists|j: int|
        {
            &&& 0 <= j < es@.len()
            &&& chosen_encounter(e, #[trigger] es@[j])
            &&& nes@ == es@.update(j, mark_encounter(es@[j]))
        }))
}

/// What one whole selection pass does, witnessed by the sequence of
/// picked catalog indices: exactly `num_exits` distinct rooms, all of
/// them eligible, not yet taken and positively weighted at their draw,
/// are marked taken — their weights frozen and exactly one encounter
/// each marked — and snapshotted in order; untouched rooms keep their
/// state; rooms the draw skipped but which stayed eligible and gated
/// earn the weight bonus once per draw.
pub open spec fn selection_outcome(
    old_rooms: Seq<Room>,
    new_rooms: Seq<Room>,
    old_sel: Seq<SelectedRoom>,
    new_sel: Seq<SelectedRoom>,
    depth: int,
    num_exits: int,
    forced: bool,
    picks: Seq<int>,
) -> bool {
    &&& picks.no_duplicates()
    &&& picks.len() == num_exits
    &&& new_rooms.len() == old_rooms.len()
    &&& new_sel.len() == old_sel.len() + num_exits
    &&& forall|k: int| 0 <= k < old_sel.len() ==> new_sel[k] == old_sel[k]
    &&& forall|k: int| 0 <= k < num_exits ==> 0 <= #[trigger] picks[k] < old_rooms.len()
    &&& forall|k: int|
        0 <= k < num_exits ==> room_eligible(old_rooms[#[trigger] picks[k]], depth, forced)
    &&& forall|k: int| 0 <= k < num_exits ==> new_rooms[#[trigger] picks[k]].is_select
    &&& forall|k: int|
        0 <= k < num_exits ==> snapshot_of(
            new_sel[old_sel.len() + k],
            old_rooms[#[trigger] picks[k]],
        )
    &&& forall|k: int|
        0 <= k < num_exits ==> drawn_room_marked(
            new_rooms[#[trigger] picks[k]],
            old_rooms[picks[k]],
            new_sel[old_sel.len() + k],
            bonus_after(old_rooms[picks[k]], k),
        )
    &&& forall|i: int| 0 <= i < old_rooms.len() ==> room_core_eq(#[trigger] new_rooms[i], old_rooms[i])
    &&& forall|i: int|
        0 <= i < old_rooms.len() && !picks.contains(i) ==> (#[trigger] new_rooms[i]).is_select
            == old_rooms[i].is_select && new_rooms[i].encounters == old_rooms[i].encounters
    &&& forall|i: int|
        0 <= i < old_rooms.len() && !room_eligible(old_rooms[i], depth, forced)
            ==> #[trigger] new_rooms[i] == old_rooms[i]
    &&& forall|i: int|
        0 <= i < old_rooms.len() && room_eligible(#[trigger] old_rooms[i], depth, forced)
            && !picks.contains(i) ==> new_rooms[i].weight == old_rooms[i].weight + (if has_window(
            old_rooms[i],
        ) {
            (GATED_WEIGHT_BONUS as int) * num_exits
        } else {
            0
        })
}

/// A list in which every entry is bounded sums to at most the bound times
/// its length.
pub(crate) proof fn lemma_weight_total_upper(ws: Seq<usize>, bound: int)
    requires
        bound >= 0,
        forall|j: int| 0 <= j < ws.len() ==> #[trigger] ws[j] <= bound,
    ensures
        weight_total(ws) <= ws.len() * bound,
        weight_total(ws) >= 0,
    decreases ws.len(),
{
    if ws.len() > 0 {
        assert(forall|j: int|
            0 <= j < ws.drop_last().len() ==> #[trigger] ws.drop_last()[j] <= bound);
        lemma_weight_total_upper(ws.drop_last(), bound);
        assert((ws.len() as int) * bound == (ws.len() - 1) * bound + bound) by (nonlinear_arith);
    } else {
        assert(ws.len() * bound == 0) by (nonlinear_arith)
            requires
                ws.len() == 0,
        ;
    }
}

/// A list in which every entry is positive sums to at least its length.
proof fn lemma_weight_total_lower(ws: Seq<usize>)
    requires
        forall|j: int| 0 <= j < ws.len() ==> #[trigger] ws[j] >= 1,
    ensures
        weight_total(ws) >= ws.len(),
    decreases ws.len(),
{
    if ws.len() > 0 {
        assert(forall|j: int|
            0 <= j < ws.drop_last().len() ==> #[trigger] ws.drop_last()[j] >= 1);
        lemma_weight_total_lower(ws.drop_last());
    }
}

/// A weight list read off an encounter table sums to the table's total.
proof fn lemma_encounter_weights_total(es: Seq<Encounter>, ws: Seq<usize>)
    requires
        ws.len() == es.len(),
        forall|j: int| 0 <= j < es.len() ==> #[trigger] ws[j] == es[j].weight,
    ensures
        weight_total(ws) == encounter_total(es),
    decreases es.len(),
{
    if es.len() > 0 {
        assert(forall|j: int|
            0 <= j < es.drop_last().len() ==> #[trigger] ws.drop_last()[j]
                == es.drop_last()[j].weight);
        lemma_encounter_weights_total(es.drop_last(), ws.drop_last());
    }
}

/// In forced mode the eligible rooms are exactly the forced candidates.
proof fn lemma_eligible_count_forced(rooms: Seq<Room>, depth: int)
    ensures
        eligible_count(rooms, depth, true) == forced_count(rooms, depth),
    decreases rooms.len(),
{
    if rooms.len() > 0 {
        lemma_eligible_count_forced(rooms.drop_last(), depth);
    }
}

/// The forced-candidate count is never negative.
proof fn lemma_forced_count_nonneg(rooms: Seq<Room>, depth: int)
    ensures
        forced_count(rooms, depth) >= 0,
    decreases rooms.len(),
{
    if rooms.len() > 0 {
        lemma_forced_count_nonneg(rooms.drop_last(), depth);
    }
}

/// A forced room makes the forced-candidate count positive.
proof fn lemma_forced_count_at_least(rooms: Seq<Room>, depth: int, i: int)
    requires
        0 <= i < rooms.len(),
        forced_at(rooms[i], depth),
    ensures
        forced_count(rooms, depth) >= 1,
    decreases rooms.len(),
{
    lemma_forced_count_nonneg(rooms.drop_last(), depth);
    if i < rooms.len() - 1 {
        lemma_forced_count_at_least(rooms.drop_last(), depth, i);
    }
}

/// In a strictly increasing index list, the entry at position `j` is at
/// least `j`.
proof fn lemma_sorted_bounds(pool: Seq<usize>)
    requires
        forall|j1: int, j2: int| 0 <= j1 < j2 < pool.len() ==> pool[j1] < pool[j2],
    ensures
        forall|j: int| 0 <= j < pool.len() ==> #[trigger] pool[j] >= j,
    decreases pool.len(),
{
    if pool.len() > 0 {
        assert(forall|j1: int, j2: int|
            0 <= j1 < j2 < pool.drop_last().len() ==> pool.drop_last()[j1] < pool.drop_last()[j2]);
        lemma_sorted_bounds(pool.drop_last());
        assert(forall|j: int|
            0 <= j < pool.len() - 1 ==> #[trigger] pool[j] == pool.drop_last()[j]);
        if pool.len() >= 2 {
            assert(pool[pool.len() - 2] < pool[pool.len() - 1]);
        }
    }
}

/// Whether a room may be drawn at the given depth, decided exactly as the
/// eligibility predicate states.
fn room_eligible_exec(room: &Room, depth: usize, forced: bool) -> (r: bool)
    ensures
        r == room_eligible(*room, depth as int, forced),
{
    if room.is_select {
        return false;
    }
    if forced {
        if let Some(_mn) = room.force_select_depth_min {
            if let Some(mx) = room.force_select_depth_max {
                return depth == mx;
            }
        }
        false
    } else {
        if let Some(mn) = room.force_select_depth_min {
            if let Some(mx) = room.force_select_depth_max {
                return (mn <= depth && depth < mx) || depth == mx;
            }
        }
        true
    }
}

/// A faithful copy of an encounter.
fn clone_encounter(e: &Encounter) -> (r: Encounter)
    ensures
        r.enemys@ == e.enemys@,
        r.weight == e.weight,
        r.is_select == e.is_select,
{
    let mut enemys: Vec<EnemyEntity> = Vec::new();
    let mut i: usize = 0;
    while i < e.enemys.len()
        invariant
            i <= e.enemys@.len(),
            enemys@ == e.enemys@.take(i as int),
        decreases e.enemys@.len() - i,
    {
        enemys.push(e.enemys[i]);
        proof {
            assert(e.enemys@.take(i + 1).drop_last() =~= e.enemys@.take(i as int));
            assert(enemys@ =~= e.enemys@.take(i + 1));
        }
        i = i + 1;
    }
    proof {
        assert(e.enemys@.take(e.enemys@.len() as int) =~= e.enemys@);
    }
    Encounter { enemys, weight: e.weight, is_select: e.is_select }
}

/// Draws the next rooms at a room-exit event.
///
/// The catalog is filtered to rooms not yet taken whose depth window
/// admits `current_room`; if any room's window closes exactly at
/// `current_room` the eligible set collapses to that forced candidate,
/// and more than one such candidate is a fatal content error. Then
/// `num_exits` rooms are drawn by weighted sampling without replacement,
/// each marked taken, each with one of its encounters drawn by a second
/// independent weighted sample and marked, and appended to
/// `selected_rooms`; after every draw each remaining gated room's weight
/// grows by the fixed bonus.
/// The state in the middle of a selection pass, after `t` completed
/// draws: the picked indices are distinct eligible rooms now marked
/// taken and snapshotted in order; the pool holds exactly the eligible
/// rooms not yet picked, in increasing index order, each gated one
/// boosted once per completed draw; everything else is untouched.
spec fn select_inv(
    or: Seq<Room>,
    cur: Seq<Room>,
    old_sel: Seq<SelectedRoom>,
    sel: Seq<SelectedRoom>,
    depth: int,
    forced: bool,
    pool: Seq<usize>,
    picks: Seq<int>,
    t: int,
) -> bool {
    &&& cur.len() == or.len()
    &&& picks.len() == t
    &&& picks.no_duplicates()
    &&& forall|k: int| 0 <= k < picks.len() ==> 0 <= #[trigger] picks[k] < or.len()
    &&& forall|k: int| 0 <= k < picks.len() ==> room_eligible(or[#[trigger] picks[k]], depth, forced)
    &&& forall|j1: int, j2: int| 0 <= j1 < j2 < pool.len() ==> pool[j1] < pool[j2]
    &&& forall|j: int| 0 <= j < pool.len() ==> (#[trigger] pool[j] as int) < or.len()
    &&& forall|j: int|
        0 <= j < pool.len() ==> room_eligible(or[#[trigger] pool[j] as int], depth, forced)
    &&& forall|j: int| 0 <= j < pool.len() ==> !picks.contains(#[trigger] pool[j] as int)
    &&& forall|i: int|
        0 <= i < or.len() && room_eligible(#[trigger] or[i], depth, forced) && !picks.contains(i)
            ==> pool_has(pool, i)
    &&& pool.len() + t == eligible_count(or, depth, forced)
    &&& forall|i: int| 0 <= i < or.len() ==> room_core_eq(#[trigger] cur[i], or[i])
    &&& forall|i: int|
        0 <= i < or.len() && !picks.contains(i) ==> (#[trigger] cur[i]).is_select
            == or[i].is_select && cur[i].encounters == or[i].encounters
    &&& forall|i: int| 0 <= i < or.len() && picks.contains(i) ==> (#[trigger] cur[i]).is_select
    &&& forall|i: int|
        0 <= i < or.len() && !room_eligible(or[i], depth, forced) ==> #[trigger] cur[i] == or[i]
    &&& forall|i: int|
        0 <= i < or.len() && pool_has(pool, i) ==> (#[trigger] cur[i]).weight == or[i].weight + (
        if has_window(or[i]) {
            (GATED_WEIGHT_BONUS as int) * t
        } else {
            0int
        })
    &&& forall|i: int|
        0 <= i < or.len() ==> (#[trigger] cur[i]).weight <= 1_000_000 + (GATED_WEIGHT_BONUS as int)
            * t
    &&& sel.len() == old_sel.len() + t
    &&& forall|k: int| 0 <= k < old_sel.len() ==> sel[k] == old_sel[k]
    &&& forall|k: int|
        0 <= k < t ==> snapshot_of(#[trigger] sel[old_sel.len() + k], or[picks[k]])
    &&& forall|k: int|
        0 <= k < t ==> drawn_room_marked(
            cur[#[trigger] picks[k]],
            or[picks[k]],
            sel[old_sel.len() + k],
            bonus_after(or[picks[k]], k),
        )
}

/// One draw of the selection pass: samples a room from the pool by
/// weight, marks it and one of its encounters as taken, snapshots it,
/// and boosts the gated rooms the draw skipped.
#[verifier::loop_isolation(false)]
#[verifier::rlimit(100)]
fn select_one_pass(
    selected_rooms: &mut SelectedRooms,
    rooms: &mut Rooms,
    pool: &mut Vec<usize>,
    current_room: usize,
    num_exits: usize,
    t: usize,
    Ghost(or): Ghost<Seq<Room>>,
    Ghost(old_sel): Ghost<Seq<SelectedRoom>>,
    Ghost(forced): Ghost<bool>,
    Ghost(picks): Ghost<Seq<int>>,
) -> (res: (Result<(), SelectError>, Ghost<Seq<int>>))
    requires
        catalog_wf(or),
        num_exits <= 100,
        t < num_exits,
        forced == forced_mode(or, current_room as int),
        select_inv(
            or,
            old(rooms).rooms@,
            old_sel,
            old(selected_rooms).rooms@,
            current_room as int,
            forced,
            old(pool)@,
            picks,
            t as int,
        ),
    ensures
        final(selected_rooms).index == old(selected_rooms).index,
        res.0 is Ok ==> select_inv(
            or,
            final(rooms).rooms@,
            old_sel,
            final(selected_rooms).rooms@,
            current_room as int,
            forced,
            final(pool)@,
            res.1@,
            t + 1,
        ),
        res.0 is Err ==> !selection_viable(or, current_room as int, num_exits as int),
        res.0 is Err ==> final(selected_rooms).rooms@ == old(selected_rooms).rooms@
            && final(rooms).rooms@.len() == old(rooms).rooms@.len() && (forall|i: int|
            0 <= i < old(rooms).rooms@.len() ==> room_core_eq(
                #[trigger] final(rooms).rooms@[i],
                old(rooms).rooms@[i],
            )),
        res.0 != Err::<(), SelectError>(SelectError::TooManyForcedRooms),
{
    let ghost depth = current_room as int;
    let ghost pool_before = pool@;
    // Weight vector of the remaining pool.
    let mut weights: Vec<usize> = Vec::new();
    let mut j: usize = 0;
    while j < pool.len()
        invariant
            0 <= j <= pool@.len(),
            weights@.len() == j as int,
            forall|j2: int|
                0 <= j2 < j ==> #[trigger] weights@[j2] == rooms.rooms@[pool@[j2] as int].weight,
        decreases pool@.len() - j,
    {
        weights.push(rooms.rooms[pool[j]].weight);
        j = j + 1;
    }
    proof {
        assert(forall|j2: int|
            0 <= j2 < weights@.len() ==> #[trigger] weights@[j2] <= 1_000_000 + (
            GATED_WEIGHT_BONUS as int) * t);
        lemma_weight_total_upper(weights@, 1_000_000 + (GATED_WEIGHT_BONUS as int) * (t as int));
        lemma_sorted_bounds(pool@);
        if pool@.len() > 0 {
            assert(pool@[pool@.len() - 1] >= pool@.len() - 1);
        }
        assert(pool@.len() <= 1000);
        assert(0 <= (GATED_WEIGHT_BONUS as int) * (t as int) <= 10_000) by (nonlinear_arith)
            requires
                0 <= t <= 100,
        ;
        assert(weight_total(weights@) <= 1000 * (1_000_000 + (GATED_WEIGHT_BONUS as int) * (
        t as int))) by (nonlinear_arith)
            requires
                weight_total(weights@) <= weights@.len() * (1_000_000 + (GATED_WEIGHT_BONUS as int)
                    * (t as int)),
                weights@.len() <= 1000,
                0 <= (GATED_WEIGHT_BONUS as int) * (t as int) <= 10_000,
        ;
        if selection_viable(or, depth, num_exits as int) {
            assert forall|j2: int| 0 <= j2 < weights@.len() implies #[trigger] weights@[j2]
                >= 1 by {
                let i3 = pool@[j2] as int;
                assert(room_eligible(or[i3], depth, forced));
                assert(or[i3].weight >= 1);
                assert(pool_has(pool@, i3));
            }
            lemma_weight_total_lower(weights@);
            assert(pool@.len() >= 1);
        }
    }
    let k: usize = match sample_weighted(&weights) {
        Some(k) => k,
        None => {
            return (Err(SelectError::NoSelectableRoom), Ghost(picks));
        },
    };
    let ri: usize = pool.remove(k);
    proof {
        pool_before.remove_ensures(k as int);
        assert forall|x: int| pool_has(pool@, x) implies pool_has(pool_before, x) && x != (
        ri as int) by {
            let j2 = choose|j2: int| 0 <= j2 < pool@.len() && pool@[j2] == x;
            if j2 < k {
                assert(pool_before[j2] == x);
            } else {
                assert(pool_before[j2 + 1] == x);
            }
        }
        assert forall|x: int|
            pool_has(pool_before, x) && x != (ri as int) implies pool_has(pool@, x) by {
            let j2 = choose|j2: int| 0 <= j2 < pool_before.len() && pool_before[j2] == x;
            if j2 < k {
                assert(pool@[j2] == x);
            } else {
                assert(j2 > k);
                assert(pool@[j2 - 1] == x);
            }
        }
        assert(forall|j1: int, j2: int| 0 <= j1 < j2 < pool@.len() ==> pool@[j1] < pool@[j2]);
        assert forall|j2: int| 0 <= j2 < pool@.len() implies (#[trigger] pool@[j2] as int)
            < or.len() && room_eligible(or[pool@[j2] as int], depth, forced) && !picks.contains(
            pool@[j2] as int,
        ) by {
            assert(pool_has(pool@, pool@[j2] as int));
            let j3 = choose|j3: int|
                0 <= j3 < pool_before.len() && pool_before[j3] == pool@[j2] as int;
            assert(pool_before[j3] == pool@[j2]);
        }
    }
    // Mark the drawn room as taken and snapshot it.
    let ghost rooms_before_mark = rooms.rooms@;
    let room = &mut rooms.rooms[ri];
    room.is_select = true;
    let rt: RoomType = room.room_type;
    let ne: usize = room.num_exits;
    let ar: usize = room.arena;
    let mut chosen: Option<Encounter> = None;
    let mut enc_failed: bool = false;
    let ghost mut enc_seq0: Seq<Encounter> = Seq::empty();
    let ghost mut enc_idx: int = 0;
    if let Some(encs) = &mut room.encounters {
        let ghost es0 = encs@;
        let mut eweights: Vec<usize> = Vec::new();
        let mut j2: usize = 0;
        while j2 < encs.len()
            invariant
                0 <= j2 <= encs@.len(),
                eweights@.len() == j2 as int,
                forall|j3: int| 0 <= j3 < j2 ==> #[trigger] eweights@[j3] == encs@[j3].weight,
            decreases encs@.len() - j2,
        {
            eweights.push(encs[j2].weight);
            j2 = j2 + 1;
        }
        proof {
            lemma_encounter_weights_total(encs@, eweights@);
            assert(or[ri as int].encounters matches Some(es) && es@ == encs@);
            assert(forall|j3: int|
                0 <= j3 < eweights@.len() ==> #[trigger] eweights@[j3] <= 1_000_000);
            lemma_weight_total_upper(eweights@, 1_000_000);
        }
        match sample_weighted(&eweights) {
            None => {
                enc_failed = true;
            },
            Some(ek) => {
                let enc = &mut encs[ek];
                enc.is_select = true;
                chosen = Some(clone_encounter(enc));
                proof {
                    enc_seq0 = es0;
                    enc_idx = ek as int;
                    assert(encs@ =~= es0.update(ek as int, mark_encounter(es0[ek as int])));
                }
            },
        }
    }
    if enc_failed {
        proof {
            assert(!encounters_ok(or[ri as int]));
            assert(room_eligible(or[ri as int], depth, forced));
            assert(rooms.rooms@.len() == or.len());
            assert forall|i3: int|
                0 <= i3 < or.len() implies room_core_eq(
                    #[trigger] rooms.rooms@[i3],
                    rooms_before_mark[i3],
                ) by {
                if i3 != ri as int {
                    assert(rooms.rooms@[i3] == rooms_before_mark[i3]);
                }
            }
        }
        return (Err(SelectError::NoSelectableEncounter), Ghost(picks));
    }
    selected_rooms.rooms.push(
        SelectedRoom { room_type: rt, num_exits: ne, arena: ar, encounter: chosen },
    );
    proof {
        assert(snapshot_of(selected_rooms.rooms@.last(), or[ri as int]));
    }
    // Boost the weight of every gated room the draw skipped.
    let ghost rooms_pre_boost = rooms.rooms@;
    proof {
        assert(forall|i3: int|
            0 <= i3 < or.len() && i3 != ri as int ==> #[trigger] rooms_pre_boost[i3]
                == rooms_before_mark[i3]);
        assert(rooms_pre_boost[ri as int].is_select);
        assert(rooms_pre_boost[ri as int].weight == rooms_before_mark[ri as int].weight);
        assert(room_core_eq(rooms_pre_boost[ri as int], rooms_before_mark[ri as int]));
        assert(forall|i3: int|
            0 <= i3 < or.len() ==> (#[trigger] rooms_pre_boost[i3]).weight <= 1_000_000 + (
            GATED_WEIGHT_BONUS as int) * t);
        assert(!picks.contains(ri as int));
        assert(rooms_before_mark[ri as int].encounters == or[ri as int].encounters);
        if or[ri as int].encounters is Some {
            let es = or[ri as int].encounters.unwrap();
            assert(enc_seq0 == es@);
            assert(0 <= enc_idx < enc_seq0.len());
            assert(enc_seq0[enc_idx].weight > 0);
            assert(rooms_pre_boost[ri as int].encounters matches Some(nes) && nes@ == es@.update(
                enc_idx,
                mark_encounter(es@[enc_idx]),
            ));
            assert(chosen matches Some(e) && chosen_encounter(e, es@[enc_idx]));
        } else {
            assert(rooms_pre_boost[ri as int].encounters is None);
            assert(chosen is None);
        }
    }
    let mut b: usize = 0;
    while b < pool.len()
        invariant
            0 <= b <= pool@.len(),
            rooms.rooms@.len() == or.len(),
            forall|j2: int|
                0 <= j2 < b ==> #[trigger] rooms.rooms@[pool@[j2] as int] == boost_room(
                    rooms_pre_boost[pool@[j2] as int],
                ),
            forall|i3: int|
                0 <= i3 < or.len() && !pool_has(pool@.take(b as int), i3)
                    ==> #[trigger] rooms.rooms@[i3] == rooms_pre_boost[i3],
        decreases pool@.len() - b,
    {
        let ghost rooms_iter = rooms.rooms@;
        let pi: usize = pool[b];
        proof {
            assert(!pool_has(pool@.take(b as int), pi as int)) by {
                if pool_has(pool@.take(b as int), pi as int) {
                    let j3 = choose|j3: int|
                        0 <= j3 < pool@.take(b as int).len() && pool@.take(b as int)[j3] == (
                        pi as int);
                    assert(pool@[j3] == pi);
                    assert(pool@[j3] < pool@[b as int]);
                    assert(false);
                }
            }
            assert(rooms_iter[pi as int] == rooms_pre_boost[pi as int]);
        }
        let room2 = &mut rooms.rooms[pi];
        let mut gated: bool = false;
        if let Some(_x) = room2.force_select_depth_min {
            if let Some(_y) = room2.force_select_depth_max {
                gated = true;
            }
        }
        if gated {
            room2.weight = room2.weight + GATED_WEIGHT_BONUS;
        }
        proof {
            assert(rooms.rooms@[pi as int] == boost_room(rooms_pre_boost[pi as int]));
            assert forall|i3: int|
                0 <= i3 < or.len() && !pool_has(pool@.take(b + 1), i3) implies (
            #[trigger] rooms.rooms@[i3]) == rooms_pre_boost[i3] by {
                assert(pool@.take(b + 1)[b as int] == pi as int);
                assert(i3 != pi as int);
                assert(!pool_has(pool@.take(b as int), i3)) by {
                    if pool_has(pool@.take(b as int), i3) {
                        let j3 = choose|j3: int|
                            0 <= j3 < pool@.take(b as int).len() && pool@.take(b as int)[j3] == i3;
                        assert(pool@.take(b + 1)[j3] == i3);
                        assert(false);
                    }
                }
                assert(rooms_iter[i3] == rooms_pre_boost[i3]);
            }
            assert forall|j2: int| 0 <= j2 < b + 1 implies (
            #[trigger] rooms.rooms@[pool@[j2] as int]) == boost_room(
                rooms_pre_boost[pool@[j2] as int],
            ) by {
                if j2 < b {
                    assert(pool@[j2] != pool@[b as int]);
                    assert(rooms.rooms@[pool@[j2] as int] == rooms_iter[pool@[j2] as int]);
                }
            }
        }
        b = b + 1;
    }
    let ghost picks2 = picks.push(ri as int);
    proof {
        assert(pool@.take(pool@.len() as int) =~= pool@);
        assert(forall|i3: int|
            0 <= i3 < or.len() && !pool_has(pool@, i3) ==> #[trigger] rooms.rooms@[i3]
                == rooms_pre_boost[i3]);
        assert(picks2[picks2.len() - 1] == ri as int);
        assert(picks2.contains(ri as int));
        assert forall|x: int| picks.contains(x) implies #[trigger] picks2.contains(x) by {
            let j3 = choose|j3: int| 0 <= j3 < picks.len() && picks[j3] == x;
            assert(picks2[j3] == x);
        }
        assert forall|x: int| #[trigger] picks2.contains(x) implies picks.contains(x) || x == (
        ri as int) by {
            let j3 = choose|j3: int| 0 <= j3 < picks2.len() && picks2[j3] == x;
            if j3 < picks2.len() - 1 {
                assert(picks[j3] == x);
            }
        }
        assert(pool_before[k as int] == ri as int);
        assert(!picks.contains(ri as int));
        assert(forall|a: int, b2: int|
            0 <= a < picks2.len() && 0 <= b2 < picks2.len() && a != b2 ==> picks2[a] != picks2[b2]);
        assert(picks2.no_duplicates());
        assert forall|i3: int|
            0 <= i3 < or.len() && picks2.contains(i3) implies (
        #[trigger] rooms.rooms@[i3]).is_select by {
            if i3 == ri as int {
                assert(!pool_has(pool@, i3));
                assert(rooms.rooms@[i3] == rooms_pre_boost[i3]);
            } else {
                assert(picks.contains(i3));
                assert(rooms_before_mark[i3].is_select);
                assert(rooms_pre_boost[i3].is_select);
                if pool_has(pool@, i3) {
                    assert(rooms.rooms@[i3] == boost_room(rooms_pre_boost[i3]));
                } else {
                    assert(rooms.rooms@[i3] == rooms_pre_boost[i3]);
                }
            }
        }
        assert forall|i3: int|
            0 <= i3 < or.len() && !picks2.contains(i3) implies (
        #[trigger] rooms.rooms@[i3]).is_select == or[i3].is_select && rooms.rooms@[i3].encounters
            == or[i3].encounters by {
            assert(!picks.contains(i3));
            assert(i3 != ri as int);
            assert(rooms_pre_boost[i3] == rooms_before_mark[i3]);
            if pool_has(pool@, i3) {
                assert(rooms.rooms@[i3] == boost_room(rooms_pre_boost[i3]));
            } else {
                assert(rooms.rooms@[i3] == rooms_pre_boost[i3]);
            }
        }
        assert forall|i3: int| 0 <= i3 < or.len() implies room_core_eq(
            #[trigger] rooms.rooms@[i3],
            or[i3],
        ) by {
            if pool_has(pool@, i3) {
                assert(rooms.rooms@[i3] == boost_room(rooms_pre_boost[i3]));
            } else {
                assert(rooms.rooms@[i3] == rooms_pre_boost[i3]);
            }
        }
        assert forall|i3: int|
            0 <= i3 < or.len() && !room_eligible(or[i3], depth, forced) implies (
        #[trigger] rooms.rooms@[i3]) == or[i3] by {
            assert(!pool_has(pool_before, i3));
            assert(!pool_has(pool@, i3));
            assert(i3 != ri as int);
            assert(rooms.rooms@[i3] == rooms_pre_boost[i3]);
            assert(rooms_pre_boost[i3] == rooms_before_mark[i3]);
        }
        assert forall|i3: int|
            0 <= i3 < or.len() && pool_has(pool@, i3) implies (
        #[trigger] rooms.rooms@[i3]).weight == or[i3].weight + (if has_window(or[i3]) {
            (GATED_WEIGHT_BONUS as int) * (t + 1)
        } else {
            0int
        }) by {
            assert(pool_has(pool_before, i3));
            assert(i3 != ri as int);
            assert(rooms_pre_boost[i3] == rooms_before_mark[i3]);
            assert(rooms_before_mark[i3].weight == or[i3].weight + (if has_window(or[i3]) {
                (GATED_WEIGHT_BONUS as int) * t
            } else {
                0int
            }));
            let j3 = choose|j3: int| 0 <= j3 < pool@.len() && pool@[j3] == i3;
            assert(rooms.rooms@[i3] == boost_room(rooms_pre_boost[i3]));
            assert(has_window(rooms_pre_boost[i3]) == has_window(or[i3]));
            assert((GATED_WEIGHT_BONUS as int) * (t + 1) == (GATED_WEIGHT_BONUS as int) * t
                + GATED_WEIGHT_BONUS);
        }
        assert forall|i3: int| 0 <= i3 < or.len() implies (#[trigger] rooms.rooms@[i3]).weight
            <= 1_000_000 + (GATED_WEIGHT_BONUS as int) * (t + 1) by {
            if pool_has(pool@, i3) {
                assert(rooms.rooms@[i3] == boost_room(rooms_pre_boost[i3]));
            } else {
                assert(rooms.rooms@[i3] == rooms_pre_boost[i3]);
            }
        }
        assert forall|i3: int|
            0 <= i3 < or.len() && room_eligible(#[trigger] or[i3], depth, forced)
                && !picks2.contains(i3) implies pool_has(pool@, i3) by {
            assert(!picks.contains(i3));
            assert(i3 != ri as int);
            assert(pool_has(pool_before, i3));
        }
        assert forall|k2: int|
            0 <= k2 < t + 1 implies snapshot_of(
                #[trigger] selected_rooms.rooms@[old_sel.len() + k2],
                or[picks2[k2]],
            ) by {
            if k2 < t as int {
                assert(picks2[k2] == picks[k2]);
            } else {
                assert(picks2[k2] == ri as int);
                assert(selected_rooms.rooms@[old_sel.len() + k2] == selected_rooms.rooms@.last());
            }
        }
        assert forall|k2: int|
            0 <= k2 < t + 1 implies drawn_room_marked(
                rooms.rooms@[#[trigger] picks2[k2]],
                or[picks2[k2]],
                selected_rooms.rooms@[old_sel.len() + k2],
                bonus_after(or[picks2[k2]], k2),
            ) by {
            if k2 < t as int {
                assert(picks2[k2] == picks[k2]);
                let i3 = picks[k2];
                assert(picks.contains(i3));
                assert(i3 != ri as int);
                assert(!pool_has(pool@, i3)) by {
                    if pool_has(pool@, i3) {
                        assert(pool_has(pool_before, i3));
                        let j3 = choose|j3: int|
                            0 <= j3 < pool_before.len() && pool_before[j3] == i3;
                        assert(!picks.contains(pool_before[j3] as int));
                        assert(false);
                    }
                }
                assert(rooms.rooms@[i3] == rooms_pre_boost[i3]);
                assert(rooms_pre_boost[i3] == rooms_before_mark[i3]);
                assert(drawn_room_marked(
                    rooms_before_mark[i3],
                    or[i3],
                    old(selected_rooms).rooms@[old_sel.len() + k2],
                    bonus_after(or[i3], k2),
                ));
                assert(selected_rooms.rooms@[old_sel.len() + k2] == old(
                    selected_rooms,
                ).rooms@[old_sel.len() + k2]);
            } else {
                assert(picks2[k2] == ri as int);
                assert(!pool_has(pool@, ri as int));
                assert(rooms.rooms@[ri as int] == rooms_pre_boost[ri as int]);
                assert(pool_has(pool_before, ri as int)) by {
                    assert(pool_before[k as int] == ri as int);
                }
                assert(rooms_before_mark[ri as int].weight == or[ri as int].weight + bonus_after(
                    or[ri as int],
                    t as int,
                ));
                assert(weights@[k as int] == rooms_before_mark[pool_before[k as int] as int].weight);
                assert(weights@[k as int] > 0);
                assert(selected_rooms.rooms@[old_sel.len() + k2] == selected_rooms.rooms@.last());
            }
        }
    }
    (Ok(()), Ghost(picks2))
}

/// Draws the next rooms at a room-exit event.
///
/// The catalog is filtered to rooms not yet taken whose depth window
/// admits `current_room`; if any room's window closes exactly at
/// `current_room` the eligible set collapses to that forced candidate,
/// and more than one such candidate is a fatal content error. Then
/// `num_exits` rooms are drawn by weighted sampling without replacement,
/// each marked taken, each with one of its encounters drawn by a second
/// independent weighted sample and marked, and appended to
/// `selected_rooms`; after every draw each remaining gated room's weight
/// grows by the fixed bonus.
///
/// Whatever the result — the original aborts on the error variants, so a
/// failed pass leaves no promise beyond this frame — the catalog keeps
/// its length and every room its static fields, and the already-chosen
/// snapshots are only ever appended to.
#[verifier::loop_isolation(false)]
#[verifier::rlimit(100)]
pub fn select_room(
    selected_rooms: &mut SelectedRooms,
    rooms: &mut Rooms,
    current_room: usize,
    num_exits: usize,
) -> (r: Result<(), SelectError>)
    requires
        catalog_wf(old(rooms).rooms@),
        num_exits <= 100,
    ensures
        final(selected_rooms).index == old(selected_rooms).index,
        final(rooms).rooms@.len() == old(rooms).rooms@.len(),
        forall|i: int|
            0 <= i < old(rooms).rooms@.len() ==> room_core_eq(
                #[trigger] final(rooms).rooms@[i],
                old(rooms).rooms@[i],
            ),
        final(selected_rooms).rooms@.len() >= old(selected_rooms).rooms@.len(),
        forall|k: int|
            0 <= k < old(selected_rooms).rooms@.len() ==> final(selected_rooms).rooms@[k] == old(
                selected_rooms,
            ).rooms@[k],
        (r == Err::<(), SelectError>(SelectError::TooManyForcedRooms) <==> forced_count(
            old(rooms).rooms@,
            current_room as int,
        ) >= 2),
        r == Err::<(), SelectError>(SelectError::TooManyForcedRooms) ==> final(rooms).rooms@ == old(
            rooms,
        ).rooms@ && final(selected_rooms).rooms@ == old(selected_rooms).rooms@,
        selection_viable(old(rooms).rooms@, current_room as int, num_exits as int) ==> r is Ok,
        r is Ok ==> exists|picks: Seq<int>|
            selection_outcome(
                old(rooms).rooms@,
                final(rooms).rooms@,
                old(selected_rooms).rooms@,
                final(selected_rooms).rooms@,
                current_room as int,
                num_exits as int,
                forced_mode(old(rooms).rooms@, current_room as int),
                picks,
            ),
        r is Ok && num_exits >= 1 ==> forall|i: int|
            0 <= i < old(rooms).rooms@.len() && forced_at(
                #[trigger] old(rooms).rooms@[i],
                current_room as int,
            ) ==> final(rooms).rooms@[i].is_select,
{
    let ghost or = old(rooms).rooms@;
    let ghost depth = current_room as int;
    let n: usize = rooms.rooms.len();

    // Forced-candidate scan: at most one room may be forced at this depth.
    let mut forced_cnt: usize = 0;
    let mut i: usize = 0;
    while i < n
        invariant
            0 <= i <= n,
            forced_cnt == forced_count(or.take(i as int), depth),
            forced_cnt <= i,
        decreases n - i,
    {
        proof {
            assert(or.take(i + 1).drop_last() =~= or.take(i as int));
            assert(or.take(i + 1).last() == or[i as int]);
        }
        let room = &rooms.rooms[i];
        let mut f: bool = false;
        if !room.is_select {
            if let Some(_mn) = room.force_select_depth_min {
                if let Some(mx) = room.force_select_depth_max {
                    if current_room == mx {
                        f = true;
                    }
                }
            }
        }
        if f {
            forced_cnt = forced_cnt + 1;
        }
        proof {
            assert(f == forced_at(or[i as int], depth));
        }
        i = i + 1;
    }
    proof {
        assert(or.take(n as int) =~= or);
    }
    if forced_cnt >= 2 {
        return Err(SelectError::TooManyForcedRooms);
    }
    let forced: bool = forced_cnt == 1;
    proof {
        assert(forced == forced_mode(or, depth));
    }

    // Eligible pool: the indices of the rooms that may be drawn, in
    // increasing order.
    let mut pool: Vec<usize> = Vec::new();
    let mut i2: usize = 0;
    while i2 < n
        invariant
            0 <= i2 <= n,
            pool@.len() == eligible_count(or.take(i2 as int), depth, forced),
            forall|j1: int, j2: int| 0 <= j1 < j2 < pool@.len() ==> pool@[j1] < pool@[j2],
            forall|j: int| 0 <= j < pool@.len() ==> (#[trigger] pool@[j] as int) < i2,
            forall|j: int|
                0 <= j < pool@.len() ==> room_eligible(or[#[trigger] pool@[j] as int], depth, forced),
            forall|k: int|
                0 <= k < i2 && room_eligible(#[trigger] or[k], depth, forced) ==> pool_has(
                    pool@,
                    k,
                ),
        decreases n - i2,
    {
        proof {
            assert(or.take(i2 + 1).drop_last() =~= or.take(i2 as int));
            assert(or.take(i2 + 1).last() == or[i2 as int]);
        }
        let ghost pool0 = pool@;
        let e = room_eligible_exec(&rooms.rooms[i2], current_room, forced);
        if e {
            pool.push(i2);
        }
        proof {
            assert forall|k: int|
                0 <= k < i2 + 1 && room_eligible(#[trigger] or[k], depth, forced) implies pool_has(
                pool@,
                k,
            ) by {
                if k < i2 {
                    let j = choose|j: int| 0 <= j < pool0.len() && pool0[j] == k;
                    assert(pool@[j] == k);
                } else {
                    assert(pool@[pool@.len() - 1] == i2);
                }
            }
        }
        i2 = i2 + 1;
    }
    proof {
        assert(or.take(n as int) =~= or);
    }

    let ghost old_sel = old(selected_rooms).rooms@;
    let ghost mut picks: Seq<int> = Seq::empty();
    let mut t: usize = 0;
    while t < num_exits
        invariant
            0 <= t <= num_exits,
            select_inv(
                or,
                rooms.rooms@,
                old_sel,
                selected_rooms.rooms@,
                depth,
                forced,
                pool@,
                picks,
                t as int,
            ),
            selected_rooms.index == old(selected_rooms).index,
        decreases num_exits - t,
    {
        let ghost rooms_iter = rooms.rooms@;
        let (step, new_picks) = select_one_pass(
            selected_rooms,
            rooms,
            &mut pool,
            current_room,
            num_exits,
            t,
            Ghost(or),
            Ghost(old_sel),
            Ghost(forced),
            Ghost(picks),
        );
        match step {
            Ok(()) => {
                proof {
                    picks = new_picks@;
                }
            },
            Err(e) => {
                proof {
                    assert forall|i3: int| 0 <= i3 < or.len() implies room_core_eq(
                        #[trigger] rooms.rooms@[i3],
                        or[i3],
                    ) by {
                        assert(room_core_eq(rooms.rooms@[i3], rooms_iter[i3]));
                        assert(room_core_eq(rooms_iter[i3], or[i3]));
                    }
                }
                return Err(e);
            },
        }
        t = t + 1;
    }
    proof {
        assert(selection_outcome(
            or,
            rooms.rooms@,
            old_sel,
            selected_rooms.rooms@,
            depth,
            num_exits as int,
            forced,
            picks,
        )) by {
            assert forall|i3: int|
                0 <= i3 < or.len() && room_eligible(#[trigger] or[i3], depth, forced)
                    && !picks.contains(i3) implies rooms.rooms@[i3].weight == or[i3].weight + (
            if has_window(or[i3]) {
                (GATED_WEIGHT_BONUS as int) * (num_exits as int)
            } else {
                0int
            }) by {
                assert(pool_has(pool@, i3));
            }
        }
        if num_exits >= 1 {
            assert forall|i3: int|
                0 <= i3 < or.len() && forced_at(#[trigger] or[i3], depth) implies rooms.rooms@[i3].is_select by {
                lemma_forced_count_at_least(or, depth, i3);
                assert(forced);
                lemma_eligible_count_forced(or, depth);
                assert(room_eligible(or[i3], depth, forced));
                assert(pool@.len() == 0);
                assert(picks.contains(i3));
            }
        }
    }
    Ok(())
}

/// A room with the gated-weight bonus applied if it carries a window.
pub open spec fn boost_room(room: Room) -> Room {
    if has_window(room) {
        Room { weight: (room.weight + GATED_WEIGHT_BONUS) as usize, ..room }
    } else {
        room
    }
}

impl SelectedRooms {
    /// An empty choice with the navigation index at its start.
    pub fn new() -> (r: Self)
        ensures
            r.rooms@.len() == 0,
            r.index == 0,
    {
        SelectedRooms { rooms: Vec::new(), index: 0 }
    }

    /// Moves the navigation index one room forward, wrapping to the first
    /// room past the last.
    pub fn increse_index(&mut self)
        requires
            old(self).index < old(self).rooms@.len() || old(self).index == 0,
        ensures
            final(self).rooms@ == old(self).rooms@,
            old(self).rooms@.len() == 0 ==> final(self).index == 0,
            old(self).rooms@.len() > 0 && old(self).index + 1 < old(self).rooms@.len() ==> final(self).index == old(self).index + 1,
            old(self).rooms@.len() > 0 && old(self).index + 1 >= old(self).rooms@.len() ==> final(self).index == 0,
    {
        if self.rooms.len() == 0 {
            self.index = 0;
        } else if self.index + 1 >= self.rooms.len() {
            self.index = 0;
        } else {
            self.index = self.index + 1;
        }
    }

    /// Moves the navigation index one room back, wrapping to the last
    /// room before the first.
    pub fn decrese_index(&mut self)
        requires
            old(self).index < old(self).rooms@.len() || old(self).index == 0,
        ensures
            final(self).rooms@ == old(self).rooms@,
            old(self).rooms@.len() == 0 ==> final(self).index == 0,
            old(self).rooms@.len() > 0 && old(self).index == 0 ==> final(self).index == old(self).rooms@.len() - 1,
            old(self).rooms@.len() > 0 && old(self).index > 0 ==> final(self).index == old(self).index - 1,
    {
        if self.rooms.len() == 0 {
            self.index = 0;
        } else if self.index == 0 {
            self.index = self.rooms.len() - 1;
        } else {
            self.index = self.index - 1;
        }
    }
}

} // verus!
