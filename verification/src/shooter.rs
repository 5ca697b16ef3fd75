use vstd::prelude::*;
use std::collections::HashMap;
use std::time::{Duration, SystemTime, SystemTimeError, UNIX_EPOCH};
use crate::conceptual;
use crate::text::{decimal, signed_decimal, push_decimal, push_signed};

verus! {

broadcast use vstd::std_specs::hash::group_hash_axioms;

// ---------------------------------------------------------------------------
// The wall clock.
// ---------------------------------------------------------------------------

#[verifier::external_type_specification]
#[verifier::external_body]
pub struct ExSystemTime(SystemTime);

#[verifier::external_type_specification]
#[verifier::external_body]
pub struct ExSystemTimeError(SystemTimeError);

/// `std::time::SystemTime::now`: the current wall-clock time. It depends on
/// the time, so nothing is claimed of it.
#[verifier::external_body]
fn system_now() -> SystemTime {
    SystemTime::now()
}

/// `std::time::SystemTime::duration_since`, from `UNIX_EPOCH`: the time
/// since the epoch, or an error when `t` lies before it. Nothing is claimed
/// of the outcome: `t` is a reading of the clock and has no model here.
#[verifier::external_body]
fn since_unix_epoch(t: &SystemTime) -> Result<Duration, SystemTimeError> {
    t.duration_since(UNIX_EPOCH)
}

/// `std::time::Duration::as_millis`: the whole milliseconds in `d`. `d` has
/// no model here, so nothing is claimed of the result.
#[verifier::external_body]
fn duration_millis(d: &Duration) -> u128 {
    d.as_millis()
}

// ---------------------------------------------------------------------------
// Ships.
// ---------------------------------------------------------------------------

/// The id of the one ship that the shooter flies.
pub const SHIP: usize = 10;

/// A ship with its id and position.
#[derive(Clone)]
pub struct Player {
    id: usize,
    x: isize,
    y: isize,
}

impl View for Player {
    /// The id, the column and the row.
    type V = (usize, isize, isize);

    closed spec fn view(&self) -> (usize, isize, isize) {
        (self.id, self.x, self.y)
    }
}

/// The text of a ship at (x, y): the ship's kind, its position, and two
/// unused fields.
pub open spec fn player_text(x: int, y: int) -> Seq<char> {
    decimal(10) + seq![','] + signed_decimal(x) + seq![','] + signed_decimal(y) + seq![
        ',',
        '-',
        '1',
        ',',
        '-',
        '1',
    ]
}

impl Player {
    pub fn to_string(&self) -> (s: String)
        ensures
            s@ == player_text(self@.1 as int, self@.2 as int),
    {
        let mut s = String::new();
        push_decimal(&mut s, 10);
        proof {
            reveal_strlit(",");
            reveal_strlit(",-1,-1");
        }
        s.append(",");
        push_signed(&mut s, self.x as i128);
        s.append(",");
        push_signed(&mut s, self.y as i128);
        s.append(",-1,-1");
        assert(s@ =~= player_text(self@.1 as int, self@.2 as int));
        s
    }
}

/// One step of a ship's flight: down one row, and back to the top row
/// after row 100.
pub open spec fn fly(y: int) -> int {
    if y < 100 {
        y + 1
    } else {
        -100
    }
}

/// `n` steps of a ship's flight from row `y`.
pub open spec fn fly_steps(y: int, n: nat) -> int
    decreases n,
{
    if n == 0 {
        y
    } else {
        fly_steps(fly(y), (n - 1) as nat)
    }
}

/// A ship on the screen, rows -100 to 100, stays on it.
pub proof fn lemma_flight_stays_on_screen(y: int)
    requires
        -100 <= y <= 100,
    ensures
        -100 <= fly(y) <= 100,
{
}

/// Short of row 100, a ship moves down one row per step.
proof fn lemma_flight_descends(y: int, k: nat)
    requires
        y + k <= 100,
    ensures
        fly_steps(y, k) == y + k,
    decreases k,
{
    if k > 0 {
        lemma_flight_descends(y + 1, (k - 1) as nat);
    }
}

/// Flying `a` steps and then `b` steps is flying `a + b` steps.
proof fn lemma_flight_composes(y: int, a: nat, b: nat)
    ensures
        fly_steps(y, a + b) == fly_steps(fly_steps(y, a), b),
    decreases a,
{
    if a > 0 {
        lemma_flight_composes(fly(y), (a - 1) as nat, b);
        assert(fly_steps(y, a + b) == fly_steps(fly(y), (a - 1 + b) as nat));
    }
}

/// A ship on the screen is back on its row after 201 steps: it runs down
/// to row 100, wraps to row -100, and runs down again.
pub proof fn lemma_flight_period(y: int)
    requires
        -100 <= y <= 100,
    ensures
        fly_steps(y, 201) == y,
{
    let down = (100 - y) as nat;
    let rest = (101 + y) as nat;
    lemma_flight_descends(y, down);
    lemma_flight_composes(y, down, rest);
    assert(fly_steps(100, rest) == fly_steps(-100, (rest - 1) as nat));
    lemma_flight_descends(-100, (rest - 1) as nat);
    assert(down + rest == 201);
}

/// A ship on the screen is not back on its row after fewer than 201
/// steps.
pub proof fn lemma_flight_no_shorter_period(y: int, k: nat)
    requires
        -100 <= y <= 100,
        0 < k < 201,
    ensures
        fly_steps(y, k) != y,
{
    let down = (100 - y) as nat;
    if k <= down {
        lemma_flight_descends(y, k);
    } else {
        let rest = (k - down) as nat;
        lemma_flight_descends(y, down);
        lemma_flight_composes(y, down, rest);
        assert(down + rest == k);
        assert(fly_steps(100, rest) == fly_steps(-100, (rest - 1) as nat));
        lemma_flight_descends(-100, (rest - 1) as nat);
    }
}

/// A ship on the screen stays on it for any number of steps.
proof fn lemma_flight_steps_on_screen(y: int, k: nat)
    requires
        -100 <= y <= 100,
    ensures
        -100 <= fly_steps(y, k) <= 100,
    decreases k,
{
    if k > 0 {
        lemma_flight_steps_on_screen(fly(y), (k - 1) as nat);
    }
}

/// A fleet after one tick: the ship flies, everything else stays.
pub open spec fn flown(fleet: Map<usize, (usize, isize, isize)>) -> Map<usize, (usize, isize, isize)> {
    if fleet.contains_key(SHIP) {
        fleet.insert(SHIP, (fleet[SHIP].0, fleet[SHIP].1, fly(fleet[SHIP].2 as int) as isize))
    } else {
        fleet
    }
}

/// A fleet after `n` ticks.
pub open spec fn flown_steps(
    fleet: Map<usize, (usize, isize, isize)>,
    n: nat,
) -> Map<usize, (usize, isize, isize)>
    decreases n,
{
    if n == 0 {
        fleet
    } else {
        flown_steps(flown(fleet), (n - 1) as nat)
    }
}

/// After `k` ticks only the ship has moved, by `k` steps of its flight.
proof fn lemma_fleet_steps(fleet: Map<usize, (usize, isize, isize)>, k: nat)
    requires
        fleet.contains_key(SHIP),
        -100 <= fleet[SHIP].2 <= 100,
    ensures
        flown_steps(fleet, k) == fleet.insert(
            SHIP,
            (fleet[SHIP].0, fleet[SHIP].1, fly_steps(fleet[SHIP].2 as int, k) as isize),
        ),
    decreases k,
{
    let y = fleet[SHIP].2 as int;
    if k == 0 {
        assert(fleet.insert(SHIP, (fleet[SHIP].0, fleet[SHIP].1, y as isize)) =~= fleet);
    } else {
        let f1 = flown(fleet);
        lemma_flight_stays_on_screen(y);
        assert(f1[SHIP].2 as int == fly(y));
        lemma_fleet_steps(f1, (k - 1) as nat);
        assert(fly_steps(y, k) == fly_steps(fly(y), (k - 1) as nat));
        assert(flown_steps(fleet, k) =~= fleet.insert(
            SHIP,
            (fleet[SHIP].0, fleet[SHIP].1, fly_steps(y, k) as isize),
        ));
    }
}

/// A fleet whose ship is on the screen is back where it was after 201
/// ticks, and not after fewer.
pub proof fn lemma_fleet_period(fleet: Map<usize, (usize, isize, isize)>)
    requires
        fleet.contains_key(SHIP),
        -100 <= fleet[SHIP].2 <= 100,
    ensures
        flown_steps(fleet, 201) == fleet,
        forall|k: nat| 0 < k < 201 ==> #[trigger] flown_steps(fleet, k) != fleet,
{
    let y = fleet[SHIP].2 as int;
    lemma_fleet_steps(fleet, 201);
    lemma_flight_period(y);
    assert(flown_steps(fleet, 201) =~= fleet);
    assert forall|k: nat| 0 < k < 201 implies #[trigger] flown_steps(fleet, k) != fleet by {
        lemma_fleet_steps(fleet, k);
        lemma_flight_no_shorter_period(y, k);
        lemma_flight_steps_on_screen(y, k);
        assert(flown_steps(fleet, k)[SHIP].2 != fleet[SHIP].2);
    }
}

/// The part of the shooter's text that shows the ship, when there is one.
pub open spec fn ship_text(fleet: Map<usize, (usize, isize, isize)>) -> Seq<char> {
    if fleet.contains_key(SHIP) {
        player_text(fleet[SHIP].1 as int, fleet[SHIP].2 as int)
    } else {
        seq![]
    }
}

/// The text of a time stamp: whole milliseconds since the epoch and two
/// colons, or three dots for a clock that read before the epoch.
pub open spec fn stamp_text(stamp: Option<u128>) -> Seq<char> {
    match stamp {
        Some(m) => decimal(m as nat) + seq![':', ':'],
        None => seq!['.', '.', '.'],
    }
}

/// The time stamp that a reading of the wall clock gives: its whole
/// milliseconds since the epoch, or nothing when it read before the epoch.
pub open spec fn stamp_of(reading: Result<u128, ()>) -> Option<u128> {
    match reading {
        Ok(m) => Some(m),
        Err(_) => None,
    }
}

/// The time stamp of a reading of the wall clock.
pub fn stamp_from(reading: Result<u128, ()>) -> (stamp: Option<u128>)
    ensures
        stamp == stamp_of(reading),
{
    match reading {
        Ok(m) => Some(m),
        Err(_) => None,
    }
}

/// Read the wall clock: whole milliseconds since the epoch, or an error
/// when it reads before the epoch.
fn clock_reading() -> Result<u128, ()> {
    let now = system_now();
    match since_unix_epoch(&now) {
        Ok(dur) => Ok(duration_millis(&dur)),
        Err(_) => Err(()),
    }
}

/// A world with one ship flying down the screen.
pub struct Shooter {
    h: usize,
    w: usize,
    ships: HashMap<usize, Player>,
    // The time of the last tick, in whole milliseconds since the epoch.
    timestamp: Option<u128>,
}

impl Shooter {
    /// The number of rows.
    pub closed spec fn height(self) -> nat {
        self.h as nat
    }

    /// The number of columns.
    pub closed spec fn width(self) -> nat {
        self.w as nat
    }

    /// The time of the last tick, in whole milliseconds since the epoch;
    /// nothing when the clock read before the epoch.
    pub closed spec fn stamp(self) -> Option<u128> {
        self.timestamp
    }

    /// The ships by id, each with its id and position.
    pub closed spec fn fleet(self) -> Map<usize, (usize, isize, isize)> {
        self.ships@.map_values(|p: Player| p@)
    }
}

impl Shooter {
    /// One tick with the wall clock reading `reading`: the ship flies one
    /// step, and the world takes the time stamp of the reading.
    pub fn tick_at(&mut self, reading: Result<u128, ()>)
        ensures
            final(self).height() == old(self).height(),
            final(self).width() == old(self).width(),
            final(self).fleet() == flown(old(self).fleet()),
            final(self).stamp() == stamp_of(reading),
    {
        let moved = match self.ships.get(&SHIP) {
            Some(ship) => {
                let y = if ship.y < 100 {
                    ship.y + 1
                } else {
                    -100
                };
                Some(Player { id: ship.id, x: ship.x, y: y })
            },
            None => None,
        };
        let ghost before = self.ships@;
        match moved {
            Some(ship) => {
                self.ships.insert(SHIP, ship);
            },
            None => {},
        }
        self.timestamp = stamp_from(reading);
        assert(self.fleet() =~= flown(before.map_values(|p: Player| p@)));
    }
}

impl conceptual::World for Shooter {
    /// Updates from the outside leave the world as it is.
    fn update(&self, msg: String) {
    }

    /// The ship flies one step, and the world takes the current time.
    fn tick(&mut self)
        ensures
            final(self).height() == old(self).height(),
            final(self).width() == old(self).width(),
            final(self).fleet() == flown(old(self).fleet()),
    {
        self.tick_at(clock_reading());
    }

    /// The time stamp of the last tick, then the ship.
    fn to_string(&self) -> (s: String)
        ensures
            s@ == stamp_text(self.stamp()) + ship_text(self.fleet()),
    {
        let mut s = String::new();
        match self.timestamp {
            Some(m) => {
                push_decimal(&mut s, m);
                proof {
                    reveal_strlit("::");
                }
                s.append("::");
            },
            None => {
                proof {
                    reveal_strlit("...");
                }
                s.append("...");
            },
        }
        assert(s@ =~= stamp_text(self.stamp()));
        match self.ships.get(&SHIP) {
            Some(ship) => {
                let t = ship.to_string();
                s.append(t.as_str());
            },
            None => {},
        }
        assert(s@ =~= stamp_text(self.stamp()) + ship_text(self.fleet()));
        s
    }

    /// Resetting leaves the world as it is.
    fn reset(&mut self)
        ensures
            final(self).height() == old(self).height(),
            final(self).width() == old(self).width(),
            final(self).fleet() == old(self).fleet(),
            final(self).stamp() == old(self).stamp(),
    {
    }
}

/// A shooter of `h` rows and `w` columns, with its ship at the origin,
/// stamped with the current time.
pub fn with_size(h: usize, w: usize) -> (game: Shooter)
    ensures
        game.height() == h,
        game.width() == w,
        game.fleet() == map![SHIP => (SHIP, 0isize, 0isize)],
{
    with_size_at(h, w, clock_reading())
}

/// A shooter of `h` rows and `w` columns, with its ship at the origin,
/// stamped with the time of the wall clock reading `reading`.
pub fn with_size_at(h: usize, w: usize, reading: Result<u128, ()>) -> (game: Shooter)
    ensures
        game.height() == h,
        game.width() == w,
        game.fleet() == map![SHIP => (SHIP, 0isize, 0isize)],
        game.stamp() == stamp_of(reading),
{
    let id = SHIP;
    let mut ships = HashMap::new();
    ships.insert(id, Player { id: id, x: 0, y: 0 });
    let game = Shooter { h: h, w: w, ships: ships, timestamp: stamp_from(reading) };
    assert(game.fleet() =~= map![SHIP => (SHIP, 0isize, 0isize)]);
    game
}

} // verus!
