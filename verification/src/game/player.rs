use vstd::prelude::*;

use crate::game::board::{board_wf, Board};
use crate::game::curio::Curio;
use crate::game::hall::Hall;
use crate::game::room::Room;
use crate::text::{lower_of, lowercase};

verus! {

/// Greatest number of hit points a player can hold; healing is capped here.
pub const MAX_HP: i32 = 25;

/// A player-facing command, aimed at a neighbouring room by name.
#[derive(Debug, PartialEq, Eq)]
pub enum Command {
    Go(String),
    Shoot(String),
}

/// Why a command was rejected: the name matches no adjacent room.
#[derive(Debug, Clone, Copy, PartialEq, Eq, Structural)]
pub enum ActionError {
    NoSuchRoom,
}

/// What a successful command did, with everything the caller needs to
/// narrate it: the room acted on and, for a move, the curios drained from it
/// in the order they were applied.
#[derive(Debug, PartialEq, Eq)]
pub enum Outcome {
    Moved { room: usize, drained: Vec<Curio> },
    Hit { room: usize },
    Miss { room: usize },
}

/// The cursor into the world graph plus the accumulated stats.
pub struct Player {
    pub location: usize,
    pub hp: i32,
    pub gold: i32,
    pub won: bool,
}

/// The stats `(hp, gold)` after one curio is applied to `(hp, gold)`:
/// a chest pays out, a spike trap wounds, food heals up to the cap, an iron
/// maiden wounds and then opens on its content, a fallen adventurer only
/// passes its content on.
pub open spec fn apply_curio(hp: int, gold: int, c: Curio) -> (int, int)
    decreases c,
{
    match c {
        Curio::Chest(g) => (hp, gold + g),
        Curio::SpikeTrap(d) => (hp - d, gold),
        Curio::Food(h) => (
            if hp + h > MAX_HP {
                MAX_HP as int
            } else {
                hp + h
            },
            gold,
        ),
        Curio::IronMaiden(sub, d) => apply_curio(hp - d, gold, *sub),
        Curio::FallenAdventurer(sub) => apply_curio(hp, gold, *sub),
    }
}

/// Every intermediate stat while applying `c` stays within `i32`.
pub open spec fn curio_ok(hp: int, gold: int, c: Curio) -> bool
    decreases c,
{
    match c {
        Curio::Chest(g) => i32::MIN <= gold + g <= i32::MAX,
        Curio::SpikeTrap(d) => i32::MIN <= hp - d <= i32::MAX,
        Curio::Food(h) => i32::MIN <= hp + h <= i32::MAX,
        Curio::IronMaiden(sub, d) => i32::MIN <= hp - d <= i32::MAX && curio_ok(hp - d, gold, *sub),
        Curio::FallenAdventurer(sub) => curio_ok(hp, gold, *sub),
    }
}

/// The stats after a room's contents are drained last-in-first-out.
pub open spec fn apply_all(hp: int, gold: int, cs: Seq<Curio>) -> (int, int)
    decreases cs.len(),
{
    if cs.len() == 0 {
        (hp, gold)
    } else {
        let next = apply_curio(hp, gold, cs.last());
        apply_all(next.0, next.1, cs.drop_last())
    }
}

/// Every intermediate stat while draining `cs` stays within `i32`.
pub open spec fn drain_ok(hp: int, gold: int, cs: Seq<Curio>) -> bool
    decreases cs.len(),
{
    if cs.len() == 0 {
        true
    } else {
        let next = apply_curio(hp, gold, cs.last());
        curio_ok(hp, gold, cs.last()) && drain_ok(next.0, next.1, cs.drop_last())
    }
}

/// Draining an empty room leaves the stats untouched: entering a room a
/// second time, after its contents were drained, applies no further effects.
pub proof fn lemma_drain_empty(hp: int, gold: int)
    ensures
        apply_all(hp, gold, Seq::<Curio>::empty()) == (hp, gold),
{
}

/// Entering a drained room applies no further effects: a move that resolves
/// to a room whose contents are already empty leaves the stats and the win
/// flag exactly as they were.
pub proof fn lemma_reenter_no_effects(
    b0: Board,
    p0: Player,
    name: String,
    b1: Board,
    p1: Player,
    r: Result<Outcome, ActionError>,
)
    requires
        act_rel(b0, p0, Command::Go(name), b1, p1, r),
        resolve(b0.rooms@, p0.location as int, lower_of(name@)) is Some,
        b0.rooms@[resolve(b0.rooms@, p0.location as int, lower_of(name@)).unwrap()].contents@
            == Seq::<Curio>::empty(),
    ensures
        p1.hp == p0.hp,
        p1.gold == p0.gold,
        p1.has_won() == p0.has_won(),
{
    let t = resolve(b0.rooms@, p0.location as int, lower_of(name@)).unwrap();
    assert((p1.hp as int, p1.gold as int) == apply_all(
        p0.hp as int,
        p0.gold as int,
        b0.rooms@[t].contents@,
    ));
}

/// What one shot does to a room's wumpus flag and the player's win flag: a
/// present wumpus dies and wins the game; otherwise nothing changes.
pub open spec fn shoot_room(wumpus: bool, won: bool) -> (bool, bool) {
    if wumpus {
        (false, true)
    } else {
        (wumpus, won)
    }
}

/// A hit is idempotent: after a winning shot the wumpus is gone, so shooting
/// the same room again changes nothing and the win stands.
pub proof fn lemma_shoot_idempotent(wumpus: bool, won: bool)
    requires
        wumpus,
    ensures
        shoot_room(wumpus, won) == (false, true),
        shoot_room(shoot_room(wumpus, won).0, shoot_room(wumpus, won).1) == (false, true),
{
}

/// The first neighbour of `loc`, scanning its halls from index `i` on, whose
/// name folds to `target`.
pub open spec fn resolve_from(
    rooms: Seq<Room>,
    halls: Seq<Hall>,
    loc: int,
    target: Seq<char>,
    i: int,
) -> Option<int>
    decreases halls.len() - i,
{
    if i < 0 || i >= halls.len() {
        None
    } else {
        let o = halls[i].spec_other(loc);
        if lower_of(rooms[o].name@) == target {
            Some(o)
        } else {
            resolve_from(rooms, halls, loc, target, i + 1)
        }
    }
}

/// The neighbour of `loc` that a case-folded name `target` resolves to, if
/// any: the first hall in order whose other end matches.
pub open spec fn resolve(rooms: Seq<Room>, loc: int, target: Seq<char>) -> Option<int> {
    resolve_from(rooms, rooms[loc].halls@, loc, target, 0)
}


/// Everything `act` does, as a relation between the board and player before
/// (`b0`, `p0`) and after (`b1`, `p1`) and the result: a move drains the
/// target and relocates the cursor; a shot kills a present wumpus and wins;
/// a name that resolves to no neighbour changes nothing.
pub open spec fn act_rel(
    b0: Board,
    p0: Player,
    cmd: Command,
    b1: Board,
    p1: Player,
    r: Result<Outcome, ActionError>,
) -> bool {
    &&& (cmd matches Command::Go(name) ==> match resolve(
        b0.rooms@,
        p0.location as int,
        lower_of(name@),
    ) {
        Some(t) => {
            &&& (r matches Ok(o) && (o matches Outcome::Moved { room, drained } && room == t
                && drained@ == b0.rooms@[t].contents@.reverse()))
            &&& b1.rooms@.len() == b0.rooms@.len()
            &&& (forall|j: int| 0 <= j < b0.rooms@.len() && j != t ==> b1.rooms@[j] == b0.rooms@[j])
            &&& b1.rooms@[t].contents@ == Seq::<Curio>::empty()
            &&& b1.rooms@[t].name == b0.rooms@[t].name
            &&& b1.rooms@[t].halls == b0.rooms@[t].halls
            &&& b1.rooms@[t].wumpus == b0.rooms@[t].wumpus
            &&& p1.location == t
            &&& (p1.hp as int, p1.gold as int) == apply_all(
                p0.hp as int,
                p0.gold as int,
                b0.rooms@[t].contents@,
            )
            &&& p1.has_won() == p0.has_won()
        },
        None => r matches Err(ActionError::NoSuchRoom) && p1 == p0 && b1 == b0,
    })
    &&& (cmd matches Command::Shoot(name) ==> match resolve(
        b0.rooms@,
        p0.location as int,
        lower_of(name@),
    ) {
        Some(t) => {
            &&& b1.rooms@.len() == b0.rooms@.len()
            &&& (forall|j: int| 0 <= j < b0.rooms@.len() && j != t ==> b1.rooms@[j] == b0.rooms@[j])
            &&& b1.rooms@[t].wumpus == shoot_room(b0.rooms@[t].wumpus, p0.has_won()).0
            &&& p1.has_won() == shoot_room(b0.rooms@[t].wumpus, p0.has_won()).1
            &&& b1.rooms@[t].name == b0.rooms@[t].name
            &&& b1.rooms@[t].halls == b0.rooms@[t].halls
            &&& b1.rooms@[t].contents == b0.rooms@[t].contents
            &&& p1.location == p0.location
            &&& p1.hp == p0.hp
            &&& p1.gold == p0.gold
            &&& (r matches Ok(o) && o == if b0.rooms@[t].wumpus {
                Outcome::Hit { room: t as usize }
            } else {
                Outcome::Miss { room: t as usize }
            })
        },
        None => r matches Err(ActionError::NoSuchRoom) && p1 == p0 && b1 == b0,
    })
}

impl Player {
    pub fn new(location: usize) -> (p: Player)
        ensures
            p.location == location,
            p.hp == MAX_HP,
            p.gold == 0,
            !p.has_won(),
    {
        Player { location, hp: MAX_HP, gold: 0, won: false }
    }

    /// Whether a winning shot has been fired; set at most once, never reset.
    pub open spec fn has_won(&self) -> bool {
        self.won
    }

    pub fn is_won(&self) -> (b: bool)
        ensures
            b == self.has_won(),
    {
        self.won
    }

    /// Applies one curio's effects to the stats.
    pub fn use_curio(&mut self, curio: Curio)
        requires
            curio_ok(old(self).hp as int, old(self).gold as int, curio),
        ensures
            (final(self).hp as int, final(self).gold as int) == apply_curio(
                old(self).hp as int,
                old(self).gold as int,
                curio,
            ),
            final(self).location == old(self).location,
            final(self).has_won() == old(self).has_won(),
            curio matches Curio::Chest(g) ==> final(self).gold == old(self).gold + g
                && final(self).hp == old(self).hp,
            curio matches Curio::Food(h) ==> final(self).hp <= MAX_HP
                && final(self).gold == old(self).gold,
            curio matches Curio::IronMaiden(sub, d) ==> (
                final(self).hp as int,
                final(self).gold as int,
            ) == apply_curio(old(self).hp - d, old(self).gold as int, *sub),
    {
        self.apply_effect(&curio);
    }

    fn apply_effect(&mut self, curio: &Curio)
        requires
            curio_ok(old(self).hp as int, old(self).gold as int, *curio),
        ensures
            (final(self).hp as int, final(self).gold as int) == apply_curio(
                old(self).hp as int,
                old(self).gold as int,
                *curio,
            ),
            final(self).location == old(self).location,
            final(self).won == old(self).won,
        decreases *curio,
    {
        match curio {
            Curio::Chest(gold) => {
                self.gold = self.gold + *gold;
            },
            Curio::SpikeTrap(dmg) => {
                self.hp = self.hp - *dmg;
            },
            Curio::Food(heal) => {
                let healed = self.hp + *heal;
                self.hp = if healed > MAX_HP {
                    MAX_HP
                } else {
                    healed
                };
            },
            Curio::IronMaiden(sub, dmg) => {
                self.hp = self.hp - *dmg;
                self.apply_effect(sub);
            },
            Curio::FallenAdventurer(sub) => {
                self.apply_effect(sub);
            },
        }
    }

    /// Find one of the neighbours of the current room based on its name.
    /// Case insensitive.
    pub fn find_room(&self, board: &Board, room: String) -> (r: Result<usize, ActionError>)
        requires
            self.location < board.rooms@.len(),
            board_wf(*board),
        ensures
            match resolve(board.rooms@, self.location as int, lower_of(room@)) {
                Some(t) => r matches Ok(u) && u == t && 0 <= t < board.rooms@.len(),
                None => r matches Err(ActionError::NoSuchRoom),
            },
    {
        let target = lowercase(room.as_str());
        let halls = &board.rooms[self.location].halls;
        let n = halls.len();
        let mut i: usize = 0;
        while i < n
            invariant
                i <= n,
                n == halls@.len(),
                halls@ == board.rooms@[self.location as int].halls@,
                self.location < board.rooms@.len(),
                board_wf(*board),
                target@ == lower_of(room@),
                resolve(board.rooms@, self.location as int, lower_of(room@)) == resolve_from(
                    board.rooms@,
                    halls@,
                    self.location as int,
                    lower_of(room@),
                    i as int,
                ),
            decreases n - i,
        {
            let o = halls[i].other(self.location);
            proof {
                assert(board.rooms@[self.location as int].halls@[i as int].left
                    == self.location as int || board.rooms@[self.location as int].halls@[i as int].right
                    == self.location as int);
            }
            let other_name = lowercase(board.rooms[o].name.as_str());
            if other_name == target {
                return Ok(o);
            }
            i += 1;
        }
        Err(ActionError::NoSuchRoom)
    }

    /// Execute the given command on the player and board state.
    pub fn act(&mut self, board: &mut Board, cmd: Command) -> (r: Result<Outcome, ActionError>)
        requires
            old(self).location < old(board).rooms@.len(),
            board_wf(*old(board)),
            cmd matches Command::Go(name) ==> (resolve(
                old(board).rooms@,
                old(self).location as int,
                lower_of(name@),
            ) matches Some(t) ==> drain_ok(
                old(self).hp as int,
                old(self).gold as int,
                old(board).rooms@[t].contents@,
            )),
        ensures
            act_rel(*old(board), *old(self), cmd, *final(board), *final(self), r),
    {
        match cmd {
            Command::Go(room_name) => {
                let t = self.find_room(board, room_name)?;
                let ghost pre = board.rooms@[t as int].contents@;
                let mut drained: Vec<Curio> = Vec::new();
                loop
                    invariant
                        t < board.rooms@.len(),
                        board.rooms@.len() == old(board).rooms@.len(),
                        forall|j: int|
                            0 <= j < board.rooms@.len() && j != t ==> board.rooms@[j]
                                == old(board).rooms@[j],
                        board.rooms@[t as int].name == old(board).rooms@[t as int].name,
                        board.rooms@[t as int].halls == old(board).rooms@[t as int].halls,
                        board.rooms@[t as int].wumpus == old(board).rooms@[t as int].wumpus,
                        pre == old(board).rooms@[t as int].contents@,
                        drained@.len() + board.rooms@[t as int].contents@.len() == pre.len(),
                        board.rooms@[t as int].contents@ == pre.take(
                            board.rooms@[t as int].contents@.len() as int,
                        ),
                        drained@ == pre.skip(
                            pre.len() - drained@.len(),
                        ).reverse(),
                        self.location == old(self).location,
                        self.won == old(self).won,
                        drain_ok(self.hp as int, self.gold as int, board.rooms@[t as int].contents@),
                        apply_all(
                            self.hp as int,
                            self.gold as int,
                            board.rooms@[t as int].contents@,
                        ) == apply_all(old(self).hp as int, old(self).gold as int, pre),
                    ensures
                        board.rooms@.len() == old(board).rooms@.len(),
                        forall|j: int|
                            0 <= j < board.rooms@.len() && j != t ==> board.rooms@[j]
                                == old(board).rooms@[j],
                        board.rooms@[t as int].name == old(board).rooms@[t as int].name,
                        board.rooms@[t as int].halls == old(board).rooms@[t as int].halls,
                        board.rooms@[t as int].wumpus == old(board).rooms@[t as int].wumpus,
                        board.rooms@[t as int].contents@ == Seq::<Curio>::empty(),
                        drained@ == pre.reverse(),
                        self.location == old(self).location,
                        self.won == old(self).won,
                        (self.hp as int, self.gold as int) == apply_all(
                            old(self).hp as int,
                            old(self).gold as int,
                            pre,
                        ),
                    decreases board.rooms@[t as int].contents@.len(),
                {
                    let c = board.rooms[t].take_content();
                    match c {
                        Some(curio) => {
                            proof {
                                let cs = board.rooms@[t as int].contents@;
                                assert(cs.push(curio) == pre.take(cs.len() as int + 1));
                                assert(cs =~= pre.take(cs.len() as int));
                                assert(pre.take(cs.len() as int + 1).last() == pre[cs.len() as int]);
                                assert(pre.take(cs.len() as int + 1).drop_last() =~= cs);
                            }
                            self.apply_effect(&curio);
                            drained.push(curio);
                            proof {
                                let done = drained@.len() as int;
                                assert(drained@ =~= pre.skip(pre.len() - done).reverse());
                            }
                        },
                        None => {
                            proof {
                                assert(board.rooms@[t as int].contents@ =~= Seq::<Curio>::empty());
                                assert(pre.skip(0) =~= pre);
                            }
                            break;
                        },
                    }
                }
                self.location = t;
                Ok(Outcome::Moved { room: t, drained })
            },
            Command::Shoot(room_name) => {
                let t = self.find_room(board, room_name)?;
                if board.rooms[t].wumpus {
                    board.rooms[t].kill_wumpus();
                    self.won = true;
                    Ok(Outcome::Hit { room: t })
                } else {
                    Ok(Outcome::Miss { room: t })
                }
            },
        }
    }

    /// Applies one curio with checked arithmetic: the new stats where every
    /// step stays within `i32`, and `None` where one would not.
    fn apply_checked(hp: i32, gold: i32, curio: &Curio) -> (r: Option<(i32, i32)>)
        ensures
            r is Some <==> curio_ok(hp as int, gold as int, *curio),
            r matches Some(p) ==> (p.0 as int, p.1 as int) == apply_curio(
                hp as int,
                gold as int,
                *curio,
            ),
        decreases *curio,
    {
        match curio {
            Curio::Chest(g) => {
                match gold.checked_add(*g) {
                    Some(g2) => Some((hp, g2)),
                    None => None,
                }
            },
            Curio::SpikeTrap(d) => {
                match hp.checked_sub(*d) {
                    Some(h2) => Some((h2, gold)),
                    None => None,
                }
            },
            Curio::Food(h) => {
                match hp.checked_add(*h) {
                    Some(h2) => Some(
                        (
                            if h2 > MAX_HP {
                                MAX_HP
                            } else {
                                h2
                            },
                            gold,
                        ),
                    ),
                    None => None,
                }
            },
            Curio::IronMaiden(sub, d) => {
                match hp.checked_sub(*d) {
                    Some(h2) => Self::apply_checked(h2, gold, sub),
                    None => None,
                }
            },
            Curio::FallenAdventurer(sub) => Self::apply_checked(hp, gold, sub),
        }
    }

    /// Whether a whole drain of `contents` keeps the stats within `i32`.
    fn drain_fits(hp: i32, gold: i32, contents: &Vec<Curio>) -> (b: bool)
        ensures
            b == drain_ok(hp as int, gold as int, contents@),
    {
        let mut h = hp;
        let mut g = gold;
        let mut j = contents.len();
        proof {
            assert(contents@.take(j as int) =~= contents@);
        }
        while j > 0
            invariant
                j <= contents@.len(),
                drain_ok(hp as int, gold as int, contents@) == drain_ok(
                    h as int,
                    g as int,
                    contents@.take(j as int),
                ),
            decreases j,
        {
            proof {
                assert(contents@.take(j as int).last() == contents@[j - 1]);
                assert(contents@.take(j as int).drop_last() =~= contents@.take(j - 1));
            }
            match Self::apply_checked(h, g, &contents[j - 1]) {
                Some(p) => {
                    h = p.0;
                    g = p.1;
                },
                None => {
                    return false;
                },
            }
            j -= 1;
        }
        proof {
            assert(contents@.take(0) =~= Seq::<Curio>::empty());
        }
        true
    }

    /// Like [`Player::act`], but refuses a move whose drain would push the
    /// stats outside `i32` instead of asking the caller to rule it out:
    /// `None` means exactly that, and leaves everything unchanged.
    pub fn try_act(&mut self, board: &mut Board, cmd: Command) -> (r: Option<
        Result<Outcome, ActionError>,
    >)
        requires
            old(self).location < old(board).rooms@.len(),
            board_wf(*old(board)),
        ensures
            match r {
                Some(inner) => act_rel(
                    *old(board),
                    *old(self),
                    cmd,
                    *final(board),
                    *final(self),
                    inner,
                ),
                None => *final(self) == *old(self) && *final(board) == *old(board),
            },
            r is None <==> (cmd matches Command::Go(name) && (resolve(
                old(board).rooms@,
                old(self).location as int,
                lower_of(name@),
            ) matches Some(t) && !drain_ok(
                old(self).hp as int,
                old(self).gold as int,
                old(board).rooms@[t].contents@,
            ))),
    {
        if let Command::Go(name) = &cmd {
            match self.find_room(board, name.clone()) {
                Ok(t) => {
                    if !Self::drain_fits(self.hp, self.gold, &board.rooms[t].contents) {
                        return None;
                    }
                },
                Err(_) => {},
            }
        }
        Some(self.act(board, cmd))
    }
}

} // verus!
