use vstd::prelude::*;

use crate::game::curio::Curio;
use crate::game::hall::Hall;
use crate::game::room::Room;
use crate::json::{json_doc, obj_get, parse_json, Json};

verus! {

/// Why a world document was rejected; each variant names the offending part.
#[derive(Debug, Clone, Copy, PartialEq, Eq, Structural)]
pub enum ParseError {
    /// The text is not well-formed JSON.
    Document,
    /// `rooms` is missing or not an array.
    Rooms,
    /// A room entry has no string `name`.
    RoomName,
    /// A room entry has no unsigned `curios` count.
    RoomCurios,
    /// `halls` is missing or not an array.
    Halls,
    /// A hall entry is not an array of exactly two endpoints.
    HallShape,
    /// A hall endpoint is not an unsigned integer.
    HallEndpoint,
    /// A hall endpoint does not name a declared room.
    HallIndex,
}

/// The world graph: an arena of rooms, each addressed by its index.
#[derive(Debug)]
pub struct Board {
    pub rooms: Vec<Room>,
}

/// Every hall stored on a room stays inside the arena and has that room as
/// one of its ends.
pub open spec fn board_wf(b: Board) -> bool {
    forall|i: int, j: int|
        0 <= i < b.rooms@.len() && 0 <= j < b.rooms@[i].halls@.len() ==> {
            let h = #[trigger] b.rooms@[i].halls@[j];
            &&& h.left < b.rooms@.len()
            &&& h.right < b.rooms@.len()
            &&& (h.left == i || h.right == i)
        }
}

/// A room entry is usable when it binds a string `name` and an unsigned
/// `curios` count.
pub open spec fn entry_name(e: Json) -> Option<Seq<char>> {
    match obj_get(e, "name"@) {
        Some(Json::Str(s)) => Some(s@),
        _ => None,
    }
}

pub open spec fn entry_curios(e: Json) -> Option<u64> {
    match obj_get(e, "curios"@) {
        Some(Json::Num(n)) => Some(n),
        _ => None,
    }
}

/// `wumpus` defaults to false when absent or not a boolean.
pub open spec fn entry_wumpus(e: Json) -> bool {
    match obj_get(e, "wumpus"@) {
        Some(Json::Bool(w)) => w,
        _ => false,
    }
}

/// The first fault among the declared rooms, scanning in order; the name of
/// an entry is checked before its curio count.
pub open spec fn rooms_err(rs: Seq<Json>) -> Option<ParseError>
    decreases rs.len(),
{
    if rs.len() == 0 {
        None
    } else if entry_name(rs[0]) is None {
        Some(ParseError::RoomName)
    } else if entry_curios(rs[0]) is None {
        Some(ParseError::RoomCurios)
    } else {
        rooms_err(rs.drop_first())
    }
}

/// The two endpoints a hall entry declares, once it is an array of exactly
/// two unsigned integers.
pub open spec fn hall_ends(h: Json) -> Option<(u64, u64)> {
    match h {
        Json::Arr(es) => {
            if es@.len() == 2 {
                match (es@[0], es@[1]) {
                    (Json::Num(a), Json::Num(b)) => Some((a, b)),
                    _ => None,
                }
            } else {
                None
            }
        },
        _ => None,
    }
}

/// The fault of one hall entry against a world of `nrooms` rooms: shape
/// first, then each endpoint's type, then each endpoint's range.
pub open spec fn hall_err(h: Json, nrooms: int) -> Option<ParseError> {
    match h {
        Json::Arr(es) => {
            if es@.len() != 2 {
                Some(ParseError::HallShape)
            } else if !(es@[0] matches Json::Num(_)) {
                Some(ParseError::HallEndpoint)
            } else if !(es@[1] matches Json::Num(_)) {
                Some(ParseError::HallEndpoint)
            } else if es@[0]->Num_0 >= nrooms {
                Some(ParseError::HallIndex)
            } else if es@[1]->Num_0 >= nrooms {
                Some(ParseError::HallIndex)
            } else {
                None
            }
        },
        _ => Some(ParseError::HallShape),
    }
}

/// The first fault among the declared halls, scanning in order.
pub open spec fn halls_err(hs: Seq<Json>, nrooms: int) -> Option<ParseError>
    decreases hs.len(),
{
    if hs.len() == 0 {
        None
    } else if hall_err(hs[0], nrooms) is Some {
        hall_err(hs[0], nrooms)
    } else {
        halls_err(hs.drop_first(), nrooms)
    }
}

/// The halls that end up registered on room `i` after the declared list `hs`
/// is walked in order: each hall is added to its left room first, then to its
/// right room.
pub open spec fn halls_for(hs: Seq<(usize, usize)>, i: int) -> Seq<Hall>
    decreases hs.len(),
{
    if hs.len() == 0 {
        Seq::empty()
    } else {
        let a = hs.last().0;
        let b = hs.last().1;
        let h = Hall { left: a, right: b };
        halls_for(hs.drop_last(), i) + (if a == i {
            seq![h]
        } else {
            Seq::empty()
        }) + (if b == i {
            seq![h]
        } else {
            Seq::empty()
        })
    }
}

/// The endpoint pairs the hall entries declare, in order.
pub open spec fn halls_decl(hs: Seq<Json>) -> Seq<(usize, usize)> {
    hs.map_values(
        |h: Json|
            (
                hall_ends(h).unwrap().0 as usize,
                hall_ends(h).unwrap().1 as usize,
            ),
    )
}

/// The error a document is rejected with, if any: rooms are read before
/// halls, and within each list the first fault decides.
pub open spec fn build_err(doc: Json) -> Option<ParseError> {
    match obj_get(doc, "rooms"@) {
        Some(Json::Arr(rs)) => {
            if rooms_err(rs@) is Some {
                rooms_err(rs@)
            } else {
                match obj_get(doc, "halls"@) {
                    Some(Json::Arr(hs)) => halls_err(hs@, rs@.len() as int),
                    _ => Some(ParseError::Halls),
                }
            }
        },
        _ => Some(ParseError::Rooms),
    }
}

/// What a successfully built board holds, given the document and the curio
/// generator: one room per declared entry, in declaration order, with its
/// name, its wumpus flag, contents the generator produced for its count, and
/// exactly the declared halls registered on both of their end rooms.
pub open spec fn build_ok_rel<F: Fn(u64) -> Vec<Curio>>(doc: Json, gen: F, b: Board) -> bool {
    match obj_get(doc, "rooms"@) {
        Some(Json::Arr(rs)) => {
            match obj_get(doc, "halls"@) {
                Some(Json::Arr(hs)) => {
                    &&& b.rooms@.len() == rs@.len()
                    &&& forall|i: int|
                        0 <= i < rs@.len() ==> {
                            let room = #[trigger] b.rooms@[i];
                            &&& room.name@ == entry_name(rs@[i]).unwrap()
                            &&& room.wumpus == entry_wumpus(rs@[i])
                            &&& call_ensures(gen, (entry_curios(rs@[i]).unwrap(),), room.contents)
                            &&& room.halls@ == halls_for(halls_decl(hs@), i)
                        }
                },
                _ => false,
            }
        },
        _ => false,
    }
}

impl Board {
    /// Builds the world from a JSON text. The curio generator `gen` is the
    /// external policy that turns a declared count into that many curios.
    pub fn build_board<F: Fn(u64) -> Vec<Curio>>(text: &str, gen: F) -> (r: Result<
        Board,
        ParseError,
    >)
        requires
            forall|n: u64| #[trigger] call_requires(gen, (n,)),
            forall|n: u64, v: Vec<Curio>| #[trigger] call_ensures(gen, (n,), v) ==> v@.len() == n,
        ensures
            match json_doc(text@) {
                None => r matches Err(ParseError::Document),
                Some(doc) => match build_err(doc) {
                    Some(e) => r matches Err(e2) && e2 == e,
                    None => r matches Ok(b) && build_ok_rel(doc, gen, b) && board_wf(b),
                },
            },
    {
        match parse_json(text) {
            None => Err(ParseError::Document),
            Some(doc) => Self::build_board_doc(&doc, gen),
        }
    }

    /// Builds the world from an already parsed document.
    #[verifier::loop_isolation(false)]
    pub fn build_board_doc<F: Fn(u64) -> Vec<Curio>>(doc: &Json, gen: F) -> (r: Result<
        Board,
        ParseError,
    >)
        requires
            forall|n: u64| #[trigger] call_requires(gen, (n,)),
            forall|n: u64, v: Vec<Curio>| #[trigger] call_ensures(gen, (n,), v) ==> v@.len() == n,
        ensures
            match build_err(*doc) {
                Some(e) => r matches Err(e2) && e2 == e,
                None => r matches Ok(b) && build_ok_rel(*doc, gen, b) && board_wf(b),
            },
    {
        let rooms_json = match doc.get("rooms") {
            Some(Json::Arr(rs)) => rs,
            _ => {
                return Err(ParseError::Rooms);
            },
        };
        proof {
            assert(obj_get(*doc, "rooms"@) == Some(Json::Arr(*rooms_json)));
        }
        let mut rooms: Vec<Room> = Vec::new();
        let nrooms = rooms_json.len();
        let mut i: usize = 0;
        proof {
            assert(rooms_json@.skip(0) =~= rooms_json@);
        }
        while i < nrooms
            invariant
                i <= nrooms,
                nrooms == rooms_json@.len(),
                forall|n: u64| #[trigger] call_requires(gen, (n,)),
                rooms@.len() == i,
                rooms_err(rooms_json@) == rooms_err(rooms_json@.skip(i as int)),
                forall|k: int|
                    0 <= k < i ==> {
                        let room = #[trigger] rooms@[k];
                        &&& room.name@ == entry_name(rooms_json@[k]).unwrap()
                        &&& room.wumpus == entry_wumpus(rooms_json@[k])
                        &&& call_ensures(gen, (entry_curios(rooms_json@[k]).unwrap(),), room.contents)
                        &&& room.halls@ == Seq::<Hall>::empty()
                    },
            decreases nrooms - i,
        {
            proof {
                assert(rooms_json@.skip(i as int)[0] == rooms_json@[i as int]);
                assert(rooms_json@.skip(i as int).drop_first() =~= rooms_json@.skip(i as int + 1));
            }
            let entry = &rooms_json[i];
            let name = match entry.get("name") {
                Some(Json::Str(s)) => s.clone(),
                _ => {
                    return Err(ParseError::RoomName);
                },
            };
            let count = match entry.get("curios") {
                Some(Json::Num(n)) => *n,
                _ => {
                    return Err(ParseError::RoomCurios);
                },
            };
            let wumpus = match entry.get("wumpus") {
                Some(Json::Bool(w)) => *w,
                _ => false,
            };
            let contents = gen(count);
            rooms.push(Room { name, contents, halls: Vec::new(), wumpus });
            i += 1;
        }

        let halls_json = match doc.get("halls") {
            Some(Json::Arr(hs)) => hs,
            _ => {
                return Err(ParseError::Halls);
            },
        };
        proof {
            assert(obj_get(*doc, "halls"@) == Some(Json::Arr(*halls_json)));
        }
        let nhalls = halls_json.len();
        let mut k: usize = 0;
        proof {
            assert(halls_json@.skip(0) =~= halls_json@);
            assert(halls_json@.take(0) =~= Seq::<Json>::empty());
            assert(halls_decl(halls_json@.take(0)) =~= Seq::<(usize, usize)>::empty());
        }
        while k < nhalls
            invariant
                k <= nhalls,
                nhalls == halls_json@.len(),
                nrooms == rooms_json@.len(),
                rooms@.len() == nrooms,
                halls_err(halls_json@, nrooms as int) == halls_err(
                    halls_json@.skip(k as int),
                    nrooms as int,
                ),
                forall|j: int| 0 <= j < k ==> hall_err(#[trigger] halls_json@[j], nrooms as int) is None,
                forall|m: int|
                    0 <= m < nrooms ==> {
                        let room = #[trigger] rooms@[m];
                        &&& room.name@ == entry_name(rooms_json@[m]).unwrap()
                        &&& room.wumpus == entry_wumpus(rooms_json@[m])
                        &&& call_ensures(gen, (entry_curios(rooms_json@[m]).unwrap(),), room.contents)
                        &&& room.halls@ == halls_for(halls_decl(halls_json@.take(k as int)), m)
                    },
            decreases nhalls - k,
        {
            proof {
                assert(halls_json@.skip(k as int)[0] == halls_json@[k as int]);
                assert(halls_json@.skip(k as int).drop_first() =~= halls_json@.skip(k as int + 1));
            }
            let entry = &halls_json[k];
            let ends = match entry {
                Json::Arr(es) => es,
                _ => {
                    return Err(ParseError::HallShape);
                },
            };
            if ends.len() != 2 {
                return Err(ParseError::HallShape);
            }
            let a = match &ends[0] {
                Json::Num(n) => *n,
                _ => {
                    return Err(ParseError::HallEndpoint);
                },
            };
            let b = match &ends[1] {
                Json::Num(n) => *n,
                _ => {
                    return Err(ParseError::HallEndpoint);
                },
            };
            if a >= nrooms as u64 {
                return Err(ParseError::HallIndex);
            }
            if b >= nrooms as u64 {
                return Err(ParseError::HallIndex);
            }
            let a = a as usize;
            let b = b as usize;
            let hall = Hall::new(a, b);
            rooms[a].add_hall(hall);
            rooms[b].add_hall(hall);
            proof {
                let decl = halls_decl(halls_json@.take(k as int));
                let decl1 = halls_decl(halls_json@.take(k as int + 1));
                assert(halls_json@.take(k as int + 1).drop_last() =~= halls_json@.take(k as int));
                assert(decl1.drop_last() =~= decl);
                assert(decl1.last() == (a, b));
                assert forall|m: int| 0 <= m < nrooms implies #[trigger] rooms@[m].halls@
                    == halls_for(decl1, m) by {
                    if m == a || m == b {
                    } else {
                        assert(rooms@[m].halls@ =~= halls_for(decl1, m));
                    }
                }
            }
            k += 1;
        }
        proof {
            assert(halls_json@.take(nhalls as int) =~= halls_json@);
            assert(rooms_json@.skip(nrooms as int).len() == 0);
            assert(rooms_err(rooms_json@) is None);
            assert(halls_json@.skip(nhalls as int).len() == 0);
            assert(halls_err(halls_json@, nrooms as int) is None);
            assert(build_err(*doc) is None);
            let decl = halls_decl(halls_json@);
            assert forall|k: int|
                0 <= k < decl.len() implies #[trigger] decl[k].0 < nrooms && decl[k].1
                < nrooms by {
                lemma_halls_err_each(halls_json@, nrooms as int, k);
            }
            assert forall|m: int, j: int|
                0 <= m < nrooms && 0 <= j < halls_for(decl, m).len() implies {
                let h = #[trigger] halls_for(decl, m)[j];
                &&& h.left < nrooms
                &&& h.right < nrooms
                &&& (h.left == m || h.right == m)
            } by {
                lemma_halls_for_wf(decl, m, nrooms as int);
            }
            let b = Board { rooms };
            assert(board_wf(b));
        }
        Ok(Board { rooms })
    }

    /// The spawn room: the handle of the first declared room.
    pub fn spawn_location(&self) -> (r: usize)
        requires
            self.rooms@.len() > 0,
        ensures
            r == 0,
    {
        0
    }
}

/// For every valid document the built board has exactly as many rooms as
/// declared, and each declared hall `(a, b)` is registered on both rooms
/// `a` and `b`, answering `other(a) == b` and `other(b) == a`.
pub proof fn lemma_built_graph<F: Fn(u64) -> Vec<Curio>>(doc: Json, gen: F, b: Board)
    requires
        build_err(doc) is None,
        build_ok_rel(doc, gen, b),
    ensures
        (match obj_get(doc, "rooms"@) {
            Some(Json::Arr(rs)) => b.rooms@.len() == rs@.len(),
            _ => false,
        }),
        (match obj_get(doc, "halls"@) {
            Some(Json::Arr(hs)) => forall|k: int|
                0 <= k < hs@.len() ==> {
                    let a = #[trigger] halls_decl(hs@)[k].0;
                    let bb = halls_decl(hs@)[k].1;
                    let h = Hall { left: a, right: bb };
                    &&& b.rooms@[a as int].halls@.contains(h)
                    &&& b.rooms@[bb as int].halls@.contains(h)
                    &&& h.spec_other(a as int) == bb as int
                    &&& h.spec_other(bb as int) == a as int
                },
            _ => false,
        }),
{
    match obj_get(doc, "rooms"@) {
        Some(Json::Arr(rs)) => {
            match obj_get(doc, "halls"@) {
                Some(Json::Arr(hs)) => {
                    assert forall|k: int| 0 <= k < hs@.len() implies {
                        let a = #[trigger] halls_decl(hs@)[k].0;
                        let bb = halls_decl(hs@)[k].1;
                        let h = Hall { left: a, right: bb };
                        &&& b.rooms@[a as int].halls@.contains(h)
                        &&& b.rooms@[bb as int].halls@.contains(h)
                        &&& h.spec_other(a as int) == bb as int
                        &&& h.spec_other(bb as int) == a as int
                    } by {
                        let a = halls_decl(hs@)[k].0;
                        let bb = halls_decl(hs@)[k].1;
                        let h = Hall { left: a, right: bb };
                        lemma_halls_err_each(hs@, rs@.len() as int, k);
                        assert(hall_err(hs@[k], rs@.len() as int) is None);
                        assert(a < rs@.len() && bb < rs@.len());
                        lemma_halls_for_contains(halls_decl(hs@), k, a as int);
                        lemma_halls_for_contains(halls_decl(hs@), k, bb as int);
                        assert(b.rooms@[a as int].halls@ == halls_for(halls_decl(hs@), a as int));
                        assert(b.rooms@[bb as int].halls@ == halls_for(halls_decl(hs@), bb as int));
                    }
                },
                _ => {},
            }
        },
        _ => {},
    }
}

/// Every hall registered on room `i` keeps its endpoints inside a world of
/// `n` rooms and has `i` as one of them, as long as the declared endpoints
/// stay below `n`.
proof fn lemma_halls_for_wf(decl: Seq<(usize, usize)>, i: int, n: int)
    requires
        forall|k: int| 0 <= k < decl.len() ==> #[trigger] decl[k].0 < n && decl[k].1 < n,
    ensures
        forall|j: int|
            0 <= j < halls_for(decl, i).len() ==> {
                let h = #[trigger] halls_for(decl, i)[j];
                &&& h.left < n
                &&& h.right < n
                &&& (h.left == i || h.right == i)
            },
    decreases decl.len(),
{
    if decl.len() > 0 {
        assert forall|k: int| 0 <= k < decl.drop_last().len() implies #[trigger] decl.drop_last()[k].0
            < n && decl.drop_last()[k].1 < n by {
            assert(decl.drop_last()[k] == decl[k]);
        }
        lemma_halls_for_wf(decl.drop_last(), i, n);
        let base = halls_for(decl.drop_last(), i);
        let whole = halls_for(decl, i);
        let h = Hall { left: decl.last().0, right: decl.last().1 };
        assert(decl[decl.len() - 1] == decl.last());
        assert forall|j: int| 0 <= j < whole.len() implies {
            let hj = #[trigger] whole[j];
            &&& hj.left < n
            &&& hj.right < n
            &&& (hj.left == i || hj.right == i)
        } by {
            if j < base.len() {
                assert(whole[j] == base[j]);
            } else {
                assert(whole[j] == h);
            }
        }
    }
}

/// When the hall list as a whole is clean, each entry is clean.
proof fn lemma_halls_err_each(hs: Seq<Json>, nrooms: int, k: int)
    requires
        halls_err(hs, nrooms) is None,
        0 <= k < hs.len(),
    ensures
        hall_err(hs[k], nrooms) is None,
    decreases hs.len(),
{
    if k > 0 {
        lemma_halls_err_each(hs.drop_first(), nrooms, k - 1);
    }
}

/// A declared hall appears in the registered list of each of its end rooms.
proof fn lemma_halls_for_contains(decl: Seq<(usize, usize)>, k: int, i: int)
    requires
        0 <= k < decl.len(),
        decl[k].0 == i || decl[k].1 == i,
    ensures
        halls_for(decl, i).contains(Hall { left: decl[k].0, right: decl[k].1 }),
    decreases decl.len(),
{
    if k == decl.len() - 1 {
        let h = Hall { left: decl.last().0, right: decl.last().1 };
        let base = halls_for(decl.drop_last(), i);
        let whole = halls_for(decl, i);
        assert(whole == base + (if decl.last().0 == i {
            seq![h]
        } else {
            Seq::<Hall>::empty()
        }) + (if decl.last().1 == i {
            seq![h]
        } else {
            Seq::<Hall>::empty()
        }));
        assert(whole[base.len() as int] == h);
        assert(base.len() < whole.len());
        assert(whole.contains(h));
    } else {
        lemma_halls_for_contains(decl.drop_last(), k, i);
        let h = Hall { left: decl[k].0, right: decl[k].1 };
        let base = halls_for(decl.drop_last(), i);
        let idx = choose|idx: int| 0 <= idx < base.len() && base[idx] == h;
        assert(halls_for(decl, i)[idx] == h);
    }
}

} // verus!
