use vstd::prelude::*;

use crate::game::board::Board;
use crate::game::curio::{curio_list, push_curio_list, Curio};
use crate::game::hall::Hall;

verus! {

/// The line describing the room at the far end of `h`, seen from room `me`:
/// its name, its remaining curios, and whether the wumpus is there.
pub open spec fn hall_blurb(rooms: Seq<Room>, h: Hall, me: int) -> Seq<char> {
    let o = h.spec_other(me);
    "- to "@ + rooms[o].name@ + (if rooms[o].contents@.len() > 0 {
        " contains "@ + curio_list(rooms[o].contents@)
    } else {
        Seq::empty()
    }) + (if rooms[o].wumpus {
        ". Wumpus is in the room"@
    } else {
        Seq::empty()
    }) + ".\n"@
}

/// One line per hall of room `me`, in the order the halls were registered.
pub open spec fn blurbs(rooms: Seq<Room>, halls: Seq<Hall>, me: int) -> Seq<char>
    decreases halls.len(),
{
    if halls.len() == 0 {
        Seq::empty()
    } else {
        blurbs(rooms, halls.drop_last(), me) + hall_blurb(rooms, halls.last(), me)
    }
}

/// The whole neighbour listing: a leading newline, then one line per hall.
pub open spec fn neighbors_desc(rooms: Seq<Room>, halls: Seq<Hall>, me: int) -> Seq<char> {
    "\n"@ + blurbs(rooms, halls, me)
}

/// A named node of the world graph. Contents drain last-in-first-out; the
/// edge list is frozen once the board is built.
#[derive(Debug)]
pub struct Room {
    pub name: String,
    pub contents: Vec<Curio>,
    pub halls: Vec<Hall>,
    pub wumpus: bool,
}

impl PartialEq for Room {
    /// Rooms are identified by name.
    fn eq(&self, other: &Self) -> (r: bool) {
        self.name == other.name
    }
}

impl Eq for Room {

}

impl vstd::std_specs::cmp::PartialEqSpecImpl for Room {
    open spec fn obeys_eq_spec() -> bool {
        true
    }

    open spec fn eq_spec(&self, other: &Room) -> bool {
        self.name@ == other.name@
    }
}

impl Room {
    pub fn add_hall(&mut self, hall: Hall)
        ensures
            final(self).halls@ == old(self).halls@.push(hall),
            final(self).name == old(self).name,
            final(self).contents == old(self).contents,
            final(self).wumpus == old(self).wumpus,
    {
        self.halls.push(hall);
    }

    /// Removes and returns the most recently added curio, or `None` once the
    /// room is empty.
    pub fn take_content(&mut self) -> (r: Option<Curio>)
        ensures
            old(self).contents@.len() == 0 ==> (r is None && final(self).contents@ == old(self).contents@),
            old(self).contents@.len() > 0 ==> (r == Some(old(self).contents@.last())
                && final(self).contents@ == old(self).contents@.drop_last()),
            final(self).name == old(self).name,
            final(self).halls == old(self).halls,
            final(self).wumpus == old(self).wumpus,
    {
        self.contents.pop()
    }

    pub fn kill_wumpus(&mut self)
        ensures
            final(self).wumpus == false,
            final(self).name == old(self).name,
            final(self).contents == old(self).contents,
            final(self).halls == old(self).halls,
    {
        self.wumpus = false;
    }

    /// A human-readable listing of every room adjacent to this one — resolved
    /// through each hall's far end — with its remaining curios and wumpus
    /// presence. `me` is this room's own handle on the board.
    #[verifier::loop_isolation(false)]
    pub fn neighbors_string(&self, board: &Board, me: usize) -> (s: String)
        requires
            forall|j: int|
                0 <= j < self.halls@.len() ==> (#[trigger] self.halls@[j]).left
                    < board.rooms@.len() && self.halls@[j].right < board.rooms@.len(),
        ensures
            s@ == neighbors_desc(board.rooms@, self.halls@, me as int),
    {
        proof {
            reveal_strlit("\n");
            reveal_strlit("- to ");
            reveal_strlit(" contains ");
            reveal_strlit(". Wumpus is in the room");
            reveal_strlit(".\n");
        }
        let mut result = String::new();
        result.append("\n");
        let n = self.halls.len();
        let mut i: usize = 0;
        proof {
            assert(self.halls@.take(0) =~= Seq::<Hall>::empty());
        }
        while i < n
            invariant
                i <= n,
                result@ == "\n"@ + blurbs(board.rooms@, self.halls@.take(i as int), me as int),
            decreases n - i,
        {
            let h = self.halls[i];
            let o = h.other(me);
            result.append("- to ");
            result.append(board.rooms[o].name.as_str());
            if board.rooms[o].contents.len() > 0 {
                result.append(" contains ");
                push_curio_list(&mut result, &board.rooms[o].contents);
            }
            if board.rooms[o].wumpus {
                result.append(". Wumpus is in the room");
            }
            result.append(".\n");
            proof {
                assert(self.halls@.take(i as int + 1).drop_last() =~= self.halls@.take(i as int));
                assert(self.halls@.take(i as int + 1).last() == self.halls@[i as int]);
                assert(result@ =~= "\n"@ + blurbs(
                    board.rooms@,
                    self.halls@.take(i as int + 1),
                    me as int,
                ));
            }
            i += 1;
        }
        proof {
            assert(self.halls@.take(n as int) =~= self.halls@);
        }
        result
    }
}

} // verus!
