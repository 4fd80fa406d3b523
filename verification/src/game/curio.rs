use vstd::prelude::*;

use crate::text::{dec_int, push_dec_i32};

verus! {

/// A recursive effect value found in a room and applied to the player on
/// entry. Nesting is by owned value, so a curio is finite by construction.
#[derive(Debug, PartialEq, Eq)]
pub enum Curio {
    Chest(i32),
    SpikeTrap(i32),
    Food(i32),
    IronMaiden(Box<Curio>, i32),
    FallenAdventurer(Box<Curio>),
}

/// The one-line rendering of a curio, amounts included.
pub open spec fn curio_desc(c: Curio) -> Seq<char>
    decreases c,
{
    match c {
        Curio::Chest(g) => "Chest("@ + dec_int(g as int) + ")"@,
        Curio::SpikeTrap(d) => "SpikeTrap("@ + dec_int(d as int) + ")"@,
        Curio::Food(h) => "Food("@ + dec_int(h as int) + ")"@,
        Curio::IronMaiden(sub, d) => "IronMaiden("@ + curio_desc(*sub) + ", "@ + dec_int(d as int)
            + ")"@,
        Curio::FallenAdventurer(sub) => "FallenAdventurer("@ + curio_desc(*sub) + ")"@,
    }
}

/// The renderings of the curios from index `j` on, joined with a comma and
/// a space.
pub open spec fn curio_list_from(cs: Seq<Curio>, j: int) -> Seq<char>
    decreases cs.len() - j,
{
    if j < 0 || j >= cs.len() {
        Seq::empty()
    } else if j == cs.len() - 1 {
        curio_desc(cs[j])
    } else {
        curio_desc(cs[j]) + ", "@ + curio_list_from(cs, j + 1)
    }
}

/// The renderings of all curios, joined with a comma and a space.
pub open spec fn curio_list(cs: Seq<Curio>) -> Seq<char> {
    curio_list_from(cs, 0)
}

/// Appends the renderings of all curios in `cs`, joined with a comma and a
/// space, to `out`.
pub fn push_curio_list(out: &mut String, cs: &Vec<Curio>)
    ensures
        final(out)@ == old(out)@ + curio_list(cs@),
{
    let n = cs.len();
    let mut j: usize = 0;
    while j < n
        invariant
            j <= n,
            n == cs@.len(),
            old(out)@ + curio_list_from(cs@, 0) == out@ + curio_list_from(cs@, j as int),
        decreases n - j,
    {
        push_curio_desc(out, &cs[j]);
        if j + 1 < n {
            proof {
                reveal_strlit(", ");
            }
            out.append(", ");
        }
        proof {
            assert(old(out)@ + curio_list_from(cs@, 0) =~= out@ + curio_list_from(
                cs@,
                j as int + 1,
            ));
        }
        j += 1;
    }
    proof {
        assert(final(out)@ =~= old(out)@ + curio_list(cs@));
    }
}

/// Appends the rendering of `c` to `out`.
pub fn push_curio_desc(out: &mut String, c: &Curio)
    ensures
        final(out)@ == old(out)@ + curio_desc(*c),
    decreases *c,
{
    proof {
        reveal_strlit("Chest(");
        reveal_strlit("SpikeTrap(");
        reveal_strlit("Food(");
        reveal_strlit("IronMaiden(");
        reveal_strlit("FallenAdventurer(");
        reveal_strlit(", ");
        reveal_strlit(")");
    }
    match c {
        Curio::Chest(g) => {
            out.append("Chest(");
            push_dec_i32(out, *g);
            out.append(")");
        },
        Curio::SpikeTrap(d) => {
            out.append("SpikeTrap(");
            push_dec_i32(out, *d);
            out.append(")");
        },
        Curio::Food(h) => {
            out.append("Food(");
            push_dec_i32(out, *h);
            out.append(")");
        },
        Curio::IronMaiden(sub, d) => {
            out.append("IronMaiden(");
            push_curio_desc(out, sub);
            out.append(", ");
            push_dec_i32(out, *d);
            out.append(")");
        },
        Curio::FallenAdventurer(sub) => {
            out.append("FallenAdventurer(");
            push_curio_desc(out, sub);
            out.append(")");
        },
    }
    proof {
        assert(final(out)@ =~= old(out)@ + curio_desc(*c));
    }
}

} // verus!
