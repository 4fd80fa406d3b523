use vstd::prelude::*;

verus! {

/// One of the three pegs of the puzzle.
#[derive(Clone, Copy, Debug, Eq, PartialEq, Structural)]
pub enum Peg {
    A,
    B,
    C,
}

/// A move between two pegs: (source, destination).
pub type Move = (Peg, Peg);

/// The move sequence that carries `n` discs from `src` to `dst` over `aux`:
/// the smaller tower goes aside, the base disc crosses, the smaller tower
/// follows.
pub open spec fn hanoi_moves(n: int, src: Peg, aux: Peg, dst: Peg) -> Seq<Move>
    decreases n,
{
    if n <= 1 {
        seq![(src, dst)]
    } else {
        hanoi_moves(n - 1, src, dst, aux) + seq![(src, dst)] + hanoi_moves(n - 1, aux, src, dst)
    }
}

/// Solves for the sequence of moves required to move all discs from `src` to
/// `dst`.
pub fn hanoi(num_discs: u32, src: Peg, aux: Peg, dst: Peg) -> (r: Vec<Move>)
    requires
        num_discs >= 1,
    ensures
        r@ == hanoi_moves(num_discs as int, src, aux, dst),
{
    let mut result: Vec<Move> = Vec::new();
    hanoi_impl(num_discs, src, aux, dst, &mut result);
    proof {
        assert(result@ =~= hanoi_moves(num_discs as int, src, aux, dst));
    }
    result
}

fn hanoi_impl(n: u32, src: Peg, aux: Peg, dst: Peg, result: &mut Vec<Move>)
    requires
        n >= 1,
    ensures
        final(result)@ == old(result)@ + hanoi_moves(n as int, src, aux, dst),
    decreases n,
{
    if n == 1 {
        result.push((src, dst));
        proof {
            assert(final(result)@ =~= old(result)@ + hanoi_moves(n as int, src, aux, dst));
        }
    } else {
        hanoi_impl(n - 1, src, dst, aux, result);
        result.push((src, dst));
        hanoi_impl(n - 1, aux, src, dst, result);
        proof {
            assert(final(result)@ =~= old(result)@ + hanoi_moves(n as int, src, aux, dst));
        }
    }
}

} // verus!
