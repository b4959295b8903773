use vstd::prelude::*;

verus! {

/// One movement intent of a tick.
#[derive(Clone, Copy, Debug, PartialEq, Eq, Structural)]
pub enum PossibleMovements {
    NoInput,
    Forward,
    Backwards,
    Left,
    Right,
}

/// Wire code of an intent.
pub open spec fn code_of(m: PossibleMovements) -> u8 {
    match m {
        PossibleMovements::NoInput => 0,
        PossibleMovements::Forward => 1,
        PossibleMovements::Backwards => 2,
        PossibleMovements::Left => 3,
        PossibleMovements::Right => 4,
    }
}

/// Horizontal displacement of a code, in movement steps (one step is the
/// movement speed of a tick).
pub open spec fn dx_of(code: u8) -> int {
    if code == 3 {
        -1
    } else if code == 4 {
        1
    } else {
        0
    }
}

/// Vertical displacement of a code, in movement steps.
pub open spec fn dy_of(code: u8) -> int {
    if code == 1 {
        1
    } else if code == 2 {
        -1
    } else {
        0
    }
}

/// Sum of the horizontal displacements of a run of codes.
pub open spec fn sum_dx(codes: Seq<u8>) -> int
    decreases codes.len(),
{
    if codes.len() == 0 {
        0
    } else {
        sum_dx(codes.drop_last()) + dx_of(codes.last())
    }
}

/// Sum of the vertical displacements of a run of codes.
pub open spec fn sum_dy(codes: Seq<u8>) -> int
    decreases codes.len(),
{
    if codes.len() == 0 {
        0
    } else {
        sum_dy(codes.drop_last()) + dy_of(codes.last())
    }
}

/// A displacement of one tick, in movement steps on each axis.
#[derive(Clone, Copy, Debug, PartialEq, Eq, Structural)]
pub struct Delta {
    pub dx: i8,
    pub dy: i8,
}

/// Maps an intent to its wire code and its displacement.
pub fn encode(m: PossibleMovements) -> (r: (u8, Delta))
    ensures
        r.0 == code_of(m),
        r.0 <= 4,
        r.1.dx as int == dx_of(r.0),
        r.1.dy as int == dy_of(r.0),
{
    match m {
        PossibleMovements::NoInput => (0, Delta { dx: 0, dy: 0 }),
        PossibleMovements::Forward => (1, Delta { dx: 0, dy: 1 }),
        PossibleMovements::Backwards => (2, Delta { dx: 0, dy: -1 }),
        PossibleMovements::Left => (3, Delta { dx: -1, dy: 0 }),
        PossibleMovements::Right => (4, Delta { dx: 1, dy: 0 }),
    }
}

/// The sums over a single code are that code's displacements.
pub proof fn lemma_sum_single(c: u8)
    ensures
        sum_dx(seq![c]) == dx_of(c),
        sum_dy(seq![c]) == dy_of(c),
{
    assert(seq![c].drop_last() =~= Seq::<u8>::empty());
    assert(sum_dx(Seq::<u8>::empty()) == 0);
    assert(sum_dy(Seq::<u8>::empty()) == 0);
}

/// Sums of displacements split over a concatenation.
pub proof fn lemma_sum_concat(a: Seq<u8>, b: Seq<u8>)
    ensures
        sum_dx(a + b) == sum_dx(a) + sum_dx(b),
        sum_dy(a + b) == sum_dy(a) + sum_dy(b),
    decreases b.len(),
{
    if b.len() == 0 {
        assert(a + b =~= a);
    } else {
        lemma_sum_concat(a, b.drop_last());
        assert((a + b).drop_last() =~= a + b.drop_last());
    }
}

} // verus!
