use vstd::prelude::*;
use crate::codec::{
    code_of, dx_of, dy_of, encode, lemma_sum_concat, lemma_sum_single, sum_dx, sum_dy, PossibleMovements,
};
use crate::input::{Direction, Input};

verus! {

/// Number of codes sent together in one batch.
pub const BUFFER_SIZE: usize = 8;

/// A location on the plane, counted in movement steps from the origin on
/// each axis.
#[derive(Clone, Copy, Debug, PartialEq, Eq, Structural)]
pub struct Position {
    pub x: i64,
    pub y: i64,
}

/// The code of a direction when it is held, nothing otherwise.
pub open spec fn held(on: bool, code: u8) -> Seq<u8> {
    if on {
        seq![code]
    } else {
        Seq::<u8>::empty()
    }
}

/// The codes that one tick produces from the held directions: one per held
/// direction in the order forward, backward, left, right, or a single
/// no-input code when none is held.
pub open spec fn tick_codes(input: Input) -> Seq<u8> {
    let codes = held(input.forward, 1) + held(input.backward, 2) + held(input.left, 3)
        + held(input.right, 4);
    if codes.len() == 0 {
        seq![0u8]
    } else {
        codes
    }
}

/// Horizontal displacement of one tick, in steps: right minus left.
pub open spec fn tick_dx(input: Input) -> int {
    (if input.right { 1int } else { 0int }) - (if input.left { 1int } else { 0int })
}

/// Vertical displacement of one tick, in steps: forward minus backward.
pub open spec fn tick_dy(input: Input) -> int {
    (if input.forward { 1int } else { 0int }) - (if input.backward { 1int } else { 0int })
}

/// The codes of a tick move the position by the tick's displacement.
pub proof fn lemma_tick_displacement(input: Input)
    ensures
        sum_dx(tick_codes(input)) == tick_dx(input),
        sum_dy(tick_codes(input)) == tick_dy(input),
{
    let a = held(input.forward, 1);
    let b = held(input.backward, 2);
    let c = held(input.left, 3);
    let d = held(input.right, 4);
    lemma_sum_single(0);
    lemma_sum_single(1);
    lemma_sum_single(2);
    lemma_sum_single(3);
    lemma_sum_single(4);
    assert(sum_dx(Seq::<u8>::empty()) == 0 && sum_dy(Seq::<u8>::empty()) == 0);
    lemma_sum_concat(a, b);
    lemma_sum_concat(a + b, c);
    lemma_sum_concat(a + b + c, d);
}

/// Every code is a valid wire code.
pub open spec fn valid_codes(codes: Seq<u8>) -> bool {
    forall|i: int| 0 <= i < codes.len() ==> #[trigger] codes[i] <= 4
}

/// The local participant: its pending batch, its position, and its input.
pub struct Player {
    buffer: Vec<u8>,
    position: Position,
    sent: Ghost<Seq<u8>>,
    input: Input,
}

impl Player {
    /// Codes pushed and not yet handed out in a batch.
    pub closed spec fn pending(&self) -> Seq<u8> {
        self.buffer@
    }

    /// Every code handed out in a batch so far, in order.
    pub closed spec fn sent_codes(&self) -> Seq<u8> {
        self.sent@
    }

    /// The held directions.
    pub closed spec fn flags(&self) -> Input {
        self.input
    }

    /// The local position.
    pub closed spec fn pos(&self) -> Position {
        self.position
    }

    /// The batch is below its size, whole batches only were handed out, all
    /// codes are wire codes, and the position is where those codes lead.
    pub closed spec fn wf(&self) -> bool {
        &&& self.buffer@.len() < BUFFER_SIZE
        &&& self.sent@.len() % (BUFFER_SIZE as nat) == 0
        &&& valid_codes(self.sent@ + self.buffer@)
        &&& self.position.x == sum_dx(self.sent@ + self.buffer@)
        &&& self.position.y == sum_dy(self.sent@ + self.buffer@)
    }

    /// A position that one more step on either axis cannot overflow.
    pub open spec fn room_to_move(&self) -> bool {
        &&& i64::MIN < self.pos().x < i64::MAX
        &&& i64::MIN < self.pos().y < i64::MAX
    }

    /// How a tick that started with `base` pending and `base_sent` sent
    /// stands after pushing `pushed`, with `out` the batch handed out so far.
    spec fn tick_progress(
        &self,
        out: Option<Vec<u8>>,
        base: Seq<u8>,
        base_sent: Seq<u8>,
        pushed: Seq<u8>,
    ) -> bool {
        let all = base + pushed;
        match out {
            None => {
                &&& all.len() < BUFFER_SIZE
                &&& self.pending() == all
                &&& self.sent_codes() == base_sent
            },
            Some(b) => {
                &&& all.len() >= BUFFER_SIZE
                &&& b@ == all.take(BUFFER_SIZE as int)
                &&& self.pending() == all.skip(BUFFER_SIZE as int)
                &&& self.sent_codes() == base_sent + all.take(BUFFER_SIZE as int)
            },
        }
    }

    /// With `out` and the pending codes as a tick left them, nothing pushed
    /// is lost: sent and pending codes together are what there was plus
    /// what was pushed.
    proof fn lemma_progress_total(
        &self,
        out: Option<Vec<u8>>,
        base: Seq<u8>,
        base_sent: Seq<u8>,
        pushed: Seq<u8>,
    )
        requires
            self.tick_progress(out, base, base_sent, pushed),
        ensures
            self.sent_codes() + self.pending() == base_sent + base + pushed,
    {
        let all = base + pushed;
        if out.is_some() {
            assert(all.take(BUFFER_SIZE as int) + all.skip(BUFFER_SIZE as int) =~= all);
        }
        assert(self.sent_codes() + self.pending() =~= base_sent + (base + pushed));
        assert(base_sent + base + pushed =~= base_sent + (base + pushed));
    }

    /// One push of a tick, keeping the batch handed out, if any, in `out`.
    fn tick_push(
        &mut self,
        movement: PossibleMovements,
        out: &mut Option<Vec<u8>>,
        Ghost(base): Ghost<Seq<u8>>,
        Ghost(base_sent): Ghost<Seq<u8>>,
        Ghost(pushed): Ghost<Seq<u8>>,
    )
        requires
            old(self).wf(),
            i64::MIN <= old(self).pos().x + dx_of(code_of(movement)) <= i64::MAX,
            i64::MIN <= old(self).pos().y + dy_of(code_of(movement)) <= i64::MAX,
            base.len() < BUFFER_SIZE,
            pushed.len() < 4,
            old(self).tick_progress(*old(out), base, base_sent, pushed),
        ensures
            final(self).wf(),
            final(self).flags() == old(self).flags(),
            final(self).pos().x == old(self).pos().x + dx_of(code_of(movement)),
            final(self).pos().y == old(self).pos().y + dy_of(code_of(movement)),
            final(self).tick_progress(*final(out), base, base_sent, pushed.push(code_of(movement))),
    {
        let ghost before = self.pending();
        let ghost all = base + pushed;
        let ghost all2 = base + pushed.push(code_of(movement));
        assert(all2 =~= all.push(code_of(movement)));
        let r = self.add_movement(movement);
        match r {
            Some(b) => {
                proof {
                    if out.is_some() {
                        assert(before == all.skip(BUFFER_SIZE as int));
                        assert(false);
                    }
                    assert(all2.take(BUFFER_SIZE as int) =~= all2);
                    assert(all2.skip(BUFFER_SIZE as int) =~= Seq::<u8>::empty());
                }
                *out = Some(b);
            },
            None => {
                proof {
                    if out.is_some() {
                        assert(all2.take(BUFFER_SIZE as int) =~= all.take(BUFFER_SIZE as int));
                        assert(all2.skip(BUFFER_SIZE as int) =~= all.skip(BUFFER_SIZE as int).push(code_of(movement)));
                    }
                }
            },
        }
    }

    /// Runs one tick: pushes one code per held direction, in the order
    /// forward, backward, left, right, each moving the position, or the
    /// no-input code when none is held. A batch that fills up on the way is
    /// handed back, to be sent, and the rest stays pending.
    pub fn update(&mut self) -> (r: Option<Vec<u8>>)
        requires
            old(self).wf(),
            old(self).room_to_move(),
        ensures
            final(self).wf(),
            final(self).flags() == old(self).flags(),
            final(self).pos().x == old(self).pos().x + tick_dx(old(self).flags()),
            final(self).pos().y == old(self).pos().y + tick_dy(old(self).flags()),
            ({
                let all = old(self).pending() + tick_codes(old(self).flags());
                match r {
                    Some(batch) => {
                        &&& all.len() >= BUFFER_SIZE
                        &&& batch@ == all.take(BUFFER_SIZE as int)
                        &&& final(self).pending() == all.skip(BUFFER_SIZE as int)
                        &&& final(self).sent_codes() == old(self).sent_codes() + all.take(BUFFER_SIZE as int)
                    },
                    None => {
                        &&& all.len() < BUFFER_SIZE
                        &&& final(self).pending() == all
                        &&& final(self).sent_codes() == old(self).sent_codes()
                    },
                }
            }),
    {
        let ghost base = self.pending();
        let ghost base_sent = self.sent_codes();
        let ghost x0 = self.pos().x as int;
        let ghost y0 = self.pos().y as int;
        let flags = self.input;
        let mut out: Option<Vec<u8>> = None;
        let ghost mut pushed = Seq::<u8>::empty();
        assert(base + pushed =~= base);
        if flags.forward {
            self.tick_push(PossibleMovements::Forward, &mut out, Ghost(base), Ghost(base_sent), Ghost(pushed));
            proof { pushed = pushed.push(1u8); }
        }
        assert(pushed =~= held(flags.forward, 1));
        if flags.backward {
            self.tick_push(PossibleMovements::Backwards, &mut out, Ghost(base), Ghost(base_sent), Ghost(pushed));
            proof { pushed = pushed.push(2u8); }
        }
        assert(pushed =~= held(flags.forward, 1) + held(flags.backward, 2));
        if flags.left {
            self.tick_push(PossibleMovements::Left, &mut out, Ghost(base), Ghost(base_sent), Ghost(pushed));
            proof { pushed = pushed.push(3u8); }
        }
        assert(pushed =~= held(flags.forward, 1) + held(flags.backward, 2) + held(flags.left, 3));
        if flags.right {
            self.tick_push(PossibleMovements::Right, &mut out, Ghost(base), Ghost(base_sent), Ghost(pushed));
            proof { pushed = pushed.push(4u8); }
        }
        assert(pushed =~= held(flags.forward, 1) + held(flags.backward, 2) + held(flags.left, 3)
            + held(flags.right, 4));
        if !flags.input() {
            self.tick_push(PossibleMovements::NoInput, &mut out, Ghost(base), Ghost(base_sent), Ghost(pushed));
            proof { pushed = pushed.push(0u8); }
        }
        proof {
            assert(pushed =~= tick_codes(flags));
            self.lemma_progress_total(out, base, base_sent, pushed);
            lemma_sum_concat(base_sent + base, pushed);
            lemma_tick_displacement(flags);
        }
        out
    }

    /// A player at the origin, with an empty batch and no direction held.
    pub fn new() -> (r: Self)
        ensures
            r.wf(),
            r.pending() == Seq::<u8>::empty(),
            r.sent_codes() == Seq::<u8>::empty(),
            r.pos() == (Position { x: 0, y: 0 }),
            !r.flags().any_active(),
    {
        let r = Player {
            buffer: Vec::new(),
            position: Position { x: 0, y: 0 },
            sent: Ghost(Seq::empty()),
            input: Input::default(),
        };
        assert(r.sent@ + r.buffer@ =~= Seq::<u8>::empty());
        r
    }

    /// The local position.
    pub fn local_snapshot(&self) -> (r: Position)
        ensures
            r == self.pos(),
    {
        self.position
    }

    /// The held directions.
    pub fn input(&self) -> (r: Input)
        ensures
            r == self.flags(),
    {
        self.input
    }

    /// Records a key-down (`pressed`) or key-up edge of a directional key.
    pub fn key_event(&mut self, d: Direction, pressed: bool)
        requires
            old(self).wf(),
        ensures
            final(self).wf(),
            final(self).flags() == old(self).flags().after_key(d, pressed),
            final(self).pending() == old(self).pending(),
            final(self).sent_codes() == old(self).sent_codes(),
            final(self).pos() == old(self).pos(),
    {
        self.input.key_event(d, pressed);
    }

    /// The codes of the batch being filled.
    pub fn buffer(&self) -> (r: &Vec<u8>)
        ensures
            r@ == self.pending(),
    {
        &self.buffer
    }

    /// Applies one intent: moves the position by its displacement and pushes
    /// its code. When the batch reaches its size it is handed back, to be
    /// sent, and the batch starts over empty.
    pub fn add_movement(&mut self, movement: PossibleMovements) -> (r: Option<Vec<u8>>)
        requires
            old(self).wf(),
            i64::MIN <= old(self).pos().x + dx_of(code_of(movement)) <= i64::MAX,
            i64::MIN <= old(self).pos().y + dy_of(code_of(movement)) <= i64::MAX,
        ensures
            final(self).wf(),
            final(self).flags() == old(self).flags(),
            final(self).pos().x == old(self).pos().x + dx_of(code_of(movement)),
            final(self).pos().y == old(self).pos().y + dy_of(code_of(movement)),
            ({
                let all = old(self).pending().push(code_of(movement));
                match r {
                    Some(batch) => {
                        &&& all.len() == BUFFER_SIZE
                        &&& batch@ == all
                        &&& final(self).pending() == Seq::<u8>::empty()
                        &&& final(self).sent_codes() == old(self).sent_codes() + all
                    },
                    None => {
                        &&& all.len() < BUFFER_SIZE
                        &&& final(self).pending() == all
                        &&& final(self).sent_codes() == old(self).sent_codes()
                    },
                }
            }),
    {
        let (code, delta) = encode(movement);
        proof {
            let all = self.sent@ + self.buffer@;
            lemma_sum_concat(all, seq![code]);
            assert(self.sent@ + self.buffer@.push(code) =~= all + seq![code]);
            lemma_sum_single(code);
        }
        self.buffer.push(code);
        self.position = Position {
            x: self.position.x + delta.dx as i64,
            y: self.position.y + delta.dy as i64,
        };
        if self.buffer.len() == BUFFER_SIZE {
            let mut batch: Vec<u8> = Vec::new();
            std::mem::swap(&mut batch, &mut self.buffer);
            proof {
                let old_sent = self.sent@;
                self.sent = Ghost(old_sent + batch@);
                assert(self.sent@ + self.buffer@ =~= old_sent + batch@);
            }
            Some(batch)
        } else {
            None
        }
    }
}

} // verus!

verus! {

/// Pending codes and the batches handed out after `n` ticks that each push
/// `codes`, starting from `pending`, by the rule of [`Player::update`].
pub open spec fn run_ticks(pending: Seq<u8>, codes: Seq<u8>, n: nat) -> (Seq<u8>, Seq<Seq<u8>>)
    decreases n,
{
    if n == 0 {
        (pending, Seq::empty())
    } else {
        let (p, batches) = run_ticks(pending, codes, (n - 1) as nat);
        let all = p + codes;
        if all.len() >= BUFFER_SIZE {
            (all.skip(BUFFER_SIZE as int), batches.push(all.take(BUFFER_SIZE as int)))
        } else {
            (all, batches)
        }
    }
}

/// `n` no-input codes.
pub open spec fn zeros(n: nat) -> Seq<u8> {
    Seq::new(n, |i: int| 0u8)
}

/// A player's position is always the sum of the displacements of every
/// code it has pushed: those of all batches handed out so far, then those of
/// the batch being filled.
pub proof fn lemma_position_matches_codes(p: &Player)
    requires
        p.wf(),
    ensures
        p.pos().x == sum_dx(p.sent_codes() + p.pending()),
        p.pos().y == sum_dy(p.sent_codes() + p.pending()),
{
}

/// The batch being filled never holds a full batch's worth of codes, every
/// batch handed out held exactly that many, and all codes are wire codes.
pub proof fn lemma_batch_bound(p: &Player)
    requires
        p.wf(),
    ensures
        p.pending().len() < BUFFER_SIZE,
        p.sent_codes().len() % (BUFFER_SIZE as nat) == 0,
        valid_codes(p.sent_codes() + p.pending()),
{
}

/// With no direction held, a tick pushes exactly one no-input code; from an
/// empty batch, `n` such ticks hand out one batch of no-input codes every
/// eighth tick and leave the rest of the `n` no-input codes pending.
pub proof fn lemma_idle_heartbeat(input: Input, n: nat)
    requires
        !input.any_active(),
    ensures
        tick_codes(input) == seq![0u8],
        run_ticks(Seq::empty(), tick_codes(input), n).0 == zeros(n % (BUFFER_SIZE as nat)),
        run_ticks(Seq::empty(), tick_codes(input), n).1.len() == n / (BUFFER_SIZE as nat),
        forall|i: int|
            0 <= i < run_ticks(Seq::empty(), tick_codes(input), n).1.len()
                ==> #[trigger] run_ticks(Seq::empty(), tick_codes(input), n).1[i] == zeros(
                BUFFER_SIZE as nat,
            ),
    decreases n,
{
    let c = tick_codes(input);
    assert(c =~= seq![0u8]);
    if n > 0 {
        let m = (n - 1) as nat;
        lemma_idle_heartbeat(input, m);
        let (p, batches) = run_ticks(Seq::empty(), c, m);
        let all = p + c;
        assert(all =~= zeros(m % 8 + 1));
        if m % 8 == 7 {
            assert(n % 8 == 0 && n / 8 == m / 8 + 1) by (nonlinear_arith)
                requires n == m + 1, m % 8 == 7;
            assert(all.take(8) =~= zeros(8));
            assert(all.skip(8) =~= zeros(0));
        } else {
            assert(n % 8 == m % 8 + 1 && n / 8 == m / 8) by (nonlinear_arith)
                requires n == m + 1, m % 8 != 7, m % 8 < 8;
        }
    } else {
        assert(Seq::<u8>::empty() =~= zeros(0));
    }
}

} // verus!
