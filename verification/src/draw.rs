use vstd::prelude::*;

verus! {

/// How far the seed moves on when a draw lands on a position taken before.
pub const SEED_STEP: u64 = 16454654645667;

/// One xorshift round over the seed.
pub open spec fn xorshift(seed: u64) -> u64 {
    let a = seed ^ (seed >> 12u64);
    let b = a ^ (a << 25u64);
    b ^ (b >> 27u64)
}

/// The seed of a gacha: the clock's unix timestamp, its bits read as unsigned.
pub fn seed_from_timestamp(unix_timestamp: i64) -> (seed: u64)
    ensures
        seed == unix_timestamp as u64,
{
    unix_timestamp as u64
}

/// The next seed of a gacha round.
pub fn next_seed(seed: u64) -> (r: u64)
    ensures
        r == xorshift(seed),
{
    let mut s = seed;
    s ^= s >> 12u64;
    s ^= s << 25u64;
    s ^= s >> 27u64;
    s
}

/// The mathematical picture of a [`Draw`].
pub struct DrawView {
    pub seed: u64,
    pub range: u64,
    pub rounds: u64,
    pub picks: Seq<u64>,
}

/// The state of the draws of one gacha: the running seed, the size of the pool, the number
/// of rounds to draw, and the pool positions drawn so far, in draw order.
#[derive(Debug, Clone)]
pub struct Draw {
    seed: u64,
    range: u64,
    rounds: u64,
    picks: Vec<u64>,
}

impl View for Draw {
    type V = DrawView;

    closed spec fn view(&self) -> DrawView {
        DrawView { seed: self.seed, range: self.range, rounds: self.rounds, picks: self.picks@ }
    }
}

impl DrawView {
    /// The pool is not empty, no more rounds were drawn than asked, and the positions drawn
    /// are in the pool and pairwise distinct.
    pub open spec fn wf(self) -> bool {
        &&& self.range > 0
        &&& self.picks.len() <= self.rounds
        &&& self.picks.no_duplicates()
        &&& forall|k: int| 0 <= k < self.picks.len() ==> #[trigger] self.picks[k] < self.range
    }

    /// The pool position that a scaled draw of `scaled` lands on.
    pub open spec fn position(self, scaled: u64) -> u64 {
        (scaled % self.range) as u64
    }

    /// A scaled draw of `scaled` lands on a position drawn before.
    pub open spec fn repeats(self, scaled: u64) -> bool {
        self.picks.contains(self.position(scaled))
    }

    /// Every round was drawn.
    pub open spec fn finished(self) -> bool {
        self.picks.len() == self.rounds
    }

    /// The draw after a round opens: the seed takes one xorshift step.
    pub open spec fn after_round(self) -> DrawView {
        DrawView { seed: xorshift(self.seed), ..self }
    }

    /// The draw after the scaled draw `scaled` is offered: a new position is taken, a
    /// repeated one moves the seed on by [`SEED_STEP`].
    pub open spec fn after_offer(self, scaled: u64) -> DrawView {
        if self.repeats(scaled) {
            DrawView { seed: (self.seed + SEED_STEP) as u64, ..self }
        } else {
            DrawView { picks: self.picks.push(self.position(scaled)), ..self }
        }
    }
}

/// `picks` holds `x`.
fn holds(picks: &Vec<u64>, x: u64) -> (r: bool)
    ensures
        r == picks@.contains(x),
{
    let mut k: usize = 0;
    while k < picks.len()
        invariant
            k <= picks.len(),
            forall|j: int| 0 <= j < k ==> picks@[j] != x,
        decreases picks.len() - k,
    {
        if picks[k] == x {
            return true;
        }
        k = k + 1;
    }
    false
}

impl Draw {
    /// Starts the `rounds` draws of a gacha over a pool of `range` items from `seed`.
    pub fn new(seed: u64, range: u64, rounds: u64) -> (d: Draw)
        requires
            range > 0,
        ensures
            d@.wf(),
            d@ == (DrawView { seed, range, rounds, picks: Seq::empty() }),
    {
        Draw { seed, range, rounds, picks: Vec::new() }
    }

    /// Every round was drawn.
    pub fn finished(&self) -> (r: bool)
        ensures
            r == self@.finished(),
    {
        self.picks.len() as u64 == self.rounds
    }

    /// The number of rounds to draw.
    pub fn rounds(&self) -> (r: u64)
        ensures
            r == self@.rounds,
    {
        self.rounds
    }

    /// The running seed.
    pub fn seed(&self) -> (r: u64)
        ensures
            r == self@.seed,
    {
        self.seed
    }

    /// The size of the pool.
    pub fn range(&self) -> (r: u64)
        ensures
            r == self@.range,
    {
        self.range
    }

    /// The pool positions drawn so far, in draw order.
    pub fn picks(&self) -> (r: &Vec<u64>)
        ensures
            r@ == self@.picks,
    {
        &self.picks
    }

    /// Opens a round: the seed takes one xorshift step.
    pub fn start_round(&mut self)
        ensures
            final(self)@ == old(self)@.after_round(),
            final(self)@.seed == xorshift(old(self)@.seed),
            final(self)@.range == old(self)@.range,
            final(self)@.picks == old(self)@.picks,
            final(self)@.wf() == old(self)@.wf(),
    {
        self.seed = next_seed(self.seed);
    }

    /// A scaled draw of `scaled` would land on a position drawn before.
    pub fn repeats(&self, scaled: u64) -> (r: bool)
        requires
            self@.wf(),
        ensures
            r == self@.repeats(scaled),
    {
        holds(&self.picks, scaled % self.range)
    }

    /// The seed can move on by [`SEED_STEP`] without overflow.
    pub fn can_step(&self) -> (r: bool)
        ensures
            r == (self@.seed + SEED_STEP <= u64::MAX),
    {
        self.seed <= u64::MAX - SEED_STEP
    }

    /// Offers a scaled draw `scaled` in a round not yet drawn. A position not drawn before is
    /// taken and the round is over; a repeated one moves the seed on by [`SEED_STEP`] for
    /// another try.
    pub fn offer(&mut self, scaled: u64) -> (accepted: bool)
        requires
            old(self)@.wf(),
            !old(self)@.finished(),
            old(self)@.repeats(scaled) ==> old(self)@.seed + SEED_STEP <= u64::MAX,
        ensures
            final(self)@ == old(self)@.after_offer(scaled),
            final(self)@.wf(),
            final(self)@.range == old(self)@.range,
            final(self)@.rounds == old(self)@.rounds,
            accepted == !old(self)@.repeats(scaled),
            accepted ==> final(self)@.picks == old(self)@.picks.push(old(self)@.position(scaled))
                && final(self)@.seed == old(self)@.seed,
            !accepted ==> final(self)@.picks == old(self)@.picks && final(self)@.seed == old(
                self,
            )@.seed + SEED_STEP,
    {
        let index = scaled % self.range;
        if holds(&self.picks, index) == false {
            self.picks.push(index);
            proof {
                let p = old(self)@.picks;
                assert forall|a: int, b: int|
                    0 <= a < b < self.picks@.len() implies self.picks@[a] != self.picks@[b] by {
                    if b == p.len() {
                        assert(p.contains(p[a]));
                    }
                }
            }
            true
        } else {
            self.seed = self.seed + SEED_STEP;
            false
        }
    }
}

} // verus!
