use vstd::prelude::*;

verus! {

/// The largest generation that a slot's version word can hold: the word keeps
/// two bits for the state, which leaves thirty for the generation.
pub const MAX_GENERATION: u32 = 0x3FFF_FFFF;

/// A generation counter. It is never zero: zero stands for "never
/// initialised" and no live slot, handle or key carries it.
#[derive(Clone, Copy, PartialEq, Eq, PartialOrd, Ord, Hash, Debug, Structural)]
pub struct Generation {
    value: u32,
}

impl Generation {
    #[verifier::type_invariant]
    spec fn non_zero(self) -> bool {
        self.value != 0
    }

    /// The counter as a number.
    pub closed spec fn value(self) -> u32 {
        self.value
    }

    /// The generation with the given counter.
    pub closed spec fn from_value(value: u32) -> Generation {
        Generation { value }
    }

    /// A generation is its counter and nothing else.
    pub proof fn lemma_from_value(self, value: u32)
        ensures
            Self::from_value(self.value()) == self,
            Self::from_value(value).value() == value,
    {
    }

    /// The first generation of every slot.
    pub fn min() -> (g: Generation)
        ensures
            g == Self::from_value(1),
            g.value() == 1,
    {
        Generation { value: 1 }
    }

    /// The generation with counter `val`, or `None` for zero.
    pub fn new(val: u32) -> (g: Option<Generation>)
        ensures
            val == 0 <==> g is None,
            g matches Some(gen) ==> gen == Self::from_value(val) && gen.value() == val,
    {
        if val == 0 {
            None
        } else {
            Some(Generation { value: val })
        }
    }

    /// The generation with counter `val`, for a caller that knows `val` is
    /// not zero.
    pub fn new_unchecked(val: u32) -> (g: Generation)
        requires
            val != 0,
        ensures
            g == Self::from_value(val),
            g.value() == val,
    {
        Generation { value: val }
    }

    /// The counter, which is at least one.
    pub fn get(&self) -> (val: u32)
        ensures
            val == self.value(),
            val != 0,
    {
        proof {
            use_type_invariant(self);
        }
        self.value
    }
}

/// The generation that follows `g` when a slot is vacated: one more, except
/// that the counter wraps from `MAX_GENERATION` to one and so never shows
/// zero.
pub open spec fn next_generation(g: u32) -> u32 {
    if g >= MAX_GENERATION {
        1
    } else {
        (g + 1) as u32
    }
}

/// The generation of a slot that started at `g` and was vacated `n` times.
pub open spec fn generation_after(g: u32, n: nat) -> u32
    decreases n,
{
    if n == 0 {
        g
    } else {
        next_generation(generation_after(g, (n - 1) as nat))
    }
}

/// Generations are monotonic: a slot that is recycled `n` times shows a
/// generation that grows by exactly one with each cycle, for as long as the
/// counter has not reached `MAX_GENERATION`; whatever `n` is, the generation
/// stays within `1..=MAX_GENERATION`, so zero is always skipped.
pub proof fn lemma_generation_monotonic(g: u32, n: nat)
    requires
        1 <= g <= MAX_GENERATION,
    ensures
        1 <= generation_after(g, n) <= MAX_GENERATION,
        g + n <= MAX_GENERATION ==> generation_after(g, n) == g + n,
        generation_after(g, n) == (g - 1 + n) % (MAX_GENERATION as int) + 1,
    decreases n,
{
    if n > 0 {
        lemma_generation_monotonic(g, (n - 1) as nat);
        let prev = generation_after(g, (n - 1) as nat);
        let m = MAX_GENERATION as int;
        let a = g - 1 + n - 1;
        if prev >= MAX_GENERATION {
            assert((a + 1) % m == 0) by (nonlinear_arith)
                requires
                    a % m == m - 1,
                    m > 0,
            ;
        } else {
            assert((a + 1) % m == a % m + 1) by (nonlinear_arith)
                requires
                    a % m < m - 1,
                    m > 0,
            ;
        }
    }
}

/// Recycling a slot `a` times and then `b` times more is recycling it
/// `a + b` times.
pub proof fn lemma_generation_after_add(g: u32, a: nat, b: nat)
    ensures
        generation_after(generation_after(g, a), b) == generation_after(g, a + b),
    decreases b,
{
    if b > 0 {
        lemma_generation_after_add(g, a, (b - 1) as nat);
    }
}

/// A generation comes back only when the counter has gone all the way
/// round: a slot that is recycled at least once and fewer than
/// `MAX_GENERATION` times shows another generation than the one it started
/// from.
pub proof fn lemma_generation_returns_late(g: u32, n: nat)
    requires
        1 <= g <= MAX_GENERATION,
        0 < n < MAX_GENERATION,
    ensures
        generation_after(g, n) != g,
{
    lemma_generation_monotonic(g, n);
    let m = MAX_GENERATION as int;
    let a = g - 1 + n;
    if a >= m {
        assert(a % m == a - m) by (nonlinear_arith)
            requires
                m <= a < 2 * m,
        ;
    } else {
        assert(a % m == a) by (nonlinear_arith)
            requires
                0 <= a < m,
        ;
    }
}

} // verus!
