use vstd::prelude::*;

verus! {

/// Progress of a crossfade as the fraction `num / den` (with `den >= 1`),
/// the weight that the newly installed chain gets.
#[derive(Clone, Copy, Debug, PartialEq, Eq, Structural)]
pub struct FadeProgress {
    pub num: u32,
    pub den: u32,
}

impl FadeProgress {
    /// The fraction as a mathematical ratio is at most that of `other`.
    pub open spec fn at_most(self, other: FadeProgress) -> bool {
        self.num * other.den <= other.num * self.den
    }
}

/// Sample counter of a crossfade from an old processing chain to a new one.
///
/// While active, each call of `next` hands out `pos / len` and advances `pos`;
/// the fade ends once `pos` reaches `len`.
#[derive(Clone, Copy, Debug)]
pub struct Crossfade {
    pos: u32,
    len: u32,
    active: bool,
}

impl Crossfade {
    /// Whether the counter is consistent: `len` is at least one sample and an
    /// active fade has not yet reached its end.
    pub closed spec fn valid(self) -> bool {
        &&& self.len >= 1
        &&& self.active ==> self.pos < self.len
    }

    /// Samples already faded.
    pub closed spec fn position(self) -> nat {
        self.pos as nat
    }

    /// Length of the fade in samples.
    pub closed spec fn length(self) -> nat {
        self.len as nat
    }

    /// Whether a fade is in progress.
    pub closed spec fn fading(self) -> bool {
        self.active
    }

    /// The weight that `next` hands out in this state.
    pub open spec fn progress_of(self) -> FadeProgress {
        if self.fading() {
            FadeProgress { num: self.position() as u32, den: self.length() as u32 }
        } else {
            FadeProgress { num: 1, den: 1 }
        }
    }

    /// The state that `next` leaves behind.
    pub closed spec fn step(self) -> Crossfade {
        if self.active {
            Crossfade { pos: (self.pos + 1) as u32, len: self.len, active: self.pos + 1 < self.len }
        } else {
            self
        }
    }

    /// The state after `n` calls of `next`.
    pub open spec fn advance(self, n: nat) -> Crossfade
        decreases n,
    {
        if n == 0 {
            self
        } else {
            self.advance((n - 1) as nat).step()
        }
    }

    /// An idle counter: no fade, one-sample length.
    pub fn new() -> (r: Self)
        ensures
            r.valid(),
            !r.fading(),
            r.position() == 0,
            r.length() == 1,
    {
        Crossfade { pos: 0, len: 1, active: false }
    }

    /// Starts a fade of `len_samples` samples (at least one). The fade is only
    /// active when `fade` is set, that is when the requested fade time is
    /// positive.
    pub fn start(&mut self, len_samples: u32, fade: bool)
        ensures
            final(self).valid(),
            final(self).length() == if len_samples == 0 { 1 } else { len_samples as nat },
            final(self).position() == 0,
            final(self).fading() == fade,
    {
        let len = if len_samples == 0 {
            1
        } else {
            len_samples
        };
        *self = Crossfade { pos: 0, len, active: fade };
    }

    /// Stops any fade and rewinds the counter; the length is kept.
    pub fn reset(&mut self)
        requires
            old(self).valid(),
        ensures
            final(self).valid(),
            final(self).position() == 0,
            !final(self).fading(),
            final(self).length() == old(self).length(),
    {
        self.pos = 0;
        self.active = false;
    }

    /// Hands out the current weight of the new chain and advances the fade.
    /// When no fade is in progress the weight is `1 / 1` and nothing changes.
    pub fn next(&mut self) -> (p: FadeProgress)
        requires
            old(self).valid(),
        ensures
            p == old(self).progress_of(),
            *final(self) == old(self).step(),
            final(self).valid(),
            p.den >= 1,
            p.num <= p.den,
            final(self).length() == old(self).length(),
            old(self).fading() ==> final(self).position() == old(self).position() + 1
                && final(self).fading() == (final(self).position() < final(self).length()),
            !old(self).fading() ==> *final(self) == *old(self),
    {
        if !self.active {
            return FadeProgress { num: 1, den: 1 };
        }
        let p = FadeProgress { num: self.pos, den: self.len };
        self.pos = self.pos + 1;
        self.active = self.pos < self.len;
        p
    }

    /// Whether a fade is in progress.
    pub fn is_active(&self) -> (r: bool)
        ensures
            r == self.fading(),
    {
        self.active
    }
}

impl Default for Crossfade {
    fn default() -> (r: Self)
        ensures
            r.valid(),
            !r.fading(),
            r.position() == 0,
            r.length() == 1,
    {
        Crossfade::new()
    }
}

/// A fade that was started active hands out `0/len, 1/len, ..., (len-1)/len`
/// on its first `len` calls of `next`, and stays active exactly that long.
pub proof fn lemma_fade_runs_its_length(s: Crossfade, n: nat)
    requires
        s.valid(),
        s.fading(),
        s.position() == 0,
        n < s.length(),
    ensures
        s.advance(n).valid(),
        s.advance(n).fading(),
        s.advance(n).length() == s.length(),
        s.advance(n).progress_of() == (FadeProgress { num: n as u32, den: s.length() as u32 }),
    decreases n,
{
    if n > 0 {
        lemma_fade_runs_its_length(s, (n - 1) as nat);
    }
}

/// Once a fade has run for its length it is over, and every later call of
/// `next` hands out the full weight `1/1`.
pub proof fn lemma_fade_ends(s: Crossfade, extra: nat)
    requires
        s.valid(),
        s.fading(),
        s.position() == 0,
    ensures
        !s.advance(s.length() + extra).fading(),
        s.advance(s.length() + extra).progress_of() == (FadeProgress { num: 1, den: 1 }),
    decreases extra,
{
    if extra == 0 {
        lemma_fade_runs_its_length(s, (s.length() - 1) as nat);
    } else {
        lemma_fade_ends(s, (extra - 1) as nat);
    }
}

/// The weight handed out never decreases from one call of `next` to the next,
/// and never exceeds one.
pub proof fn lemma_progress_monotone(s: Crossfade)
    requires
        s.valid(),
    ensures
        s.step().valid(),
        s.progress_of().at_most(s.step().progress_of()),
        s.step().progress_of().num <= s.step().progress_of().den,
        s.step().progress_of().den >= 1,
{
    let p = s.progress_of();
    let q = s.step().progress_of();
    if s.fading() && s.step().fading() {
        assert(p.den == q.den);
        assert(p.num * q.den <= q.num * p.den) by (nonlinear_arith)
            requires
                p.den == q.den,
                p.num <= q.num,
        ;
    } else if s.fading() {
        assert(p.num * 1 <= 1 * p.den);
    }
}

/// A reset counter stays idle: `next` hands out `1/1` and changes nothing.
pub proof fn lemma_idle_is_stable(s: Crossfade, n: nat)
    requires
        s.valid(),
        !s.fading(),
    ensures
        s.advance(n) == s,
        s.advance(n).progress_of() == (FadeProgress { num: 1, den: 1 }),
    decreases n,
{
    if n > 0 {
        lemma_idle_is_stable(s, (n - 1) as nat);
    }
}

} // verus!
