use vstd::prelude::*;

use crate::crossfade::{lemma_fade_ends, lemma_fade_runs_its_length, Crossfade, FadeProgress};

verus! {

/// When the audio engine blends the previous processing chain into a newly
/// installed one: the engine keeps the old chain alive while a crossfade of
/// positive length runs after a chain change.
#[derive(Clone, Copy, Debug)]
pub struct ChainFade {
    has_fading_chain: bool,
    crossfade: Crossfade,
}

impl ChainFade {
    /// Whether the state is consistent.
    pub open spec fn valid(self) -> bool {
        &&& self.counter().valid()
        &&& self.counter().fading() ==> self.keeps_old_chain()
    }

    /// Whether an old chain is kept for fading.
    pub closed spec fn keeps_old_chain(self) -> bool {
        self.has_fading_chain
    }

    /// The crossfade counter.
    pub closed spec fn counter(self) -> Crossfade {
        self.crossfade
    }

    /// Whether the next frame blends the old chain into the new one.
    pub open spec fn blending(self) -> bool {
        self.keeps_old_chain() && self.counter().fading()
    }

    /// The weight of the new chain in the next frame, when it blends.
    pub open spec fn frame_output(self) -> Option<FadeProgress> {
        if self.blending() {
            Some(self.counter().progress_of())
        } else {
            None
        }
    }

    /// The state after one frame.
    pub closed spec fn frame_step(self) -> ChainFade {
        if self.blending() {
            ChainFade { has_fading_chain: true, crossfade: self.crossfade.step() }
        } else {
            ChainFade { has_fading_chain: false, crossfade: self.crossfade }
        }
    }

    /// The state after `n` frames.
    pub open spec fn after_frames(self, n: nat) -> ChainFade
        decreases n,
    {
        if n == 0 {
            self
        } else {
            self.after_frames((n - 1) as nat).frame_step()
        }
    }

    /// No old chain, no fade.
    pub fn new() -> (r: Self)
        ensures
            r.valid(),
            !r.keeps_old_chain(),
            !r.counter().fading(),
    {
        ChainFade { has_fading_chain: false, crossfade: Crossfade::new() }
    }

    /// Forgets any old chain and stops the fade.
    pub fn reset(&mut self)
        requires
            old(self).valid(),
        ensures
            final(self).valid(),
            !final(self).keeps_old_chain(),
            !final(self).counter().fading(),
            final(self).counter().position() == 0,
            final(self).counter().length() == old(self).counter().length(),
    {
        self.has_fading_chain = false;
        self.crossfade.reset();
    }

    /// A new chain is installed. The old chain is kept and faded out over
    /// `len_samples` samples (at least one) only when a fade was asked for and
    /// a chain was installed before; the result says whether to keep it.
    pub fn install(&mut self, len_samples: u32, fade_requested: bool, had_chain: bool) -> (keep_old:
        bool)
        requires
            old(self).valid(),
        ensures
            final(self).valid(),
            keep_old == (fade_requested && had_chain),
            final(self).keeps_old_chain() == keep_old,
            keep_old ==> {
                &&& final(self).counter().fading()
                &&& final(self).counter().position() == 0
                &&& final(self).counter().length() == if len_samples == 0 {
                    1
                } else {
                    len_samples as nat
                }
            },
            !keep_old ==> {
                &&& !final(self).counter().fading()
                &&& final(self).counter().position() == 0
                &&& final(self).counter().length() == old(self).counter().length()
            },
    {
        if fade_requested && had_chain {
            self.has_fading_chain = true;
            self.crossfade.start(len_samples, true);
            true
        } else {
            self.has_fading_chain = false;
            self.crossfade.reset();
            false
        }
    }

    /// Advances one frame: the weight of the new chain while blending, or
    /// `None` (and the old chain dropped) when the frame comes from the new
    /// chain alone.
    pub fn frame(&mut self) -> (r: Option<FadeProgress>)
        requires
            old(self).valid(),
        ensures
            r == old(self).frame_output(),
            *final(self) == old(self).frame_step(),
            final(self).valid(),
    {
        if self.has_fading_chain && self.crossfade.is_active() {
            Some(self.crossfade.next())
        } else {
            self.has_fading_chain = false;
            None
        }
    }
}

/// Frames move the crossfade counter exactly as `next` does.
proof fn lemma_frames_move_counter(s: ChainFade, n: nat)
    requires
        s.valid(),
    ensures
        s.after_frames(n).counter() == s.counter().advance(n),
        s.after_frames(n).valid(),
    decreases n,
{
    if n > 0 {
        lemma_frames_move_counter(s, (n - 1) as nat);
        let c = s.counter().advance((n - 1) as nat);
        crate::crossfade::lemma_progress_monotone(c);
        if !c.fading() {
            crate::crossfade::lemma_idle_is_stable(c, 1);
            assert(c.advance(1) == c.advance(0).step());
        }
    }
}

/// After a fading install, the next `len` frames blend with weights
/// `0/len, 1/len, ..., (len-1)/len`.
pub proof fn lemma_fading_install_blends(s: ChainFade, n: nat)
    requires
        s.valid(),
        s.keeps_old_chain(),
        s.counter().fading(),
        s.counter().position() == 0,
        n < s.counter().length(),
    ensures
        s.after_frames(n).frame_output() == Some(
            FadeProgress { num: n as u32, den: s.counter().length() as u32 },
        ),
    decreases n,
{
    lemma_frames_move_counter(s, n);
    lemma_fade_runs_its_length(s.counter(), n);
    lemma_keeps_old_chain_while_fading(s, n);
}

proof fn lemma_keeps_old_chain_while_fading(s: ChainFade, n: nat)
    requires
        s.valid(),
        s.keeps_old_chain(),
        s.counter().fading(),
        s.counter().position() == 0,
        n < s.counter().length(),
    ensures
        s.after_frames(n).keeps_old_chain(),
    decreases n,
{
    if n > 0 {
        lemma_keeps_old_chain_while_fading(s, (n - 1) as nat);
        lemma_frames_move_counter(s, (n - 1) as nat);
        lemma_fade_runs_its_length(s.counter(), (n - 1) as nat);
    }
}

/// Once the fade has run its length, every later frame comes from the new
/// chain alone.
pub proof fn lemma_fade_then_new_chain_only(s: ChainFade, extra: nat)
    requires
        s.valid(),
        s.counter().fading(),
        s.counter().position() == 0,
    ensures
        s.after_frames(s.counter().length() + extra).frame_output() is None,
{
    lemma_frames_move_counter(s, s.counter().length() + extra);
    lemma_fade_ends(s.counter(), extra);
}

/// Without a kept old chain, no frame ever blends.
pub proof fn lemma_no_old_chain_no_blend(s: ChainFade, n: nat)
    requires
        s.valid(),
        !s.keeps_old_chain(),
    ensures
        s.after_frames(n).frame_output() is None,
        !s.after_frames(n).keeps_old_chain(),
    decreases n,
{
    if n > 0 {
        lemma_no_old_chain_no_blend(s, (n - 1) as nat);
    }
}

} // verus!
