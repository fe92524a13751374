use vstd::prelude::*;

verus! {

/// Most all-pass sections a runtime chain holds.
pub const MAX_RUNTIME_SECTIONS: usize = 1024;

/// Fewest all-pass sections the host parameter allows.
pub const MIN_SECTIONS: i32 = 8;

/// Most all-pass sections the host parameter allows (the "Max SOS" range is
/// 8 to 4096); a chain still holds at most `MAX_RUNTIME_SECTIONS` of them.
pub const MAX_SECTIONS: i32 = 4096;

/// The section budget of a fit: the host's integer parameter clamped into
/// `MIN_SECTIONS..=MAX_SECTIONS`.
pub fn clamp_max_sections(value: i32) -> (r: u32)
    ensures
        r == if value < MIN_SECTIONS {
            MIN_SECTIONS as int
        } else if value > MAX_SECTIONS {
            MAX_SECTIONS as int
        } else {
            value as int
        },
{
    if value < MIN_SECTIONS {
        MIN_SECTIONS as u32
    } else if value > MAX_SECTIONS {
        MAX_SECTIONS as u32
    } else {
        value as u32
    }
}

/// `count` copies of candidate index `i`.
pub open spec fn repeat_index(i: int, count: nat) -> Seq<usize> {
    Seq::new(count, |_j: int| i as usize)
}

/// The candidate indices of a fit, unrolled: index `i` repeated `counts[i]`
/// times, in candidate order.
pub open spec fn unrolled(counts: Seq<u32>) -> Seq<usize>
    decreases counts.len(),
{
    if counts.len() == 0 {
        Seq::empty()
    } else {
        unrolled(counts.drop_last()) + repeat_index(counts.len() - 1, counts.last() as nat)
    }
}

/// `s` cut to at most `cap` entries.
pub open spec fn capped(s: Seq<usize>, cap: nat) -> Seq<usize> {
    if s.len() <= cap {
        s
    } else {
        s.take(cap as int)
    }
}

/// Total number of sections a fit asks for.
pub open spec fn total(counts: Seq<u32>) -> nat
    decreases counts.len(),
{
    if counts.len() == 0 {
        0
    } else {
        total(counts.drop_last()) + counts.last() as nat
    }
}

/// The unrolled indices of a prefix of the counts start those of all counts.
proof fn lemma_unrolled_prefix(counts: Seq<u32>, k: int)
    requires
        0 <= k <= counts.len(),
    ensures
        unrolled(counts.take(k)).len() <= unrolled(counts).len(),
        forall|j: int|
            0 <= j < unrolled(counts.take(k)).len() ==> #[trigger] unrolled(counts.take(k))[j]
                == unrolled(counts)[j],
    decreases counts.len(),
{
    if k == counts.len() {
        assert(counts.take(k) == counts);
    } else {
        let prefix = counts.drop_last();
        assert(prefix.take(k) == counts.take(k));
        lemma_unrolled_prefix(prefix, k);
    }
}

/// The length of the unrolled indices is the total of the counts.
pub proof fn lemma_unrolled_len(counts: Seq<u32>)
    ensures
        unrolled(counts).len() == total(counts),
    decreases counts.len(),
{
    if counts.len() > 0 {
        lemma_unrolled_len(counts.drop_last());
    }
}

/// The section list of a fit: candidate `i` repeated `counts[i]` times, in
/// candidate order, cut off at `MAX_RUNTIME_SECTIONS` sections.
pub fn unroll_section_counts(counts: &Vec<u32>) -> (out: Vec<usize>)
    ensures
        out@ == capped(unrolled(counts@), MAX_RUNTIME_SECTIONS as nat),
{
    let mut out: Vec<usize> = Vec::new();
    let mut i: usize = 0;
    while i < counts.len()
        invariant
            i <= counts.len(),
            out.len() < MAX_RUNTIME_SECTIONS,
            out@ == unrolled(counts@.take(i as int)),
        decreases counts.len() - i,
    {
        let count = counts[i];
        let ghost done = out@;
        let mut c: u32 = 0;
        while c < count && out.len() < MAX_RUNTIME_SECTIONS
            invariant
                c <= count,
                count == counts@[i as int],
                i < counts.len(),
                out.len() <= MAX_RUNTIME_SECTIONS,
                done == unrolled(counts@.take(i as int)),
                out@ == done + repeat_index(i as int, c as nat),
            decreases count - c,
        {
            out.push(i);
            c += 1;
            assert(out@ =~= done + repeat_index(i as int, c as nat));
        }
        proof {
            let next = counts@.take(i as int + 1);
            assert(next.drop_last() == counts@.take(i as int));
            assert(unrolled(next) == done + repeat_index(i as int, count as nat));
            lemma_unrolled_prefix(counts@, i as int + 1);
            assert forall|j: int| 0 <= j < out.len() implies out@[j] == unrolled(counts@)[j] by {
                assert(out@[j] == unrolled(next)[j]);
            }
        }
        if out.len() >= MAX_RUNTIME_SECTIONS {
            assert(out@ =~= unrolled(counts@).take(MAX_RUNTIME_SECTIONS as int));
            return out;
        }
        assert(c == count);
        assert(out@ =~= unrolled(counts@.take(i as int + 1)));
        i += 1;
    }
    assert(counts@.take(counts.len() as int) == counts@);
    out
}

/// A fit's pick counts before any pick: one zero per candidate.
pub fn zero_counts(candidates: usize) -> (counts: Vec<u32>)
    ensures
        counts.len() == candidates,
        forall|i: int| 0 <= i < candidates ==> counts@[i] == 0,
        total(counts@) == 0,
{
    let mut counts: Vec<u32> = Vec::new();
    let mut i: usize = 0;
    while i < candidates
        invariant
            i <= candidates,
            counts.len() == i,
            forall|j: int| 0 <= j < i ==> counts@[j] == 0,
            total(counts@) == 0,
        decreases candidates - i,
    {
        let ghost before = counts@;
        counts.push(0);
        assert(counts@.drop_last() == before);
        i += 1;
    }
    counts
}

/// Adding one to entry `idx` adds one to the total.
proof fn lemma_total_update(counts: Seq<u32>, idx: int)
    requires
        0 <= idx < counts.len(),
        counts[idx] < u32::MAX,
    ensures
        total(counts.update(idx, (counts[idx] + 1) as u32)) == total(counts) + 1,
    decreases counts.len(),
{
    let after = counts.update(idx, (counts[idx] + 1) as u32);
    if idx == counts.len() - 1 {
        assert(after.drop_last() == counts.drop_last());
    } else {
        lemma_total_update(counts.drop_last(), idx);
        assert(after.drop_last() == counts.drop_last().update(idx, (counts[idx] + 1) as u32));
    }
}

/// No single count exceeds the total.
proof fn lemma_entry_le_total(counts: Seq<u32>, idx: int)
    requires
        0 <= idx < counts.len(),
    ensures
        counts[idx] <= total(counts),
    decreases counts.len(),
{
    if idx < counts.len() - 1 {
        lemma_entry_le_total(counts.drop_last(), idx);
    }
}

/// How often the greedy fit picked each candidate, within a budget of picks.
pub struct SectionCounts {
    counts: Vec<u32>,
    picks: u32,
    budget: u32,
}

impl SectionCounts {
    /// Picks per candidate.
    pub closed spec fn counts_of(&self) -> Seq<u32> {
        self.counts@
    }

    /// Picks made so far.
    pub closed spec fn picks_of(&self) -> nat {
        self.picks as nat
    }

    /// Most picks the fit may make.
    pub closed spec fn budget_of(&self) -> nat {
        self.budget as nat
    }

    /// The picks are counted consistently and stay within the budget.
    pub closed spec fn valid(&self) -> bool {
        &&& total(self.counts@) == self.picks
        &&& self.picks <= self.budget
    }

    /// No picks yet, for `candidates` candidates and at most `budget` picks.
    pub fn new(candidates: usize, budget: u32) -> (r: Self)
        ensures
            r.valid(),
            r.counts_of().len() == candidates,
            forall|i: int| 0 <= i < candidates ==> r.counts_of()[i] == 0,
            r.picks_of() == 0,
            r.budget_of() == budget,
    {
        SectionCounts { counts: zero_counts(candidates), picks: 0, budget }
    }

    /// Whether the fit may pick once more.
    pub fn has_budget(&self) -> (r: bool)
        ensures
            r == (self.picks_of() < self.budget_of()),
    {
        self.picks < self.budget
    }

    /// Records that the fit picked candidate `idx` once more.
    pub fn record_pick(&mut self, idx: usize)
        requires
            old(self).valid(),
            idx < old(self).counts_of().len(),
            old(self).picks_of() < old(self).budget_of(),
        ensures
            final(self).valid(),
            final(self).counts_of() == old(self).counts_of().update(
                idx as int,
                (old(self).counts_of()[idx as int] + 1) as u32,
            ),
            final(self).picks_of() == old(self).picks_of() + 1,
            final(self).budget_of() == old(self).budget_of(),
    {
        proof {
            lemma_entry_le_total(self.counts@, idx as int);
            lemma_total_update(self.counts@, idx as int);
        }
        let c = self.counts[idx];
        self.counts.set(idx, c + 1);
        self.picks = self.picks + 1;
    }

    /// The sections of the fit: candidate indices unrolled, cut at
    /// `MAX_RUNTIME_SECTIONS`; never more than the budget of picks.
    pub fn sections(&self) -> (out: Vec<usize>)
        requires
            self.valid(),
        ensures
            out@ == capped(unrolled(self.counts_of()), MAX_RUNTIME_SECTIONS as nat),
            out.len() <= self.budget_of(),
            out.len() <= MAX_RUNTIME_SECTIONS,
    {
        proof {
            lemma_section_budget(self.counts@, self.budget as nat);
            lemma_unrolled_section_bound(self.counts@);
        }
        unroll_section_counts(&self.counts)
    }
}

/// A fit whose picks stay within a budget of `max_sections` yields at most
/// that many sections.
pub proof fn lemma_section_budget(counts: Seq<u32>, max_sections: nat)
    requires
        total(counts) <= max_sections,
    ensures
        capped(unrolled(counts), MAX_RUNTIME_SECTIONS as nat).len() <= max_sections,
{
    lemma_unrolled_len(counts);
}

/// A fit never yields more sections than it asked for, nor more than a
/// runtime chain holds.
pub proof fn lemma_unrolled_section_bound(counts: Seq<u32>)
    ensures
        capped(unrolled(counts), MAX_RUNTIME_SECTIONS as nat).len() <= total(counts),
        capped(unrolled(counts), MAX_RUNTIME_SECTIONS as nat).len() <= MAX_RUNTIME_SECTIONS,
{
    lemma_unrolled_len(counts);
}

// ── Candidate centres ───────────────────────────────────────────────────────

/// A candidate centre frequency of the fit, filed under `key`, the centre
/// frequency in hundredths of a hertz (rounded). `freq` is the frequency first
/// filed under the key; `preferred_q` the last preferred quality given for it.
#[derive(Clone, Copy, Debug, PartialEq)]
pub struct CenterEntry<C, Q> {
    pub key: u64,
    pub freq: C,
    pub preferred_q: Option<Q>,
}

/// The centres are filed in strictly increasing key order: one entry per key.
pub open spec fn keys_sorted<C, Q>(centers: Seq<CenterEntry<C, Q>>) -> bool {
    forall|i: int, j: int| 0 <= i < j < centers.len() ==> centers[i].key < centers[j].key
}

/// Where `key` is filed in sorted centres: the number of entries with a
/// smaller key.
pub open spec fn insert_point<C, Q>(centers: Seq<CenterEntry<C, Q>>, key: u64) -> int
    decreases centers.len(),
{
    if centers.len() == 0 {
        0
    } else if centers.last().key < key {
        centers.len() as int
    } else {
        insert_point(centers.drop_last(), key)
    }
}

/// The centres after filing `freq` (with `preferred_q`) under `key`: a new
/// key gets its own entry at its place in key order; a known key keeps its
/// first frequency and takes `preferred_q` when one is given.
pub open spec fn filed<C, Q>(
    centers: Seq<CenterEntry<C, Q>>,
    key: u64,
    freq: C,
    preferred_q: Option<Q>,
) -> Seq<CenterEntry<C, Q>> {
    let p = insert_point(centers, key);
    if p < centers.len() && centers[p].key == key {
        centers.update(
            p,
            CenterEntry {
                key,
                freq: centers[p].freq,
                preferred_q: if preferred_q is Some {
                    preferred_q
                } else {
                    centers[p].preferred_q
                },
            },
        )
    } else {
        centers.insert(p, CenterEntry { key, freq, preferred_q })
    }
}

proof fn lemma_insert_point<C, Q>(centers: Seq<CenterEntry<C, Q>>, key: u64)
    requires
        keys_sorted(centers),
    ensures
        0 <= insert_point(centers, key) <= centers.len(),
        forall|j: int| 0 <= j < insert_point(centers, key) ==> centers[j].key < key,
        forall|j: int| insert_point(centers, key) <= j < centers.len() ==> centers[j].key >= key,
    decreases centers.len(),
{
    if centers.len() > 0 {
        let prefix = centers.drop_last();
        assert(keys_sorted(prefix));
        lemma_insert_point(prefix, key);
        assert(forall|j: int| 0 <= j < prefix.len() ==> prefix[j] == centers[j]);
        if centers.last().key < key {
            assert forall|j: int| 0 <= j < centers.len() implies centers[j].key < key by {
                if j < centers.len() - 1 {
                    assert(centers[j].key < centers.last().key);
                }
            }
        }
    }
}

/// Files a candidate centre under its key, keeping the centres in key order
/// with one entry per key. A known key keeps its first frequency and takes
/// the preferred quality when one is given.
pub fn add_candidate_center<C: Copy, Q: Copy>(
    centers: &mut Vec<CenterEntry<C, Q>>,
    key: u64,
    freq: C,
    preferred_q: Option<Q>,
)
    requires
        keys_sorted(old(centers)@),
    ensures
        final(centers)@ == filed(old(centers)@, key, freq, preferred_q),
        keys_sorted(final(centers)@),
{
    let ghost start = centers@;
    proof { lemma_insert_point(start, key); }
    let mut p: usize = 0;
    while p < centers.len() && centers[p].key < key
        invariant
            centers@ == start,
            keys_sorted(start),
            p <= centers.len(),
            forall|j: int| 0 <= j < p ==> centers@[j].key < key,
            0 <= insert_point(start, key) <= start.len(),
            forall|j: int| 0 <= j < insert_point(start, key) ==> start[j].key < key,
            forall|j: int| insert_point(start, key) <= j < start.len() ==> start[j].key >= key,
        decreases centers.len() - p,
    {
        p += 1;
    }
    assert(p == insert_point(start, key)) by {
        if p < insert_point(start, key) {
            assert(start[p as int].key < key);
        }
        if p > insert_point(start, key) {
            assert(start[insert_point(start, key)].key < key);
        }
    }
    if p < centers.len() && centers[p].key == key {
        let mut entry = centers[p];
        if preferred_q.is_some() {
            entry.preferred_q = preferred_q;
        }
        centers.set(p, entry);
    } else {
        centers.insert(p, CenterEntry { key, freq, preferred_q });
        assert forall|i: int, j: int| 0 <= i < j < centers.len() implies centers@[i].key
            < centers@[j].key by {
            if j < p {
            } else if j == p {
            } else if i < p {
                assert(centers@[j] == start[j - 1]);
            } else if i == p {
                assert(centers@[j] == start[j - 1]);
            } else {
                assert(centers@[i] == start[i - 1] && centers@[j] == start[j - 1]);
            }
        }
    }
}

/// Filing keeps exactly one entry per key, and a key once filed stays filed
/// with the frequency it was first filed with.
pub proof fn lemma_filed_keeps_first_frequency<C, Q>(
    centers: Seq<CenterEntry<C, Q>>,
    key: u64,
    freq: C,
    preferred_q: Option<Q>,
    i: int,
)
    requires
        keys_sorted(centers),
        0 <= i < centers.len(),
    ensures
        exists|j: int|
            0 <= j < filed(centers, key, freq, preferred_q).len() && #[trigger] filed(
                centers,
                key,
                freq,
                preferred_q,
            )[j].key == centers[i].key && filed(centers, key, freq, preferred_q)[j].freq
                == centers[i].freq,
{
    lemma_insert_point(centers, key);
    let p = insert_point(centers, key);
    let after = filed(centers, key, freq, preferred_q);
    if p < centers.len() && centers[p].key == key {
        assert(after[i].key == centers[i].key && after[i].freq == centers[i].freq);
    } else if i < p {
        assert(after[i].key == centers[i].key && after[i].freq == centers[i].freq);
    } else {
        assert(after[i + 1].key == centers[i].key && after[i + 1].freq == centers[i].freq);
    }
}

/// After filing, the key is present, and it carries the preferred quality
/// just given, if any.
pub proof fn lemma_filed_contains_key<C, Q>(
    centers: Seq<CenterEntry<C, Q>>,
    key: u64,
    freq: C,
    preferred_q: Option<Q>,
)
    requires
        keys_sorted(centers),
    ensures
        ({
            let after = filed(centers, key, freq, preferred_q);
            let p = insert_point(centers, key);
            &&& 0 <= p < after.len()
            &&& after[p].key == key
            &&& preferred_q is Some ==> after[p].preferred_q == preferred_q
            &&& after.len() == centers.len() + if p < centers.len() && centers[p].key == key {
                0int
            } else {
                1int
            }
        }),
{
    lemma_insert_point(centers, key);
}

} // verus!
