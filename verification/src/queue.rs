//! The playback queue: an ordered list of owned track copies with a running
//! total duration. The total always equals the sum of the contained tracks'
//! durations; every operation below states and preserves that invariant.

use vstd::prelude::*;
use crate::record::Track;
use vstd::multiset::Multiset;

verus! {

/// Sum of the durations of the tracks in `s`, in seconds.
pub open spec fn sum_durations(s: Seq<Track>) -> int
    decreases s.len(),
{
    if s.len() == 0 {
        0
    } else {
        s[0].duration + sum_durations(s.drop_first())
    }
}

pub proof fn lemma_sum_nonneg(s: Seq<Track>)
    ensures
        sum_durations(s) >= 0,
    decreases s.len(),
{
    if s.len() > 0 {
        lemma_sum_nonneg(s.drop_first());
    }
}

pub proof fn lemma_sum_push(s: Seq<Track>, t: Track)
    ensures
        sum_durations(s.push(t)) == sum_durations(s) + t.duration,
    decreases s.len(),
{
    reveal_with_fuel(sum_durations, 2);
    if s.len() == 0 {
        assert(s.push(t)[0] == t);
        assert(s.push(t).drop_first() =~= Seq::<Track>::empty());
        assert(sum_durations(s.push(t).drop_first()) == 0);
    } else {
        assert(s.push(t)[0] == s[0]);
        assert(s.push(t).drop_first() =~= s.drop_first().push(t));
        lemma_sum_push(s.drop_first(), t);
        assert(sum_durations(s.push(t)) == s[0].duration + sum_durations(s.drop_first().push(t)));
    }
}

pub proof fn lemma_sum_remove(s: Seq<Track>, j: int)
    requires
        0 <= j < s.len(),
    ensures
        sum_durations(s.remove(j)) == sum_durations(s) - s[j].duration,
    decreases s.len(),
{
    if j == 0 {
        assert(s.remove(0) =~= s.drop_first());
    } else {
        assert(s.remove(j).drop_first() =~= s.drop_first().remove(j - 1));
        lemma_sum_remove(s.drop_first(), j - 1);
    }
}

/// The playback queue.
pub struct SonikQueue {
    pub tracks: Vec<Track>,
    pub total_time: u32,
}

impl SonikQueue {
    /// The bookkeeping invariant: the running total equals the sum of the
    /// contained tracks' durations.
    pub open spec fn wf(self) -> bool {
        self.total_time == sum_durations(self.tracks@)
    }

    pub fn new() -> (r: SonikQueue)
        ensures
            r.tracks@.len() == 0,
            r.total_time == 0,
            r.wf(),
    {
        SonikQueue { tracks: Vec::<Track>::new(), total_time: 0 }
    }

    /// Appends a track to the tail, growing the total by its duration.
    pub fn add(&mut self, track: Track)
        requires
            old(self).total_time + track.duration <= u32::MAX,
        ensures
            final(self).tracks@ == old(self).tracks@.push(track),
            final(self).total_time == old(self).total_time + track.duration,
            old(self).wf() ==> final(self).wf(),
    {
        self.total_time = self.total_time + track.duration;
        self.tracks.push(track);
        proof {
            lemma_sum_push(old(self).tracks@, self.tracks@.last());
        }
    }

    /// Inserts a track at the head ("play next"), growing the total by its
    /// duration.
    pub fn add_to_front(&mut self, track: Track)
        requires
            old(self).total_time + track.duration <= u32::MAX,
        ensures
            final(self).tracks@ == seq![track] + old(self).tracks@,
            final(self).total_time == old(self).total_time + track.duration,
            old(self).wf() ==> final(self).wf(),
    {
        self.total_time = self.total_time + track.duration;
        self.tracks.insert(0, track);
        proof {
            assert(self.tracks@ =~= seq![self.tracks@[0]] + old(self).tracks@);
            assert(self.tracks@.drop_first() =~= old(self).tracks@);
        }
    }

    /// Removes and returns the head element, shrinking the total by its
    /// duration. Defined only for a non-empty queue: callers must check
    /// emptiness first.
    pub fn take(&mut self) -> (r: Track)
        requires
            old(self).tracks@.len() > 0,
            old(self).wf(),
        ensures
            r == old(self).tracks@[0],
            final(self).tracks@ == old(self).tracks@.drop_first(),
            final(self).total_time == old(self).total_time - r.duration,
            final(self).wf(),
    {
        proof {
            assert(sum_durations(old(self).tracks@)
                == old(self).tracks@[0].duration + sum_durations(old(self).tracks@.drop_first()));
            lemma_sum_nonneg(old(self).tracks@.drop_first());
        }
        let t = self.tracks.remove(0);
        self.total_time = self.total_time - t.duration;
        proof {
            assert(self.tracks@ =~= old(self).tracks@.drop_first());
        }
        t
    }

    /// Empties the queue and resets the total to exactly zero, whatever the
    /// prior state was.
    pub fn clear(&mut self)
        ensures
            final(self).tracks@.len() == 0,
            final(self).total_time == 0,
            final(self).wf(),
    {
        self.tracks.clear();
        self.total_time = 0;
    }

    /// Permutes the contained tracks randomly in place. Whatever order comes
    /// out, the multiset of tracks and the total duration are unchanged.
    pub fn shuffle(&mut self)
        ensures
            final(self).tracks@.to_multiset() == old(self).tracks@.to_multiset(),
            final(self).tracks@.len() == old(self).tracks@.len(),
            final(self).total_time == old(self).total_time,
            old(self).wf() ==> final(self).wf(),
    {
        broadcast use vstd::seq_lib::group_to_multiset_ensures;

        let ghost orig = self.tracks@;
        let mut out: Vec<Track> = Vec::new();
        while self.tracks.len() > 0
            invariant
                self.total_time == old(self).total_time,
                orig == old(self).tracks@,
                out@.to_multiset().add(self.tracks@.to_multiset()) == orig.to_multiset(),
                out@.len() + self.tracks@.len() == orig.len(),
                sum_durations(out@) + sum_durations(self.tracks@) == sum_durations(orig),
            decreases self.tracks@.len(),
        {
            let j = rand_below(self.tracks.len());
            let ghost pre = self.tracks@;
            let t = self.tracks.remove(j);
            proof {
                lemma_sum_remove(pre, j as int);
                lemma_sum_push(out@, t);
                vstd::seq_lib::to_multiset_build::<Track>(out@, t);
                vstd::seq_lib::to_multiset_remove::<Track>(pre, j as int);
                vstd::seq_lib::to_multiset_contains::<Track>(pre, t);
                assert(pre.contains(t));
                assert(out@.to_multiset().insert(t).add(pre.to_multiset().remove(t))
                    =~= out@.to_multiset().add(pre.to_multiset()));
            }
            out.push(t);
        }
        proof {
            assert(self.tracks@.to_multiset() =~= Multiset::<Track>::empty());
            assert(out@.to_multiset().add(Multiset::<Track>::empty()) =~= out@.to_multiset());
            assert(sum_durations(self.tracks@) == 0);
        }
        self.tracks = out;
    }
}

/// Relies on rand::random_range: returns a uniformly drawn index below
/// `bound`, using the thread-local generator. Nothing more than the bound can
/// be promised of a random value.
#[verifier::external_body]
fn rand_below(bound: usize) -> (r: usize)
    requires
        0 < bound,
    ensures
        r < bound,
{
    rand::random_range(0..bound)
}

} // verus!
