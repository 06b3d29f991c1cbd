//! The visualization sample history: a fixed-capacity ordered sequence of
//! the most recent samples, evicting the oldest when a new one arrives at
//! capacity.

use vstd::prelude::*;

use std::collections::VecDeque;

use crate::channel::try_recv;
use crate::commands::FromAudio;

verus! {

/// One push into a bounded history: at capacity the oldest entry leaves.
pub open spec fn push_model(s: Seq<i32>, cap: nat, v: i32) -> Seq<i32> {
    if s.len() >= cap {
        s.subrange(1, s.len() as int).push(v)
    } else {
        s.push(v)
    }
}

/// A whole sequence of pushes, oldest first.
pub open spec fn push_seq(s: Seq<i32>, cap: nat, vs: Seq<i32>) -> Seq<i32>
    decreases vs.len(),
{
    if vs.len() == 0 {
        s
    } else {
        push_seq(push_model(s, cap, vs[0]), cap, vs.drop_first())
    }
}

/// The history is first-in-first-out bounded: after pushing any sequence
/// of samples into a well-formed history, what remains is exactly the
/// last `cap` entries (or all of them, if fewer) of the old contents
/// followed by the pushed samples, oldest evicted first.
pub proof fn lemma_history_fifo_window(s: Seq<i32>, cap: nat, vs: Seq<i32>)
    requires
        cap >= 1,
        s.len() <= cap,
    ensures
        ({
            let all = s + vs;
            let keep = if all.len() <= cap { all.len() } else { cap };
            push_seq(s, cap, vs) == all.subrange(all.len() - keep, all.len() as int)
        }),
    decreases vs.len(),
{
    let all = s + vs;
    let keep: nat = if all.len() <= cap { all.len() } else { cap };
    if vs.len() == 0 {
        assert(push_seq(s, cap, vs) =~= all.subrange(all.len() - keep, all.len() as int));
    } else {
        let v0 = vs[0];
        let vs2 = vs.drop_first();
        let s2 = push_model(s, cap, v0);
        assert(s2.len() <= cap);
        lemma_history_fifo_window(s2, cap, vs2);
        let all2 = s2 + vs2;
        let keep2: nat = if all2.len() <= cap { all2.len() } else { cap };
        if s.len() < cap {
            assert(all2 =~= all);
            assert(push_seq(s, cap, vs) =~= all.subrange(all.len() - keep, all.len() as int));
        } else {
            assert(all2 =~= all.subrange(1, all.len() as int));
            assert(keep2 == cap && keep == cap);
            assert(all2.subrange(all2.len() - keep2, all2.len() as int)
                =~= all.subrange(all.len() - keep, all.len() as int));
            assert(push_seq(s, cap, vs) =~= all.subrange(all.len() - keep, all.len() as int));
        }
    }
}

/// The bounded history of recent visualization samples.
pub struct SampleHistory {
    cap: usize,
    buf: VecDeque<i32>,
}

impl SampleHistory {
    /// The stored samples, oldest first.
    pub closed spec fn view(&self) -> Seq<i32> {
        self.buf@
    }

    /// The fixed capacity.
    pub closed spec fn cap(&self) -> nat {
        self.cap as nat
    }

    /// Well-formedness: a positive capacity that the contents never exceed.
    pub open spec fn wf(&self) -> bool {
        1 <= self.cap() && self.view().len() <= self.cap()
    }

    /// An empty history of the given capacity.
    pub fn new(cap: usize) -> (h: SampleHistory)
        requires
            cap >= 1,
        ensures
            h.wf(),
            h.cap() == cap,
            h.view() == Seq::<i32>::empty(),
    {
        SampleHistory { cap, buf: VecDeque::new() }
    }

    /// How many samples are stored.
    pub fn len(&self) -> (n: usize)
        ensures
            n == self.view().len(),
    {
        self.buf.len()
    }

    /// The sample at position `i`, oldest first.
    pub fn get(&self, i: usize) -> (v: i32)
        requires
            i < self.view().len(),
        ensures
            v == self.view()[i as int],
    {
        self.buf[i]
    }

    /// Pushes one sample, evicting the oldest when at capacity.
    pub fn push(&mut self, v: i32)
        requires
            old(self).wf(),
        ensures
            final(self).wf(),
            final(self).cap() == old(self).cap(),
            final(self).view() == push_model(old(self).view(), old(self).cap(), v),
    {
        if self.buf.len() == self.cap {
            let _ = self.buf.pop_front();
        }
        self.buf.push_back(v);
    }
}

/// Pushing one more sample steps the sequence of pushes once.
proof fn lemma_push_seq_snoc(s: Seq<i32>, cap: nat, vs: Seq<i32>, v: i32)
    ensures
        push_seq(s, cap, vs.push(v)) == push_model(push_seq(s, cap, vs), cap, v),
    decreases vs.len(),
{
    if vs.len() == 0 {
        assert(vs.push(v).drop_first() =~= Seq::<i32>::empty());
        assert(vs.push(v)[0] == v);
        assert(push_seq(push_model(s, cap, v), cap, Seq::<i32>::empty()) == push_model(s, cap, v));
    } else {
        assert(vs.push(v)[0] == vs[0]);
        assert(vs.push(v).drop_first() =~= vs.drop_first().push(v));
        lemma_push_seq_snoc(push_model(s, cap, vs[0]), cap, vs.drop_first(), v);
    }
}

/// The render thread's per-frame drain: moves waiting visualization
/// samples from the outbound queue into the history, non-blockingly, up
/// to a fixed cap per frame. What the queue delivers depends on the audio
/// thread, so the contract holds for some received sample sequence.
pub fn drain_visuals(rx: &crossbeam_channel::Receiver<FromAudio>, hist: &mut SampleHistory,
    max: usize) -> (got: usize)
    requires
        old(hist).wf(),
    ensures
        final(hist).wf(),
        final(hist).cap() == old(hist).cap(),
        exists|vs: Seq<i32>| {
            &&& final(hist).view() == #[trigger] push_seq(old(hist).view(), old(hist).cap(), vs)
            &&& got == vs.len() <= max
        },
{
    let ghost h0 = hist.view();
    let ghost cap0 = hist.cap();
    let ghost mut vs: Seq<i32> = Seq::empty();
    let mut got: usize = 0;
    let mut k: usize = 0;
    let mut done = false;
    while k < max && !done
        invariant
            hist.wf(),
            hist.cap() == cap0,
            k <= max,
            got == vs.len() <= k,
            hist.view() == push_seq(h0, cap0, vs),
        decreases max - k,
    {
        match try_recv(rx) {
            Some(FromAudio::Data(v)) => {
                proof {
                    lemma_push_seq_snoc(h0, cap0, vs, v);
                    vs = vs.push(v);
                }
                hist.push(v);
                got = got + 1;
            },
            None => {
                done = true;
            },
        }
        k = k + 1;
    }
    got
}

} // verus!
