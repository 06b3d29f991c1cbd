//! The file-backed sample source: a pre-decoded waveform consumed one
//! sample at a time. Decode failures become silence, and a source that has
//! reached its end yields silence indefinitely.

use vstd::prelude::*;

verus! {

/// A pre-decoded waveform and the position of the next sample to play.
pub struct FileSource {
    data: Vec<i32>,
    pos: usize,
}

/// A decoded item as stored: a failed decode is silence.
pub open spec fn decoded_or_silence(o: Option<i32>) -> i32 {
    match o {
        Some(v) => v,
        None => 0,
    }
}

impl FileSource {
    /// The decoded samples.
    pub closed spec fn samples(&self) -> Seq<i32> {
        self.data@
    }

    /// How many samples have been consumed.
    pub closed spec fn pos(&self) -> nat {
        self.pos as nat
    }

    /// The position never runs past the end.
    pub open spec fn wf(&self) -> bool {
        self.pos() <= self.samples().len()
    }

    /// Builds a source from decode results, turning each failed decode
    /// into silence.
    pub fn new(decoded: Vec<Option<i32>>) -> (s: FileSource)
        ensures
            s.wf(),
            s.pos() == 0,
            s.samples().len() == decoded@.len(),
            forall|i: int| 0 <= i < decoded@.len() ==> #[trigger] s.samples()[i]
                == decoded_or_silence(decoded@[i]),
    {
        let n: usize = decoded.len();
        let mut data: Vec<i32> = Vec::new();
        let mut i: usize = 0;
        while i < n
            invariant
                i <= n,
                n == decoded@.len(),
                data@.len() == i,
                forall|j: int| 0 <= j < i ==> #[trigger] data@[j] == decoded_or_silence(decoded@[j]),
            decreases n - i,
        {
            let v: i32 = match decoded[i] {
                Some(v) => v,
                None => 0,
            };
            data.push(v);
            i = i + 1;
        }
        FileSource { data, pos: 0 }
    }

    /// The sample a source yields next: the sample at the position, or
    /// silence at the end of the stream.
    pub open spec fn spec_next(&self) -> i32 {
        if self.pos() < self.samples().len() {
            self.samples()[self.pos() as int]
        } else {
            0
        }
    }

    /// Yields the next sample. Never blocks and never fails: the end of
    /// the stream plays silence indefinitely, without looping.
    pub fn next_sample(&mut self) -> (v: i32)
        requires
            old(self).wf(),
        ensures
            final(self).wf(),
            final(self).samples() == old(self).samples(),
            v == old(self).spec_next(),
            final(self).pos() == if old(self).pos() < old(self).samples().len() {
                old(self).pos() + 1
            } else {
                old(self).pos()
            },
    {
        if self.pos < self.data.len() {
            let v = self.data[self.pos];
            self.pos = self.pos + 1;
            v
        } else {
            0
        }
    }
}

} // verus!
