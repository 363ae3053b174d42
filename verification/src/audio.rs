//! Audio buffers as the pipeline sees them.
//!
//! The orchestrator never inspects individual samples: it only hands
//! buffers to the runtime and concatenates the chunks that come back, in
//! order, along the time axis.  A sample is therefore carried as the raw
//! bit pattern of one 32-bit float, which keeps the buffer a plain value
//! the contracts can speak about.

use vstd::prelude::*;
use vstd::seq_lib::group_seq_properties;

verus! {

/// A rank-one tensor of 32-bit float samples, each held as its bit pattern.
///
/// Used both for raw/resampled audio and for the acoustic feature sequence
/// a speaker's reference audio is reduced to.
pub struct AudioTensor {
    pub samples: Vec<u32>,
}

impl View for AudioTensor {
    type V = Seq<u32>;

    open spec fn view(&self) -> Seq<u32> {
        self.samples@
    }
}

impl AudioTensor {
    /// Wraps a sample buffer.
    pub fn new(samples: Vec<u32>) -> (r: AudioTensor)
        ensures
            r@ == samples@,
    {
        AudioTensor { samples }
    }

    /// Number of samples along the time axis.
    pub fn len(&self) -> (n: usize)
        ensures
            n == self@.len(),
    {
        self.samples.len()
    }
}

/// The sample sequences of a list of audio chunks, in order.
pub open spec fn chunk_views(parts: Seq<AudioTensor>) -> Seq<Seq<u32>> {
    parts.map_values(|a: AudioTensor| a@)
}

/// Joins audio chunks along the time axis, in the order given.
///
/// The result is exactly the chunks' samples laid end to end: no
/// cross-chunk blending, no reordering.
pub fn concat_audio(parts: &Vec<AudioTensor>) -> (r: AudioTensor)
    ensures
        r@ == chunk_views(parts@).flatten(),
{
    broadcast use group_seq_properties;

    let mut out: Vec<u32> = Vec::new();
    proof {
        assert(chunk_views(parts@.take(0)).flatten() =~= Seq::<u32>::empty());
    }
    let mut i: usize = 0;
    while i < parts.len()
        invariant
            i <= parts.len(),
            out@ == chunk_views(parts@.take(i as int)).flatten(),
        decreases parts.len() - i,
    {
        let part = &parts[i];
        let mut j: usize = 0;
        while j < part.samples.len()
            invariant
                j <= part.samples.len(),
                out@ == chunk_views(parts@.take(i as int)).flatten() + part@.take(j as int),
            decreases part.samples.len() - j,
        {
            out.push(part.samples[j]);
            j += 1;
        }
        proof {
            assert(part@.take(part@.len() as int) =~= part@);
            assert(chunk_views(parts@.take(i + 1)) =~= chunk_views(parts@.take(i as int)).push(
                parts@[i as int]@,
            ));
            chunk_views(parts@.take(i as int)).lemma_flatten_push(parts@[i as int]@);
        }
        i += 1;
    }
    proof {
        assert(parts@.take(parts@.len() as int) =~= parts@);
    }
    AudioTensor { samples: out }
}

} // verus!
