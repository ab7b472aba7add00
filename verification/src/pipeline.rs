//! The full preparation pipeline: encode every sample, shuffle the command
//! lines, pack them into bounded chunks — the chunk set the dispatcher then
//! cycles forever.

use vstd::prelude::*;

use crate::encode::{
    encode_samples, lemma_encode_all_bounds, spec_encode_all, EncodeOptions, Sample,
};
use crate::pack::{lemma_pack_bounds, lemma_pack_preserves_commands, pack_chunks, spec_pack};
use crate::shuffle::{lemma_shuffle_permutes, shuffle_commands, spec_shuffle};

verus! {

/// The chunk set carries every encoded command exactly once: concatenating
/// its chunks in insertion order gives the commands in the seed's shuffled
/// order, and that order is a permutation of the encoded commands — no chunk
/// boundary splits a command, none is lost, none is duplicated.
pub proof fn lemma_chunk_set_carries_every_command(
    samples: Seq<Sample>,
    o: EncodeOptions,
    seed: u64,
    max: int,
)
    ensures
        spec_pack(spec_shuffle(spec_encode_all(samples, o), seed), max).flatten() == spec_shuffle(
            spec_encode_all(samples, o),
            seed,
        ).flatten(),
        spec_shuffle(spec_encode_all(samples, o), seed).to_multiset() == spec_encode_all(
            samples,
            o,
        ).to_multiset(),
{
    lemma_pack_preserves_commands(spec_shuffle(spec_encode_all(samples, o), seed), max);
    lemma_shuffle_permutes(spec_encode_all(samples, o), seed);
}

/// As long as the configured maximum admits the longest possible command and
/// at least one sample was encoded, no chunk of the built chunk set is empty
/// and none exceeds the maximum — the tail chunk included.
pub proof fn lemma_chunk_set_bounds(samples: Seq<Sample>, o: EncodeOptions, seed: u64, max: int)
    requires
        max >= 34,
        spec_encode_all(samples, o).len() > 0,
    ensures
        forall|k: int|
            0 <= k < spec_pack(spec_shuffle(spec_encode_all(samples, o), seed), max).len()
                ==> 0 < (#[trigger] spec_pack(
                spec_shuffle(spec_encode_all(samples, o), seed),
                max,
            )[k]).len() <= max,
{
    broadcast use vstd::seq_lib::group_to_multiset_ensures;

    let cmds = spec_encode_all(samples, o);
    let sh = spec_shuffle(cmds, seed);
    lemma_encode_all_bounds(samples, o);
    lemma_shuffle_permutes(cmds, seed);
    assert(sh.to_multiset().len() == sh.len());
    assert(cmds.to_multiset().len() == cmds.len());
    assert(sh.len() == cmds.len());
    assert forall|i: int| 0 <= i < sh.len() implies 0 < (#[trigger] sh[i]).len() <= 34 by {
        assert(sh.to_multiset().count(sh[i]) > 0);
        assert(cmds.contains(sh[i]));
        let j = choose|j: int| 0 <= j < cmds.len() && cmds[j] == sh[i];
        assert(0 < cmds[j].len() <= 34);
    }
    lemma_pack_bounds(sh, max);
}

/// Relies on rand::random: one fresh draw from the thread-local generator.
/// Nothing can be promised of its value.
#[verifier::external_body]
fn random_seed() -> u64 {
    rand::random::<u64>()
}

/// Builds the chunk set for one image under one seed: the encoded commands,
/// in the seed's shuffled order, greedily packed into chunks of at most
/// `max_chunk` bytes. One seed always yields one layout.
pub fn build_chunks(samples: &Vec<Sample>, o: &EncodeOptions, seed: u64, max_chunk: usize) -> (r:
    Vec<Vec<u8>>)
    requires
        o.apply_offset ==> forall|i: int|
            0 <= i < samples@.len() ==> samples@[i].x + o.x_off <= u32::MAX && samples@[i].y
                + o.y_off <= u32::MAX,
    ensures
        r.deep_view() == spec_pack(
            spec_shuffle(spec_encode_all(samples@, *o), seed),
            max_chunk as int,
        ),
{
    let cmds = encode_samples(samples, o);
    let shuffled = shuffle_commands(cmds, seed);
    pack_chunks(shuffled, max_chunk)
}

/// Builds the chunk set under a freshly drawn seed, as the program does at
/// startup: whatever the draw, the result is the packing of some shuffled
/// order of exactly the encoded commands.
pub fn build_chunks_random(samples: &Vec<Sample>, o: &EncodeOptions, max_chunk: usize) -> (r: Vec<
    Vec<u8>>)
    requires
        o.apply_offset ==> forall|i: int|
            0 <= i < samples@.len() ==> samples@[i].x + o.x_off <= u32::MAX && samples@[i].y
                + o.y_off <= u32::MAX,
    ensures
        exists|seed: u64|
            r.deep_view() == spec_pack(
                #[trigger] spec_shuffle(spec_encode_all(samples@, *o), seed),
                max_chunk as int,
            ),
{
    let seed = random_seed();
    let r = build_chunks(samples, o, seed, max_chunk);
    proof {
        assert(r.deep_view() == spec_pack(
            spec_shuffle(spec_encode_all(samples@, *o), seed),
            max_chunk as int,
        ));
    }
    r
}

} // verus!
