//! Seeded uniform shuffling of the command sequence. The shuffle is a pure
//! function of the input and the seed, so a fixed seed reproduces the same
//! chunk layout; the seed itself is drawn fresh at startup.

use vstd::multiset::Multiset;
use vstd::prelude::*;

verus! {

pub const LCG_MUL: u64 = 6364136223846793005;

pub const LCG_INC: u64 = 1442695040888963407;

pub const TWO64: u128 = 0x1_0000_0000_0000_0000;

/// The generator's next state: a linear congruence modulo 2^64.
pub open spec fn spec_next_state(s: u64) -> u64 {
    ((s * LCG_MUL + LCG_INC) % (TWO64 as int)) as u64
}

/// Advances the pseudo-random generator state.
pub fn next_state(s: u64) -> (r: u64)
    ensures
        r == spec_next_state(s),
{
    proof {
        assert((s as int) * (LCG_MUL as int) <= (u64::MAX as int) * (LCG_MUL as int))
            by (nonlinear_arith)
            requires
                s <= u64::MAX,
        ;
    }
    let wide: u128 = s as u128 * LCG_MUL as u128 + LCG_INC as u128;
    (wide % TWO64) as u64
}

/// The draw-without-replacement shuffle: `acc` holds what is already drawn;
/// each step draws one element of `rem` at a pseudo-random index and fills the
/// gap with the last element.
pub open spec fn spec_shuffle_rec<T>(rem: Seq<T>, acc: Seq<T>, st: u64) -> Seq<T>
    decreases rem.len(),
{
    if rem.len() == 0 {
        acc
    } else {
        let st1 = spec_next_state(st);
        let j = st1 as int % rem.len() as int;
        spec_shuffle_rec(rem.update(j, rem.last()).drop_last(), acc.push(rem[j]), st1)
    }
}

/// The shuffled order of `s` under `seed`: a function of the two alone, so
/// one seed always yields one layout.
pub open spec fn spec_shuffle<T>(s: Seq<T>, seed: u64) -> Seq<T> {
    spec_shuffle_rec(s, Seq::empty(), seed)
}

/// Whatever remains to draw and whatever was drawn, the shuffle only moves
/// elements: together they keep exactly the same multiset.
proof fn lemma_shuffle_rec_multiset<T>(rem: Seq<T>, acc: Seq<T>, st: u64)
    ensures
        spec_shuffle_rec(rem, acc, st).to_multiset() == acc.to_multiset().add(rem.to_multiset()),
    decreases rem.len(),
{
    broadcast use vstd::seq_lib::group_to_multiset_ensures;

    if rem.len() == 0 {
        assert(rem.to_multiset() =~= Multiset::<T>::empty());
        assert(acc.to_multiset().add(rem.to_multiset()) =~= acc.to_multiset());
    } else {
        let st1 = spec_next_state(st);
        let j = st1 as int % rem.len() as int;
        let swapped = rem.update(j, rem.last());
        let rem1 = swapped.drop_last();
        let acc1 = acc.push(rem[j]);
        lemma_shuffle_rec_multiset(rem1, acc1, st1);
        assert(swapped.to_multiset() == rem.to_multiset().insert(rem.last()).remove(rem[j]));
        assert(rem1 =~= swapped.remove(swapped.len() - 1));
        assert(swapped.last() == rem.last());
        assert(rem1.to_multiset() == swapped.to_multiset().remove(rem.last()));
        assert(rem.to_multiset().count(rem[j]) > 0);
        assert(rem.to_multiset().count(rem.last()) > 0);
        assert(acc1.to_multiset().add(rem1.to_multiset()) =~= acc.to_multiset().add(
            rem.to_multiset(),
        ));
    }
}

/// The shuffled sequence is a permutation of the input: nothing is lost,
/// nothing is duplicated.
pub proof fn lemma_shuffle_permutes<T>(s: Seq<T>, seed: u64)
    ensures
        spec_shuffle(s, seed).to_multiset() == s.to_multiset(),
{
    broadcast use vstd::seq_lib::group_to_multiset_ensures;

    lemma_shuffle_rec_multiset(s, Seq::empty(), seed);
    assert(Seq::<T>::empty().to_multiset() =~= Multiset::<T>::empty());
    assert(Multiset::<T>::empty().add(s.to_multiset()) =~= s.to_multiset());
}

/// Shuffling is deterministic: equal inputs and equal seeds give equal
/// layouts, in every run.
pub proof fn lemma_shuffle_deterministic<T>(s: Seq<T>, t: Seq<T>, seed: u64)
    requires
        s == t,
    ensures
        spec_shuffle(s, seed) == spec_shuffle(t, seed),
{
}

/// Shuffles the command lines under the given seed; the result is exactly
/// `spec_shuffle` of the input, hence reproducible and a permutation.
pub fn shuffle_commands(cmds: Vec<Vec<u8>>, seed: u64) -> (r: Vec<Vec<u8>>)
    ensures
        r.deep_view() == spec_shuffle(cmds.deep_view(), seed),
        r.deep_view().to_multiset() == cmds.deep_view().to_multiset(),
{
    let ghost orig = cmds.deep_view();
    let mut rem = cmds;
    let mut acc: Vec<Vec<u8>> = Vec::new();
    let mut st: u64 = seed;
    proof {
        assert(acc.deep_view() =~~= Seq::<Seq<u8>>::empty());
    }
    while rem.len() > 0
        invariant
            spec_shuffle(orig, seed) == spec_shuffle_rec(rem.deep_view(), acc.deep_view(), st),
        decreases rem.len(),
    {
        let ghost rem0 = rem.deep_view();
        let ghost acc0 = acc.deep_view();
        let st1 = next_state(st);
        let j = (st1 % rem.len() as u64) as usize;
        assert(j as int == st1 as int % rem0.len() as int);
        let item = rem.swap_remove(j);
        let ghost itemv = item@;
        acc.push(item);
        st = st1;
        proof {
            assert(itemv == rem0[j as int]);
            assert(rem.deep_view() =~~= rem0.update(j as int, rem0.last()).drop_last());
            assert(acc.deep_view() =~~= acc0.push(itemv));
        }
    }
    proof {
        assert(rem.deep_view() =~~= Seq::<Seq<u8>>::empty());
        lemma_shuffle_permutes(orig, seed);
    }
    acc
}

} // verus!
