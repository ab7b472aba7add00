//! The chunk packer: command lines are appended greedily into buffers bounded
//! by a maximum byte length; a buffer is sealed and a new one started when the
//! next command would not fit.

use vstd::prelude::*;

verus! {

/// The packing of `cmds` after `cur`, the buffer currently being filled:
/// greedy, sealing `cur` whenever the next command would push it past `max`.
pub open spec fn spec_pack_from(cmds: Seq<Seq<u8>>, max: int, cur: Seq<u8>) -> Seq<Seq<u8>>
    decreases cmds.len(),
{
    if cmds.len() == 0 {
        seq![cur]
    } else if cur.len() + cmds[0].len() > max {
        seq![cur] + spec_pack_from(cmds.drop_first(), max, cmds[0])
    } else {
        spec_pack_from(cmds.drop_first(), max, cur + cmds[0])
    }
}

/// The chunk set for a command sequence: greedy packing started on an empty
/// buffer. An empty command sequence yields one empty chunk.
pub open spec fn spec_pack(cmds: Seq<Seq<u8>>, max: int) -> Seq<Seq<u8>> {
    spec_pack_from(cmds, max, Seq::empty())
}

/// Concatenating the chunks that follow a partially filled buffer gives that
/// buffer followed by the remaining commands: no command is lost, duplicated
/// or split across a chunk boundary.
proof fn lemma_pack_from_flatten(cmds: Seq<Seq<u8>>, max: int, cur: Seq<u8>)
    ensures
        spec_pack_from(cmds, max, cur).flatten() == cur + cmds.flatten(),
    decreases cmds.len(),
{
    if cmds.len() == 0 {
        let s = seq![cur];
        assert(s.drop_first() =~= Seq::<Seq<u8>>::empty());
        assert(s.flatten() == cur + s.drop_first().flatten());
        assert(spec_pack_from(cmds, max, cur).flatten() =~= cur);
        assert(cur + cmds.flatten() =~= cur);
    } else if cur.len() + cmds[0].len() > max {
        lemma_pack_from_flatten(cmds.drop_first(), max, cmds[0]);
        let s = seq![cur] + spec_pack_from(cmds.drop_first(), max, cmds[0]);
        assert(s.first() == cur);
        assert(s.drop_first() =~= spec_pack_from(cmds.drop_first(), max, cmds[0]));
        assert(s.flatten() == cur + s.drop_first().flatten());
        assert(spec_pack_from(cmds, max, cur).flatten() =~= cur + (cmds[0]
            + cmds.drop_first().flatten()));
        assert(cmds.flatten() == cmds[0] + cmds.drop_first().flatten());
        assert(cur + cmds.flatten() =~= cur + (cmds[0] + cmds.drop_first().flatten()));
    } else {
        lemma_pack_from_flatten(cmds.drop_first(), max, cur + cmds[0]);
        assert(cur + cmds.flatten() =~= (cur + cmds[0]) + cmds.drop_first().flatten());
    }
}

/// Concatenating all chunks in insertion order reproduces the full command
/// sequence, each command exactly once, none split.
pub proof fn lemma_pack_preserves_commands(cmds: Seq<Seq<u8>>, max: int)
    ensures
        spec_pack(cmds, max).flatten() == cmds.flatten(),
{
    lemma_pack_from_flatten(cmds, max, Seq::empty());
    assert(Seq::<u8>::empty() + cmds.flatten() =~= cmds.flatten());
}

proof fn lemma_pack_from_bounds(cmds: Seq<Seq<u8>>, max: int, cur: Seq<u8>)
    requires
        0 < cur.len() <= max,
        forall|i: int| 0 <= i < cmds.len() ==> 0 < (#[trigger] cmds[i]).len() <= max,
    ensures
        forall|k: int|
            0 <= k < spec_pack_from(cmds, max, cur).len() ==> 0 < (#[trigger] spec_pack_from(
                cmds,
                max,
                cur,
            )[k]).len() <= max,
    decreases cmds.len(),
{
    let res = spec_pack_from(cmds, max, cur);
    if cmds.len() == 0 {
        assert(res[0] == cur);
    } else {
        assert(forall|i: int|
            0 <= i < cmds.drop_first().len() ==> (#[trigger] cmds.drop_first()[i]) == cmds[i + 1]);
        if cur.len() + cmds[0].len() > max {
            lemma_pack_from_bounds(cmds.drop_first(), max, cmds[0]);
            let tail = spec_pack_from(cmds.drop_first(), max, cmds[0]);
            assert(res == seq![cur] + tail);
            assert forall|k: int| 0 <= k < res.len() implies 0 < (#[trigger] res[k]).len()
                <= max by {
                if k == 0 {
                    assert(res[0] == cur);
                } else {
                    assert(res[k] == tail[k - 1]);
                }
            }
        } else {
            lemma_pack_from_bounds(cmds.drop_first(), max, cur + cmds[0]);
            assert(res == spec_pack_from(cmds.drop_first(), max, cur + cmds[0]));
        }
    }
}

/// When every command is nonempty and no longer than `max`, no chunk is empty
/// and no chunk exceeds `max` — the tail chunk included.
pub proof fn lemma_pack_bounds(cmds: Seq<Seq<u8>>, max: int)
    requires
        cmds.len() > 0,
        forall|i: int| 0 <= i < cmds.len() ==> 0 < (#[trigger] cmds[i]).len() <= max,
    ensures
        forall|k: int|
            0 <= k < spec_pack(cmds, max).len() ==> 0 < (#[trigger] spec_pack(cmds, max)[k]).len()
                <= max,
{
    assert(Seq::<u8>::empty() + cmds[0] =~= cmds[0]);
    assert(forall|i: int|
        0 <= i < cmds.drop_first().len() ==> (#[trigger] cmds.drop_first()[i]) == cmds[i + 1]);
    lemma_pack_from_bounds(cmds.drop_first(), max, cmds[0]);
    assert(spec_pack(cmds, max) == spec_pack_from(cmds.drop_first(), max, cmds[0]));
}

/// Packs the command lines into chunks of at most `max` bytes each (greedily;
/// only a tail buffer may stay shorter). The chunk set is exactly the greedy
/// packing of the input, so no command is lost, duplicated or split.
pub fn pack_chunks(cmds: Vec<Vec<u8>>, max: usize) -> (r: Vec<Vec<u8>>)
    ensures
        r.deep_view() == spec_pack(cmds.deep_view(), max as int),
        r.deep_view().flatten() == cmds.deep_view().flatten(),
{
    let ghost all = cmds.deep_view();
    let mut out: Vec<Vec<u8>> = Vec::new();
    let mut cur: Vec<u8> = Vec::new();
    let mut i: usize = 0;
    proof {
        assert(all.skip(0) =~= all);
        assert(out.deep_view() + seq![cur@] =~~= seq![cur@]);
    }
    while i < cmds.len()
        invariant
            0 <= i <= cmds.len(),
            all == cmds.deep_view(),
            cmds@.len() == all.len(),
            forall|k: int| 0 <= k < cmds@.len() ==> (#[trigger] cmds@[k])@ == all[k],
            spec_pack(all, max as int) == out.deep_view() + spec_pack_from(
                all.skip(i as int),
                max as int,
                cur@,
            ),
        decreases cmds@.len() - i,
    {
        let ghost rest = all.skip(i as int);
        let ghost old_out = out.deep_view();
        let ghost old_cur = cur@;
        assert(rest[0] == all[i as int]);
        assert(rest.drop_first() =~= all.skip(i as int + 1));
        let cmd = &cmds[i];
        if cur.len() as u128 + cmd.len() as u128 > max as u128 {
            let mut next: Vec<u8> = Vec::new();
            next.extend_from_slice(cmd.as_slice());
            assert(next@ =~= rest[0]);
            core::mem::swap(&mut cur, &mut next);
            out.push(next);
            proof {
                assert(out.deep_view() =~~= old_out + seq![old_cur]);
                assert(spec_pack_from(rest, max as int, old_cur) == seq![old_cur]
                    + spec_pack_from(rest.drop_first(), max as int, rest[0]));
                assert(out.deep_view() + spec_pack_from(all.skip(i as int + 1), max as int, cur@)
                    =~~= old_out + spec_pack_from(rest, max as int, old_cur));
            }
        } else {
            cur.extend_from_slice(cmd.as_slice());
            proof {
                assert(cur@ =~= old_cur + rest[0]);
            }
        }
        i = i + 1;
    }
    proof {
        assert(all.skip(i as int) =~= Seq::<Seq<u8>>::empty());
    }
    out.push(cur);
    proof {
        assert(out.deep_view() =~~= spec_pack(all, max as int));
        lemma_pack_preserves_commands(all, max as int);
    }
    out
}

} // verus!
