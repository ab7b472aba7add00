use pixelspray::pack::pack_chunks;
use pixelspray::shuffle::shuffle_commands;

fn cmds(parts: &[&[u8]]) -> Vec<Vec<u8>> {
    parts.iter().map(|p| p.to_vec()).collect()
}

fn concat(chunks: &[Vec<u8>]) -> Vec<u8> {
    let mut out = Vec::new();
    for c in chunks {
        out.extend_from_slice(c);
    }
    out
}

#[test]
fn greedy_packing_seals_at_the_limit() {
    let r = pack_chunks(cmds(&[b"aaaaa", b"bbbbb", b"ccccc"]), 10);
    assert_eq!(r.len(), 2);
    assert_eq!(r[0], b"aaaaabbbbb".to_vec());
    assert_eq!(r[1], b"ccccc".to_vec());
}

#[test]
fn concatenation_reproduces_every_command_once() {
    let input = cmds(&[b"PX 0 0 AA\n", b"PX 1 0 BB\n", b"PX 0 1 CC\n", b"PX 1 1 DD\n"]);
    let whole = concat(&input);
    for max in [1usize, 5, 10, 11, 21, 1000] {
        let r = pack_chunks(input.clone(), max);
        assert_eq!(concat(&r), whole);
    }
}

#[test]
fn no_chunk_exceeds_the_maximum_and_none_is_empty() {
    let input = cmds(&[b"aaaa", b"bb", b"cccccc", b"d", b"ee", b"ffffff"]);
    let r = pack_chunks(input, 6);
    for c in &r {
        assert!(!c.is_empty());
        assert!(c.len() <= 6);
    }
}

#[test]
fn empty_input_yields_one_empty_chunk() {
    let r = pack_chunks(Vec::new(), 100);
    assert_eq!(r.len(), 1);
    assert!(r[0].is_empty());
}

#[test]
fn all_commands_in_one_large_chunk() {
    let input = cmds(&[b"one", b"two", b"three"]);
    let r = pack_chunks(input, 1000);
    assert_eq!(r.len(), 1);
    assert_eq!(r[0], b"onetwothree".to_vec());
}

#[test]
fn shuffled_input_packs_without_loss() {
    let input: Vec<Vec<u8>> = (0u8..50).map(|i| vec![i, i, i]).collect();
    let shuffled = shuffle_commands(input.clone(), 99);
    let r = pack_chunks(shuffled, 7);
    let mut got = concat(&r);
    let mut want = concat(&input);
    got.sort();
    want.sort();
    assert_eq!(got, want);
    for c in pack_chunks(shuffle_commands(input, 99), 7) {
        assert!(c.len() <= 7 && !c.is_empty());
    }
}
