use ed25519_dalek::{Signer, SigningKey};

use mainline_core::id::Id;
use mainline_core::messages::SignedAnnounce;
use mainline_core::signed_peers::{draw_peers, SignedPeersStore, TARGET_SIZE};

fn random_id() -> Id {
    let mut bytes = [0; 20];
    getrandom::fill(&mut bytes).unwrap();
    Id { bytes }
}

fn make_signer() -> SigningKey {
    let mut secret_key = [0; 32];
    getrandom::fill(&mut secret_key).unwrap();
    SigningKey::from_bytes(&secret_key)
}

fn make_peer(signer: &SigningKey, target: &Id) -> SignedAnnounce {
    let timestamp: u64 = 1_700_000_000_000_000;
    let mut signable = target.bytes.to_vec();
    signable.extend_from_slice(&timestamp.to_be_bytes());
    SignedAnnounce {
        key: *signer.verifying_key().as_bytes(),
        timestamp,
        signature: signer.sign(&signable).to_bytes(),
    }
}

fn plain_peer(number: u8, timestamp: u64) -> SignedAnnounce {
    SignedAnnounce {
        key: [number; 32],
        timestamp,
        signature: [number; 64],
    }
}

fn random_peers(store: &mut SignedPeersStore, info_hash: &Id) -> Option<Vec<SignedAnnounce>> {
    store.get_random_peers(info_hash).unwrap()
}

#[test]
fn max_info_hashes() {
    let mut store = SignedPeersStore::new(1, 100);

    let info_hash_a = random_id();
    let info_hash_b = random_id();

    let signer = make_signer();

    store.add_peer(info_hash_a, make_peer(&signer, &info_hash_a));
    store.add_peer(info_hash_b, make_peer(&signer, &info_hash_b));

    assert_eq!(store.info_hashes_len(), 1);
    assert!(random_peers(&mut store, &info_hash_b).is_some());
    assert!(random_peers(&mut store, &info_hash_a).is_none());
}

#[test]
fn all_peers() {
    let mut store = SignedPeersStore::new(1, 2);

    let info_hash = random_id();

    let signer1 = make_signer();
    let signer2 = make_signer();
    let signer3 = make_signer();

    store.add_peer(info_hash, make_peer(&signer1, &info_hash));
    store.add_peer(info_hash, make_peer(&signer2, &info_hash));
    store.add_peer(info_hash, make_peer(&signer3, &info_hash));

    assert_eq!(
        random_peers(&mut store, &info_hash)
            .unwrap()
            .iter()
            .map(|p| p.key())
            .collect::<Vec<_>>(),
        vec![
            signer3.verifying_key().as_bytes(),
            signer2.verifying_key().as_bytes()
        ]
    );
}

#[test]
fn random_peers_subset() {
    let mut store = SignedPeersStore::new(1, 200);

    let info_hash = random_id();

    for _ in 0..200 {
        store.add_peer(info_hash, make_peer(&make_signer(), &info_hash))
    }

    assert_eq!(store.announced_peers(&info_hash).unwrap().len(), 200);

    let sample = random_peers(&mut store, &info_hash).unwrap();

    assert_eq!(sample.len(), 10);
}

#[test]
fn announcing_again_replaces_and_comes_first() {
    let mut store = SignedPeersStore::new(5, 5);
    let info_hash = random_id();
    for number in 1..4 {
        store.add_peer(info_hash, plain_peer(number, 10));
    }
    store.add_peer(info_hash, plain_peer(1, 20));
    assert_eq!(
        random_peers(&mut store, &info_hash),
        Some(vec![
            plain_peer(1, 20),
            plain_peer(3, 10),
            plain_peer(2, 10)
        ])
    );
}

#[test]
fn full_store_forgets_the_least_recently_used_info_hash() {
    let mut store = SignedPeersStore::new(3, 5);
    let info_hashes: Vec<Id> = (0..4).map(|n| Id { bytes: [n; 20] }).collect();
    store.add_peer(info_hashes[0], plain_peer(0, 0));
    store.add_peer(info_hashes[1], plain_peer(1, 0));
    store.add_peer(info_hashes[2], plain_peer(2, 0));
    // Asking for peers and announcing one more both count as use.
    assert!(random_peers(&mut store, &info_hashes[0]).is_some());
    store.add_peer(info_hashes[1], plain_peer(9, 0));
    store.add_peer(info_hashes[3], plain_peer(3, 0));
    assert_eq!(store.info_hashes_len(), 3);
    assert_eq!(random_peers(&mut store, &info_hashes[2]), None);
    assert_eq!(
        random_peers(&mut store, &info_hashes[0]),
        Some(vec![plain_peer(0, 0)])
    );
    assert_eq!(
        random_peers(&mut store, &info_hashes[1]),
        Some(vec![plain_peer(9, 0), plain_peer(1, 0)])
    );
    assert_eq!(
        random_peers(&mut store, &info_hashes[3]),
        Some(vec![plain_peer(3, 0)])
    );
}

#[test]
fn as_many_peers_as_asked_for_are_all_returned() {
    for size in vec![9, 10] {
        let mut store = SignedPeersStore::new(1, 200);
        let info_hash = random_id();
        for number in 0..size {
            store.add_peer(info_hash, plain_peer(number, 0));
        }
        let expected: Vec<SignedAnnounce> =
            (0..size).rev().map(|number| plain_peer(number, 0)).collect();
        assert_eq!(random_peers(&mut store, &info_hash), Some(expected));
    }
}

#[test]
fn random_peers_vary_and_keep_their_order() {
    let mut store = SignedPeersStore::new(1, 200);
    let info_hash = random_id();
    for number in 0..200 {
        store.add_peer(info_hash, plain_peer(number, 0));
    }
    let samples: Vec<Vec<SignedAnnounce>> = (0..20)
        .map(|_| random_peers(&mut store, &info_hash).unwrap())
        .collect();
    for sample in &samples {
        assert!(sample.windows(2).all(|pair| pair[0].key[0] > pair[1].key[0]));
    }
    let first_ten: Vec<SignedAnnounce> = (190..200).rev().map(|n| plain_peer(n, 0)).collect();
    assert!(samples.iter().any(|sample| *sample != first_ten));
    assert!(samples.iter().any(|sample| *sample != samples[0]));
}

#[test]
fn copy_of_a_store_holds_the_same() {
    let mut store = SignedPeersStore::new(2, 2);
    let info_hashes: Vec<Id> = (0..3).map(|n| Id { bytes: [n; 20] }).collect();
    store.add_peer(info_hashes[0], plain_peer(1, 0));
    store.add_peer(info_hashes[0], plain_peer(2, 0));
    store.add_peer(info_hashes[1], plain_peer(3, 0));

    let mut copy = store.clone();
    // The copy keeps to the same limits and forgets in the same order.
    copy.add_peer(info_hashes[1], plain_peer(4, 0));
    copy.add_peer(info_hashes[1], plain_peer(5, 0));
    copy.add_peer(info_hashes[2], plain_peer(6, 0));
    assert_eq!(random_peers(&mut copy, &info_hashes[0]), None);
    assert_eq!(
        random_peers(&mut copy, &info_hashes[1]),
        Some(vec![plain_peer(5, 0), plain_peer(4, 0)])
    );
    assert_eq!(
        random_peers(&mut store, &info_hashes[0]),
        Some(vec![plain_peer(2, 0), plain_peer(1, 0)])
    );
    assert_eq!(
        random_peers(&mut store, &info_hashes[1]),
        Some(vec![plain_peer(3, 0)])
    );
}

/// What single-precision arithmetic draws, when peers that are needed are drawn in any case.
fn drawn_with_floats(peers: &[SignedAnnounce], chunk: &[u8]) -> Vec<SignedAnnounce> {
    let scale = 2.0 * (1u32 << 31) as f32;
    let mut results = vec![];
    for (index, peer) in peers.iter().enumerate() {
        let remaining_slots = TARGET_SIZE - results.len();
        let remaining_items = peers.len() - index;
        let current_chance = ((remaining_slots as f32 / remaining_items as f32) * scale) as u32;
        let rand_int = u32::from_le_bytes([
            chunk[index],
            chunk[index + 1],
            chunk[index + 2],
            chunk[index + 3],
        ]);
        if remaining_slots >= remaining_items || rand_int < current_chance {
            results.push(*peer);
            if results.len() == TARGET_SIZE {
                break;
            }
        }
    }
    results
}

#[test]
fn draws_what_single_precision_draws() {
    for size in 10..250usize {
        let peers: Vec<SignedAnnounce> =
            (0..size).map(|n| plain_peer(n as u8, n as u64)).collect();
        for _ in 0..20 {
            let mut chunk = vec![0u8; size * 4];
            getrandom::fill(&mut chunk).unwrap();
            let drawn = draw_peers(&peers, &chunk);
            assert_eq!(drawn, drawn_with_floats(&peers, &chunk));
            assert_eq!(drawn.len(), TARGET_SIZE);
        }
    }
}

#[test]
fn draws_by_the_random_bytes() {
    let peers: Vec<SignedAnnounce> = (0..20).map(|n| plain_peer(n, 0)).collect();

    // The smallest numbers draw the first peers.
    assert_eq!(draw_peers(&peers, &vec![0; 80]), peers[..10].to_vec());
    // Great numbers draw the last peers, which are needed to fill the slots.
    assert_eq!(draw_peers(&peers, &vec![254; 80]), peers[10..].to_vec());
    assert_eq!(draw_peers(&peers, &vec![255; 80]), peers[10..].to_vec());
    let ten = peers[..10].to_vec();
    assert_eq!(draw_peers(&ten, &vec![255; 40]), ten);

    // The most significant byte comes last: at index 0 it is byte 3, and the chance is one half.
    let mut chunk = vec![0; 80];
    chunk[3] = 0x80;
    let mut expected = peers[1..3].to_vec();
    expected.extend_from_slice(&peers[3..11]);
    assert_eq!(draw_peers(&peers, &chunk), expected);
    chunk[3] = 0x7f;
    assert_eq!(draw_peers(&peers, &chunk), peers[..10].to_vec());
}
