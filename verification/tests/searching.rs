use std::cmp::Ordering;

use fraud_score::distance::DiffWidth::{Bits16, Bits32};
use fraud_score::float_bits::{MINUS_ONE, ONE, ZERO};
use fraud_score::index::{ClusterInfo, IndexError, IndexFile};
use fraud_score::mcc::RiskTable;
use fraud_score::probe::{compare_distances, nearest_centroids, K_CENTROIDS};
use fraud_score::request::{
    merchant_is_known, query_vector, read_facts, Customer, Facts, LastTransaction, Merchant,
    Ratios, RequestPayload, Terminal, Transaction,
};
use fraud_score::search::{found_vectors, fraud_count, IVFIndex};

/// The bytes of an index file.
fn index_bytes(
    centroids: &[[f32; 16]],
    clusters: &[(u32, u32)],
    vectors: &[[f32; 16]],
    labels: &[u8],
) -> Vec<u8> {
    let mut bytes = b"IVFF".to_vec();
    bytes.extend((centroids.len() as u32).to_le_bytes());
    bytes.extend((vectors.len() as u32).to_le_bytes());
    bytes.extend([9, 9, 9, 9]);
    for row in centroids {
        for lane in row {
            bytes.extend(lane.to_le_bytes());
        }
    }
    for (offset, count) in clusters {
        bytes.extend(offset.to_le_bytes());
        bytes.extend(count.to_le_bytes());
    }
    for row in vectors {
        for lane in row {
            bytes.extend(lane.to_le_bytes());
        }
    }
    bytes.extend(labels);
    bytes
}

fn row(first: f32) -> [f32; 16] {
    let mut row = [0.0f32; 16];
    row[0] = first;
    row
}

fn quantized(first: i16) -> [i16; 16] {
    let mut row = [0i16; 16];
    row[0] = first;
    row
}

/// An index with one lane in use: `clusters` slices the vectors, whose first lanes
/// are given in quantized form.
fn with_index<R>(
    clusters: &[(u32, u32)],
    lanes: &[i16],
    labels: &[u8],
    run: impl FnOnce(&IVFIndex) -> R,
) -> R {
    let centroids = vec![row(0.0); clusters.len()];
    let vectors: Vec<[f32; 16]> = lanes.iter().map(|x| row(*x as f32 / 5000.0)).collect();
    let bytes = index_bytes(&centroids, clusters, &vectors, labels);
    let file = match IndexFile::parse(&bytes) {
        Ok(file) => file,
        Err(error) => panic!("{:?}", error),
    };
    let index = IVFIndex::new(file, lanes.iter().map(|x| quantized(*x)).collect());
    run(&index)
}

#[test]
fn index_file_is_read() {
    let mut second = row(-0.25);
    second[15] = 3.5;
    let bytes = index_bytes(
        &[row(1.0), second],
        &[(0, 2), (2, 1)],
        &[row(0.5), row(-1.0), second],
        &[0, 1, 7],
    );
    let file = match IndexFile::parse(&bytes) {
        Ok(file) => file,
        Err(error) => panic!("{:?}", error),
    };
    assert_eq!(file.k_clusters(), 2);
    assert_eq!(file.n_vectors(), 3);
    assert_eq!(file.centroid(0)[0], 1.0f32.to_bits());
    assert_eq!(file.centroid(1)[15], 3.5f32.to_bits());
    assert_eq!(file.cluster(0), ClusterInfo { offset: 0, count: 2 });
    assert_eq!(file.cluster(1), ClusterInfo { offset: 2, count: 1 });
    assert_eq!(file.vector(1)[0], (-1.0f32).to_bits());
    assert_eq!(file.vector(2)[0], (-0.25f32).to_bits());
    assert_eq!(file.vector(2)[15], 3.5f32.to_bits());
    assert_eq!([file.label(0), file.label(1), file.label(2)], [0, 1, 7]);
}

#[test]
fn broken_index_files_are_refused() {
    let bytes = index_bytes(&[row(1.0)], &[(0, 1)], &[row(0.5)], &[1]);
    let error_of = |bytes: &[u8]| match IndexFile::parse(bytes) {
        Ok(_) => None,
        Err(error) => Some(error),
    };
    assert_eq!(error_of(&bytes), None);
    assert_eq!(error_of(b""), Some(IndexError::Truncated));
    assert_eq!(error_of(b"IVF"), Some(IndexError::Truncated));
    assert_eq!(error_of(b"IVFX"), Some(IndexError::BadMagic));
    assert_eq!(error_of(b"IVFF"), Some(IndexError::Truncated));
    assert_eq!(error_of(&bytes[..11]), Some(IndexError::Truncated));
    assert_eq!(error_of(&bytes[..12]), Some(IndexError::WrongSize));
    assert_eq!(error_of(&bytes[..bytes.len() - 1]), Some(IndexError::WrongSize));
    let mut longer = bytes.clone();
    longer.push(0);
    assert_eq!(error_of(&longer), Some(IndexError::WrongSize));
    let mut other = bytes.clone();
    other[0] = b'J';
    assert_eq!(error_of(&other), Some(IndexError::BadMagic));
    assert_eq!(error_of(&index_bytes(&[], &[], &[], &[])), None);
}

#[test]
fn sections_fill_the_file() {
    let bytes = index_bytes(&[row(1.0); 3], &[(0, 1); 3], &[row(0.5); 5], &[1; 5]);
    assert_eq!(bytes.len(), 16 + 72 * 3 + 65 * 5);
    assert!(IndexFile::parse(&bytes).is_ok());
}

#[test]
fn checksum_adds_up_all_lanes() {
    let sum = with_index(&[(0, 3)], &[5000, -1, 20], &[0, 0, 0], |index| index.checksum());
    assert_eq!(sum, 5019);
    let none = with_index(&[], &[], &[], |index| index.checksum());
    assert_eq!(none, 0);
}

#[test]
fn nearer_centroid_compares_less() {
    let dists = vec![1.0f32.to_bits(), 2.0f32.to_bits(), 1.0f32.to_bits()];
    assert_eq!(compare_distances(&dists, 0, 1), Ordering::Less);
    assert_eq!(compare_distances(&dists, 0, 2), Ordering::Equal);
    assert_eq!(compare_distances(&dists, 1, 2), Ordering::Greater);
}

#[test]
fn nearest_centroids_are_chosen() {
    // The distance of centroid i is i * 37 modulo 8192, a permutation.
    let dists: Vec<u32> =
        (0..K_CENTROIDS).map(|i| ((i * 37 % K_CENTROIDS) as f32).to_bits()).collect();
    for nprobe in [1, 2, 48, 8191] {
        let mut probed = nearest_centroids(&dists, nprobe);
        probed.sort();
        let mut expected: Vec<u16> =
            (0..K_CENTROIDS as u16).filter(|i| (*i as usize * 37 % K_CENTROIDS) < nprobe).collect();
        expected.sort();
        assert_eq!(probed, expected);
    }
}

#[test]
fn full_probe_takes_all_centroids() {
    let dists = vec![0.25f32.to_bits(); K_CENTROIDS];
    let mut probed = nearest_centroids(&dists, K_CENTROIDS);
    probed.sort();
    assert_eq!(probed, (0..K_CENTROIDS as u16).collect::<Vec<u16>>());
}

#[test]
fn candidates_are_the_nearest_of_the_probed_clusters() {
    let clusters = [(0, 3), (3, 2), (5, 1)];
    let lanes = [10, 40, 20, 30, 5, 0];
    with_index(&clusters, &lanes, &[0; 6], |index| {
        let top = index.candidates(Bits16, &quantized(0), &vec![0, 1]);
        let mut expected = vec![(25, 4), (100, 0), (400, 2), (900, 3), (1600, 1)];
        expected.resize(16, (i32::MAX as i64, 0));
        assert_eq!(top, expected);
        assert_eq!(found_vectors(&top), vec![4, 0, 2, 3, 1]);
        let none = index.candidates(Bits16, &quantized(0), &Vec::new());
        assert_eq!(none, vec![(i32::MAX as i64, 0); 16]);
        assert_eq!(found_vectors(&none), Vec::<usize>::new());
    });
}

#[test]
fn only_sixteen_candidates_are_kept() {
    let lanes: Vec<i16> = (0..40).map(|i| (i * 7) % 40).collect();
    with_index(&[(0, 40)], &lanes, &[0; 40], |index| {
        let found = found_vectors(&index.candidates(Bits16, &quantized(0), &vec![0]));
        let expected: Vec<usize> = (0..16)
            .map(|x| lanes.iter().position(|lane| *lane == x).unwrap())
            .collect();
        assert_eq!(found, expected);
    });
}

#[test]
fn probe_order_changes_no_distance() {
    let clusters = [(0, 10), (10, 10), (20, 10)];
    let lanes: Vec<i16> = (0..30).map(|i| (i * 11) % 13).collect();
    with_index(&clusters, &lanes, &[0; 30], |index| {
        let keys = |probed: Vec<u16>| {
            index
                .candidates(Bits16, &quantized(6), &probed)
                .iter()
                .map(|e| e.0)
                .collect::<Vec<i64>>()
        };
        assert_eq!(keys(vec![0, 1, 2]), keys(vec![2, 0, 1]));
        assert_eq!(keys(vec![0, 1, 2]), keys(vec![1, 2, 0]));
    });
}

#[test]
fn probes_out_of_bounds_are_told() {
    let clusters = [(0, 2), (1, 2), (u32::MAX, u32::MAX)];
    with_index(&clusters, &[1, 2], &[0, 0], |index| {
        assert!(index.can_probe(&vec![0]));
        assert!(!index.can_probe(&vec![0, 1]));
        assert_eq!(index.scan(Bits16, &quantized(0), &vec![0, 1]), None);
        assert_eq!(index.scan(Bits16, &quantized(2), &vec![0]), Some(vec![1, 0]));
        assert!(!index.can_probe(&vec![2]));
        assert!(!index.can_probe(&vec![3]));
        assert!(index.can_probe(&Vec::new()));
    });
}

#[test]
fn empty_cluster_may_point_anywhere() {
    with_index(&[(u32::MAX, 0), (0, 2)], &[1, 2], &[0, 0], |index| {
        assert!(index.can_probe(&vec![0, 1]));
        assert_eq!(index.scan(Bits16, &quantized(0), &vec![0, 1, 0]), Some(vec![0, 1]));
    });
}

#[test]
fn width_decides_where_a_lane_overflows() {
    // 40000 apart: in 16 bits the difference is -25536.
    with_index(&[(0, 2)], &[-20000, -10000], &[0, 0], |index| {
        let narrow = index.candidates(Bits16, &quantized(20000), &vec![0]);
        let wide = index.candidates(Bits32, &quantized(20000), &vec![0]);
        assert_eq!(narrow[..2], [(25536 * 25536, 0), (30000 * 30000, 1)]);
        assert_eq!(wide[..2], [(900_000_000, 1), (1_600_000_000, 0)]);
        assert_eq!(index.scan(Bits32, &quantized(20000), &vec![0]), Some(vec![1, 0]));
    });
}

#[test]
fn width_makes_no_difference_to_encoded_vectors() {
    let lanes: Vec<i16> = (0..20).map(|i| 5000 - 500 * i).collect();
    with_index(&[(0, 20)], &lanes, &[0; 20], |index| {
        let query = quantized(-4900);
        assert_eq!(
            index.candidates(Bits16, &query, &vec![0]),
            index.candidates(Bits32, &query, &vec![0])
        );
    });
}

#[test]
fn search_goes_through_the_nearest_clusters() {
    // Cluster k holds vector k; only the first twenty clusters hold one.
    let mut clusters = vec![(20u32, 0u32); K_CENTROIDS];
    for k in 0..20 {
        clusters[k] = (k as u32, 1);
    }
    let lanes: Vec<i16> = (0..20).map(|i| 100 * i).collect();
    let dists: Vec<u32> = (0..K_CENTROIDS).map(|k| (k as f32).to_bits()).collect();
    with_index(&clusters, &lanes, &[0; 20], |index| {
        let found = index.search(&dists, 3, Bits16, &quantized(150));
        assert!(found == Some(vec![1, 2, 0]) || found == Some(vec![2, 1, 0]));
        let all = index.search(&dists, K_CENTROIDS, Bits16, &quantized(0));
        assert_eq!(all, Some((0..16).collect::<Vec<usize>>()));
    });
}

#[test]
fn vectors_out_of_reach_change_nothing() {
    // Cluster k holds the vectors 2k and 2k + 1; the others are empty.
    let mut clusters = vec![(0u32, 0u32); K_CENTROIDS];
    for k in 0..4 {
        clusters[k] = (2 * k as u32, 2);
    }
    let dists: Vec<u32> = (0..K_CENTROIDS).map(|k| (k as f32).to_bits()).collect();
    let probed = nearest_centroids(&dists, 2);
    assert!(!probed.contains(&2) && !probed.contains(&3));
    let run = |lanes: &[i16], labels: &[u8]| {
        with_index(&clusters, lanes, labels, |index| {
            let found = index.search(&dists, 2, Bits16, &quantized(10)).unwrap();
            let exact: Vec<u32> = found.iter().map(|i| (*i as f32).to_bits()).collect();
            (found.clone(), index.answer(&found, &exact))
        })
    };
    let one = run(&[1, 20, 3, 40, 5, 6, 7, 8], &[1, 0, 1, 1, 0, 0, 0, 0]);
    let other = run(&[1, 20, 3, 40, 10, 10, 10, 10], &[1, 0, 1, 1, 1, 1, 1, 1]);
    assert_eq!(one, other);
    assert_eq!(one, (vec![2, 0, 1, 3], "{\"approved\":false,\"fraud_score\":0.6}"));
    // Within reach a label counts.
    let near = run(&[1, 20, 3, 40, 5, 6, 7, 8], &[0, 0, 1, 1, 0, 0, 0, 0]);
    assert_eq!(near.1, "{\"approved\":true,\"fraud_score\":0.4}");
}

#[test]
fn search_of_a_broken_cluster_has_no_outcome() {
    let mut clusters = vec![(0u32, 1u32); K_CENTROIDS];
    clusters[7] = (1, 1);
    let mut dists = vec![5.0f32.to_bits(); K_CENTROIDS];
    dists[7] = 1.0f32.to_bits();
    with_index(&clusters, &[3], &[1], |index| {
        assert_eq!(index.search(&dists, 1, Bits16, &quantized(0)), None);
        dists[7] = 9.0f32.to_bits();
        assert_eq!(index.search(&dists, 1, Bits16, &quantized(0)), Some(vec![0]));
    });
}

#[test]
fn neighbours_are_ranked_by_exact_distance() {
    let labels = [1, 0, 1, 1, 0, 1, 1];
    with_index(&[(0, 7)], &[0; 7], &labels, |index| {
        let found: Vec<usize> = (0..7).collect();
        let exact: Vec<u32> = [0.7f32, 0.1, f32::NAN, 0.3, 0.2, f32::INFINITY, 0.05]
            .iter()
            .map(|x| x.to_bits())
            .collect();
        let top = index.neighbours(&found, &exact);
        let labels: Vec<u8> = top.iter().map(|e| e.1).collect();
        assert_eq!(labels, vec![1, 0, 0, 1, 1]);
        assert_eq!(top[0].0, 0.05f32.to_bits() as i64);
        assert_eq!(fraud_count(&top), 3);
        assert_eq!(index.answer(&found, &exact), "{\"approved\":false,\"fraud_score\":0.6}");
    });
}

#[test]
fn missing_neighbours_count_as_legitimate() {
    with_index(&[(0, 2)], &[0, 0], &[1, 1], |index| {
        let one = vec![0.0f32.to_bits()];
        assert_eq!(index.answer(&vec![1], &one), "{\"approved\":true,\"fraud_score\":0.2}");
        assert_eq!(
            index.answer(&Vec::new(), &Vec::new()),
            "{\"approved\":true,\"fraud_score\":0.0}"
        );
        let refused = vec![f32::MAX.to_bits(), f32::NAN.to_bits()];
        assert_eq!(
            index.answer(&vec![0, 1], &refused),
            "{\"approved\":true,\"fraud_score\":0.0}"
        );
    });
}

#[test]
fn only_label_one_is_a_fraud() {
    with_index(&[(0, 5)], &[0; 5], &[2, 255, 0, 1, 3], |index| {
        let exact = vec![0u32; 5];
        assert_eq!(
            index.answer(&vec![0, 1, 2, 3, 4], &exact),
            "{\"approved\":true,\"fraud_score\":0.2}"
        );
    });
}

fn payload(last_transaction: Option<LastTransaction<'static>>) -> RequestPayload<'static> {
    RequestPayload {
        id: "tx-1",
        transaction: Transaction {
            amount: 384.88f64.to_bits(),
            installments: 3.0f64.to_bits(),
            requested_at: "2026-03-11T20:23:35Z",
        },
        customer: Customer {
            avg_amount: 769.76f64.to_bits(),
            tx_count_24h: 3.0f64.to_bits(),
            known_merchants: vec!["MERC-009", "MERC-001"],
        },
        merchant: Merchant { id: "MERC-001", mcc: "5912", avg_amount: 298.95f64.to_bits() },
        terminal: Terminal {
            is_online: false,
            card_present: true,
            km_from_home: 13.7f64.to_bits(),
        },
        last_transaction,
    }
}

fn ratios(x: f32) -> Ratios {
    Ratios {
        amount: x.to_bits(),
        installments: 0.25f32.to_bits(),
        amount_vs_avg: 0.05f32.to_bits(),
        hour: (20.0f32 / 23.0).to_bits(),
        weekday: (2.0f32 / 6.0).to_bits(),
        minutes: (-0.5f32).to_bits(),
        km_from_last: 0.0189f32.to_bits(),
        km_from_home: 0.0137f32.to_bits(),
        tx_count: 0.15f32.to_bits(),
        merchant_avg: 7.0f32.to_bits(),
    }
}

#[test]
fn facts_of_a_request_are_read() {
    let (risks, _) = RiskTable::load(&vec![("5912".to_string(), 0.2f32.to_bits())]);
    let last = LastTransaction {
        timestamp: "2026-03-11T14:58:35Z",
        km_from_current: 18.8626479774f64.to_bits(),
    };
    assert_eq!(
        read_facts(&payload(Some(last)), &risks),
        Facts {
            hour: 20,
            weekday: 2,
            elapsed_seconds: Some(19500),
            known_merchant: true,
            risk: 0.2f32.to_bits(),
        }
    );
    assert_eq!(read_facts(&payload(None), &risks).elapsed_seconds, None);
}

#[test]
fn facts_of_an_unknown_merchant() {
    let (risks, _) = RiskTable::load(&Vec::new());
    let mut request = payload(Some(LastTransaction { timestamp: "bad", km_from_current: 0 }));
    request.merchant.id = "MERC-00";
    request.merchant.mcc = "99999";
    let facts = read_facts(&request, &risks);
    assert!(!merchant_is_known(&request));
    assert!(!facts.known_merchant);
    assert_eq!(facts.risk, 0.5f32.to_bits());
    // A timestamp that is too short stands for the epoch.
    assert_eq!(facts.elapsed_seconds, Some(1773260615));
}

#[test]
fn query_vector_holds_the_features() {
    let facts = Facts {
        hour: 20,
        weekday: 2,
        elapsed_seconds: None,
        known_merchant: true,
        risk: 0.2f32.to_bits(),
    };
    let q = query_vector(&payload(None), facts, ratios(1.5));
    let expected: Vec<u32> = [
        1.0f32,
        0.25,
        0.05,
        20.0 / 23.0,
        2.0 / 6.0,
        -1.0,
        -1.0,
        0.0137,
        0.15,
        0.0,
        1.0,
        0.0,
        0.2,
        1.0,
        0.0,
        0.0,
    ]
    .iter()
    .map(|x| x.to_bits())
    .collect();
    assert_eq!(q.to_vec(), expected);
}

#[test]
fn query_vector_of_a_customer_without_average() {
    let mut request = payload(Some(LastTransaction { timestamp: "", km_from_current: 0 }));
    request.customer.avg_amount = 0.0f64.to_bits();
    request.terminal.is_online = true;
    request.terminal.card_present = false;
    let facts = Facts {
        hour: 0,
        weekday: 0,
        elapsed_seconds: Some(5),
        known_merchant: false,
        risk: ONE,
    };
    let q = query_vector(&request, facts, ratios(-3.0));
    assert_eq!(q[0], ZERO);
    assert_eq!(q[2], ONE);
    assert_eq!(q[5], ZERO);
    assert_eq!(q[6], 0.0189f32.to_bits());
    assert_eq!([q[9], q[10], q[11]], [ONE, ZERO, ONE]);
    for lane in q {
        assert!(lane != MINUS_ONE);
        assert!((-1.0..=1.0).contains(&f32::from_bits(lane)));
    }
}

#[test]
fn features_saturate() {
    let (risks, _) = RiskTable::load(&Vec::new());
    let mut above_maximum = payload(None);
    above_maximum.terminal.km_from_home = 5000.0f64.to_bits();
    above_maximum.merchant.avg_amount = 99999.0f64.to_bits();
    let mut at_maximum = payload(None);
    at_maximum.terminal.km_from_home = 1000.0f64.to_bits();
    at_maximum.merchant.avg_amount = 10000.0f64.to_bits();
    let facts = read_facts(&above_maximum, &risks);
    assert_eq!(facts, read_facts(&at_maximum, &risks));
    let mut a = ratios(0.5);
    let mut b = ratios(0.5);
    a.km_from_home = 5.0f32.to_bits();
    b.km_from_home = 1.0f32.to_bits();
    a.tx_count = (-3.0f32).to_bits();
    b.tx_count = 0.0f32.to_bits();
    a.merchant_avg = f32::INFINITY.to_bits();
    b.merchant_avg = 1.5f32.to_bits();
    assert_eq!(query_vector(&above_maximum, facts, a), query_vector(&at_maximum, facts, b));
    b.tx_count = (-0.0f32).to_bits();
    let q = query_vector(&above_maximum, facts, a);
    let r = query_vector(&at_maximum, facts, b);
    assert!(q != r);
    for i in 0..16 {
        assert_eq!(f32::from_bits(q[i]), f32::from_bits(r[i]));
    }
}
