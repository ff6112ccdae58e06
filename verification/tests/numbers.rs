use fraud_score::distance::{
    squared_distance_i16, squared_distance_i16_fallback, squared_distance_i16_preloaded, DiffWidth,
};
use fraud_score::float_bits::{clamp01, not_a_number, order_key, positive_wide, LARGEST};
use fraud_score::metrics::{Metrics, Stage};
use fraud_score::ranking::{offer, padding};
use fraud_score::response::{malformed_response, response};

#[test]
fn distance_adds_up_squares() {
    let mut a = [0i16; 16];
    let mut b = [0i16; 16];
    a[0] = 3;
    b[0] = -1;
    a[15] = -5000;
    b[15] = 5000;
    assert_eq!(squared_distance_i16_preloaded(&a, &b), 100_000_016);
    assert_eq!(squared_distance_i16_fallback(&a, &b), 100_000_016);
}

#[test]
fn largest_encoded_distance_is_exact() {
    let a = [5000i16; 16];
    let b = [-5000i16; 16];
    assert_eq!(squared_distance_i16_preloaded(&a, &b), 1_600_000_000);
    assert_eq!(squared_distance_i16_fallback(&a, &b), 1_600_000_000);
}

#[test]
fn encoded_distance_is_symmetric_and_separates() {
    let mut a = [100i16; 16];
    let b = a;
    assert_eq!(squared_distance_i16_preloaded(&a, &b), 0);
    a[7] = 101;
    assert_eq!(squared_distance_i16_preloaded(&a, &b), 1);
    assert_eq!(squared_distance_i16_preloaded(&b, &a), 1);
}

#[test]
fn distances_differ_where_a_lane_overflows() {
    let mut a = [0i16; 16];
    let mut b = [0i16; 16];
    a[0] = 20000;
    b[0] = -20000;
    assert_eq!(squared_distance_i16_fallback(&a, &b), 1_600_000_000);
    assert_eq!(squared_distance_i16_preloaded(&a, &b), 25536 * 25536);
    assert_eq!(squared_distance_i16(DiffWidth::Bits32, &a, &b), 1_600_000_000);
    assert_eq!(squared_distance_i16(DiffWidth::Bits16, &a, &b), 25536 * 25536);
}

#[test]
fn distance_sums_wrap_around() {
    let a = [16384i16; 16];
    let b = [-16384i16; 16];
    // Sixteen times 2 to the 30th.
    assert_eq!(squared_distance_i16_preloaded(&a, &b), 0);
    assert_eq!(squared_distance_i16_fallback(&a, &b), 0);
    let mut c = [0i16; 16];
    c[0] = 32767;
    c[1] = 32767;
    c[2] = 32767;
    let wrapped = (3i64 * 32767 * 32767 - (1i64 << 32)) as i32;
    assert_eq!(squared_distance_i16_preloaded(&c, &[0i16; 16]), wrapped);
    assert!(wrapped < 0);
}

#[test]
fn patterns_are_ordered_as_numbers() {
    let numbers = [
        f32::NEG_INFINITY,
        -1.5,
        -1.0,
        -1e-40,
        0.0,
        1e-45,
        0.2,
        1.0,
        1.0000001,
        f32::MAX,
        f32::INFINITY,
    ];
    for a in numbers {
        for b in numbers {
            assert_eq!(a < b, order_key(a.to_bits()) < order_key(b.to_bits()));
        }
        assert!(!not_a_number(a.to_bits()));
    }
    assert_eq!(order_key((-0.0f32).to_bits()), order_key(0.0f32.to_bits()));
    assert!(not_a_number(f32::NAN.to_bits()));
    assert!(not_a_number((-f32::NAN).to_bits()));
    assert_eq!(LARGEST, f32::MAX.to_bits());
}

#[test]
fn clamping_is_that_of_floats() {
    for x in [-2.0f32, -0.0, 0.0, 0.3, 1.0, 1.5, f32::INFINITY, f32::NEG_INFINITY, f32::NAN] {
        let clamped = clamp01(x.to_bits());
        assert_eq!(clamped, x.clamp(0.0, 1.0).to_bits());
        assert_eq!(clamp01(clamped), clamped);
    }
}

#[test]
fn positive_doubles_are_told() {
    for x in [0.0f64, -0.0, 1.0, -1.0, 1e-320, f64::INFINITY, f64::NEG_INFINITY, f64::NAN] {
        assert_eq!(positive_wide(x.to_bits()), x > 0.0);
    }
}

#[test]
fn list_keeps_the_nearest_in_order() {
    let mut list = padding(3, 100, 'p');
    assert_eq!(list, vec![(100, 'p'), (100, 'p'), (100, 'p')]);
    offer(&mut list, (7, 'a'));
    offer(&mut list, (9, 'b'));
    assert_eq!(list, vec![(7, 'a'), (9, 'b'), (100, 'p')]);
    offer(&mut list, (3, 'c'));
    offer(&mut list, (8, 'd'));
    assert_eq!(list, vec![(3, 'c'), (7, 'a'), (8, 'd')]);
    offer(&mut list, (50, 'e'));
    assert_eq!(list, vec![(3, 'c'), (7, 'a'), (8, 'd')]);
}

#[test]
fn list_keeps_the_order_of_equal_keys() {
    let mut list = padding(3, 100, 'p');
    offer(&mut list, (5, 'a'));
    offer(&mut list, (5, 'b'));
    offer(&mut list, (4, 'c'));
    offer(&mut list, (5, 'd'));
    assert_eq!(list, vec![(4, 'c'), (5, 'a'), (5, 'b')]);
}

#[test]
fn list_refuses_keys_at_the_limit() {
    let mut list = padding(2, 100, 'p');
    offer(&mut list, (100, 'a'));
    offer(&mut list, (101, 'b'));
    assert_eq!(list, vec![(100, 'p'), (100, 'p')]);
    offer(&mut list, (-3, 'c'));
    assert_eq!(list, vec![(-3, 'c'), (100, 'p')]);
}

#[test]
fn keys_of_a_list_do_not_depend_on_order() {
    let keys = [9i64, 2, 7, 2, 5, 8, 1];
    let mut forward = padding(4, 100, 0usize);
    let mut backward = padding(4, 100, 0usize);
    for (i, key) in keys.iter().enumerate() {
        offer(&mut forward, (*key, i));
    }
    for (i, key) in keys.iter().enumerate().rev() {
        offer(&mut backward, (*key, i));
    }
    let of = |list: &Vec<(i64, usize)>| list.iter().map(|e| e.0).collect::<Vec<i64>>();
    assert_eq!(of(&forward), vec![1, 2, 2, 5]);
    assert_eq!(of(&forward), of(&backward));
}

#[test]
fn each_count_has_its_response() {
    let expected = [
        "{\"approved\":true,\"fraud_score\":0.0}",
        "{\"approved\":true,\"fraud_score\":0.2}",
        "{\"approved\":true,\"fraud_score\":0.4}",
        "{\"approved\":false,\"fraud_score\":0.6}",
        "{\"approved\":false,\"fraud_score\":0.8}",
        "{\"approved\":false,\"fraud_score\":1.0}",
    ];
    for (count, text) in expected.iter().enumerate() {
        assert_eq!(response(count), *text);
    }
    assert_eq!(response(6), expected[5]);
    assert_eq!(response(usize::MAX), expected[5]);
}

#[test]
fn malformed_request_is_approved() {
    assert_eq!(malformed_response(), "{\"approved\":true,\"fraud_score\":0.0}");
}

#[test]
fn times_are_added_by_stage() {
    let mut metrics = Metrics::new();
    assert_eq!(metrics.to_average(), None);
    metrics.record(Stage::JsonParse, 5);
    metrics.record(Stage::JsonParse, 6);
    metrics.record(Stage::Vectorize, 7);
    metrics.record(Stage::CentroidSearch, 8);
    metrics.record(Stage::ClusterScan, 9);
    metrics.record(Stage::Total, u64::MAX);
    metrics.record(Stage::Total, 3);
    assert_eq!(metrics.to_average(), None);
    assert!(!metrics.count_request());
    assert_eq!(
        metrics.to_average(),
        Some(Metrics {
            json_parse_ns: 11,
            vectorize_ns: 7,
            centroid_search_ns: 8,
            cluster_scan_ns: 9,
            total_ns: 2,
            count: 1,
        })
    );
}

#[test]
fn report_is_due_every_ten_thousand_requests() {
    let mut metrics = Metrics::new();
    let mut due = Vec::new();
    for i in 1..=20001u64 {
        if metrics.count_request() {
            due.push(i);
        }
    }
    assert_eq!(due, vec![10000, 20000]);
}
