use slam_vision::matches::{hanming_distance, DMatch};

#[test]
fn it_works() {
    assert_eq!(2 + 2, 4);
}

#[test]
fn test_hanming_distance() {
    let v3 = 5;
    let v4 = 1;

    assert_eq!(1, hanming_distance(v3 ^ v4));

    let v1: [u32; 8] = [
        3252522806, 3528110876, 3399917974, 1948276593, 1480299088, 1046709034, 3517304299,
        3926182068,
    ];
    let v2: [u32; 8] = [
        4076450672, 2547484990, 2863932866, 1659686327, 1500312139, 837970906, 2016773369,
        734431349,
    ];
    let v3: [u32; 8] = [
        4034657136, 2526251326, 716707266, 551862707, 1361901643, 836905434, 2016904441,
        2043971685,
    ];
    let mut d1 = 0;
    let mut d2 = 0;
    for i in 0..8 {
        d1 = d1 + hanming_distance(v1[i] ^ v3[i]);
        d2 = d2 + hanming_distance(v2[i] ^ v3[i]);
    }

    assert!(d1 > d2)
}

#[test]
fn hamming_weight_of_known_values() {
    assert_eq!(hanming_distance(0), 0);
    assert_eq!(hanming_distance(1), 1);
    assert_eq!(hanming_distance(0b1011_0110), 5);
    assert_eq!(hanming_distance(u32::MAX), 32);
    assert_eq!(hanming_distance(0x8000_0000), 1);
}

#[test]
fn hamming_distance_is_a_metric_on_examples() {
    let a: u32 = 0xdead_beef;
    let b: u32 = 0x1234_5678;
    let c: u32 = 0x0f0f_0f0f;
    assert_eq!(hanming_distance(a ^ a), 0);
    assert_eq!(hanming_distance(a ^ b), hanming_distance(b ^ a));
    assert!(hanming_distance(a ^ c) <= hanming_distance(a ^ b) + hanming_distance(b ^ c));
    assert!(hanming_distance(a ^ b) > 0);
}

#[test]
fn dmatch_holds_its_fields() {
    let m = DMatch { i1: 3, i2: 7, distance: 12u32 };
    assert_eq!(m.i1, 3);
    assert_eq!(m.i2, 7);
    assert_eq!(m.distance, 12);
}
