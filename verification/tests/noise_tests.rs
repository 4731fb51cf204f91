use soft_render::noise::hash_cell;

fn by_hand(xi: i64, yi: i64, zi: i64) -> i64 {
    let mut n = xi.wrapping_mul(73856093) ^ yi.wrapping_mul(19349663) ^ zi.wrapping_mul(83492791);
    n = (n ^ (n << 13)) & 0x7fffffff;
    n % 1000
}

#[test]
fn noise_exact_values() {
    assert_eq!(hash_cell(0, 0, 0), 0);
    assert_eq!(hash_cell(1, 0, 0), 69);
    assert_eq!(hash_cell(0, 1, 0), 671);
    assert_eq!(hash_cell(0, 0, 1), 903);
    assert_eq!(hash_cell(1, 2, 3), 902);
    assert_eq!(hash_cell(-5, 7, -11), 613);
    assert_eq!(hash_cell(123456789, -987654321, 5), 883);
    assert_eq!(hash_cell(-1, -1, -1), 843);
    assert_eq!(hash_cell(i64::MAX, i64::MIN, 1 << 62), 27);
}

#[test]
fn noise_is_in_thousandths() {
    let samples = [i64::MIN, -1_000_003, -17, -1, 0, 1, 2, 99, 65_537, i64::MAX];
    for &x in &samples {
        for &y in &samples {
            for &z in &samples {
                let n = hash_cell(x, y, z);
                assert!((0..1000).contains(&n));
                assert_eq!(n, by_hand(x, y, z));
                assert_eq!(n, hash_cell(x, y, z));
            }
        }
    }
}
