use vortexa::binary32::Binary32;
use vortexa::binary64::{percent_of, share_of, Binary64};
use vortexa::datasets::DownloadProgress;
use vortexa::sampling::{is_greedy, pick_index, top_k_mask};

fn b64(x: f64) -> Binary64 {
    Binary64 { bits: x.to_bits() }
}

fn b32(x: f32) -> Binary32 {
    Binary32 { bits: x.to_bits() }
}

#[test]
fn percent_is_the_float_formula() {
    let mut x: u64 = 88172645463325252;
    for i in 0..4000u64 {
        x ^= x << 13;
        x ^= x >> 7;
        x ^= x << 17;
        let total = if i % 3 == 0 { x >> (i % 60) } else { 1 + x % 1000 };
        let done = if i % 5 == 0 { x.rotate_left(7) >> (i % 50) } else { x % (total.max(1)) };
        let expected = if total == 0 {
            0
        } else {
            ((done as f64 / total as f64) * 100.0).min(100.0) as u16
        };
        assert_eq!(percent_of(done, total), expected, "{done} / {total}");
    }
    assert_eq!(percent_of(29, 100), ((29f64 / 100f64) * 100.0) as u16);
    assert_eq!(percent_of(u64::MAX, 1), 100);
}

#[test]
fn percent_never_falls() {
    for total in [1u64, 3, 7, 100, 1000, u64::MAX / 3, u64::MAX] {
        let mut last = 0;
        for i in 0..400u64 {
            let done = if total < 400 { i } else { (total / 400) * i };
            let now = percent_of(done, total);
            assert!(last <= now && now <= 100, "{done} / {total}");
            last = now;
        }
        assert_eq!(percent_of(total, total), 100);
        assert_eq!(percent_of(u64::MAX, total), 100);
    }
}

#[test]
fn download_percent() {
    let mut p = DownloadProgress::default();
    assert_eq!(p.percent(), 0);
    p.total = 200;
    p.done = 50;
    assert_eq!(p.percent(), 25);
    p.done = 400;
    assert_eq!(p.percent(), 100);
}

#[test]
fn share_is_the_float_formula() {
    let fractions = [
        0.05, 0.1, 0.5, 0.9999999, 1.0, 1.5, 0.0, -0.0, -3.0, 1e-300, 1e300, 5e-324, f64::INFINITY,
        f64::NEG_INFINITY, f64::NAN,
    ];
    let mut x: u64 = 12345;
    for i in 0..2000usize {
        x = x.wrapping_mul(6364136223846793005).wrapping_add(1442695040888963407);
        let n = (x >> (i % 63)) as usize;
        for f in fractions {
            assert_eq!(share_of(n, b64(f)), (n as f64 * f) as usize, "{n} * {f}");
        }
        let f = f64::from_bits(x);
        assert_eq!(share_of(n, b64(f)), (n as f64 * f) as usize, "{n} * {f}");
    }
}

#[test]
fn comparisons_are_those_of_floats() {
    let xs = [0.0, -0.0, 1.0, -1.0, 0.5, 1e-310, f64::INFINITY, f64::NEG_INFINITY, f64::NAN, 0.995];
    for a in xs {
        assert_eq!(b64(a).is_positive(), a > 0.0, "{a}");
        assert_eq!(b64(a).is_below_one(), a < 1.0, "{a}");
        assert_eq!(is_greedy(b64(a)), a <= 0.0, "{a}");
        for b in xs {
            assert_eq!(b64(a).is_at_most(b64(b)), a <= b, "{a} {b}");
            let (c, d) = (a as f32, b as f32);
            assert_eq!(b32(c).is_at_most(b32(d)), c <= d, "{c} {d}");
            assert_eq!(b32(c).is_less(b32(d)), c < d, "{c} {d}");
        }
    }
}

fn mask_by_threshold(logits: &[f32], top_k: usize) -> Vec<bool> {
    if top_k > 0 && top_k < logits.len() {
        let mut sorted = logits.to_vec();
        sorted.sort_by(|a, b| b.partial_cmp(a).unwrap());
        let threshold = sorted[top_k - 1];
        logits.iter().map(|l| !(*l < threshold)).collect()
    } else {
        vec![true; logits.len()]
    }
}

#[test]
fn top_k_keeps_what_reaches_the_threshold() {
    let logits = [0.5f32, -1.0, 3.0, 3.0, 0.0, -0.0, 2.5, f32::NEG_INFINITY];
    let bits: Vec<Binary32> = logits.iter().map(|l| b32(*l)).collect();
    for k in 0..10 {
        let keep = top_k_mask(&bits, k);
        assert_eq!(keep, mask_by_threshold(&logits, k), "k = {k}");
        assert!(keep.iter().filter(|x| **x).count() >= k.min(logits.len()));
    }
    assert_eq!(
        top_k_mask(&bits, 1),
        vec![false, false, true, true, false, false, false, false]
    );
}

#[test]
fn drawn_number_picks_the_first_sum_that_reaches_it() {
    let sums: Vec<Binary32> = [0.25f32, 0.25, 0.75, 1.0].iter().map(|s| b32(*s)).collect();
    assert_eq!(pick_index(&sums, b32(0.0)), 0);
    assert_eq!(pick_index(&sums, b32(0.25)), 0);
    assert_eq!(pick_index(&sums, b32(0.3)), 2);
    assert_eq!(pick_index(&sums, b32(0.9)), 3);
    assert_eq!(pick_index(&sums, b32(2.0)), 3);
}

#[test]
fn tokens_without_a_share_are_never_picked() {
    let of = |list: &[f32]| list.iter().map(|s| b32(*s)).collect::<Vec<Binary32>>();
    assert_eq!(pick_index(&of(&[0.0, 1.0]), b32(0.0)), 1);
    assert_eq!(pick_index(&of(&[0.0, 0.0, 0.5, 0.5, 1.0]), b32(0.0)), 2);
    assert_eq!(pick_index(&of(&[0.5, 1.0, 1.0]), b32(2.0)), 1);
    assert_eq!(pick_index(&of(&[0.0, 0.0]), b32(0.0)), 1);
    let logits = of(&[0.0, 1.0]);
    let keep = top_k_mask(&logits, 1);
    assert_eq!(keep, vec![false, true]);
    assert!(keep[pick_index(&of(&[0.0, 1.0]), b32(0.0)) as usize]);
}
