use audio_sidecar::waveform::{reduce, sample_magnitude, CHUNK_SIZE};

fn ramp(n: usize, start: i32) -> Vec<i32> {
    (0..n).map(|i| start + i as i32).collect()
}

fn reduce_in_batches(batches: &[Vec<i32>], chunk: usize) -> (Vec<u32>, Vec<i32>) {
    let mut peaks = Vec::new();
    let mut carry = Vec::new();
    for b in batches {
        let (mut p, c) = reduce(b, &carry, chunk);
        peaks.append(&mut p);
        carry = c;
    }
    (peaks, carry)
}

#[test]
fn three_batches_of_a_ten_millisecond_chunk() {
    let b1 = ramp(500, -250);
    let b2 = ramp(100, 1000);
    let b3 = ramp(41, -5000);

    let (p1, c1) = reduce(&b1, &Vec::new(), CHUNK_SIZE);
    assert_eq!(p1.len(), 1);
    assert_eq!(c1.len(), 59);
    assert_eq!(c1[..], b1[441..]);

    let (p2, c2) = reduce(&b2, &c1, CHUNK_SIZE);
    assert!(p2.is_empty());
    assert_eq!(c2.len(), 159);

    let (p3, c3) = reduce(&b3, &c2, CHUNK_SIZE);
    assert!(p3.is_empty());
    assert_eq!(c3.len(), (500 + 100 + 41) % 441);
    assert_eq!(c3.len(), 200);

    let mut all = b1.clone();
    all.extend_from_slice(&b2);
    all.extend_from_slice(&b3);
    assert_eq!(c3[..], all[441..]);
}

#[test]
fn peaks_are_the_largest_magnitude_of_each_chunk() {
    let (peaks, carry) = reduce(&vec![1, -5, 2, 3, 0, -1, 7], &Vec::new(), 3);
    assert_eq!(peaks, vec![5, 3]);
    assert_eq!(carry, vec![7]);
}

#[test]
fn carry_comes_before_new_samples() {
    let (peaks, carry) = reduce(&vec![-9, 4, 2], &vec![1, 2], 3);
    assert_eq!(peaks, vec![9]);
    assert_eq!(carry, vec![4, 2]);
}

#[test]
fn most_negative_sample_does_not_overflow() {
    assert_eq!(sample_magnitude(i32::MIN), 2_147_483_648);
    assert_eq!(sample_magnitude(i32::MAX), 2_147_483_647);
    assert_eq!(sample_magnitude(-3), 3);
    let (peaks, carry) = reduce(&vec![i32::MIN, 0], &Vec::new(), 2);
    assert_eq!(peaks, vec![2_147_483_648]);
    assert!(carry.is_empty());
}

#[test]
fn empty_batch_keeps_the_carry() {
    let (peaks, carry) = reduce(&Vec::new(), &vec![3, -4], 3);
    assert!(peaks.is_empty());
    assert_eq!(carry, vec![3, -4]);
    let (peaks, carry) = reduce(&Vec::new(), &Vec::new(), 3);
    assert!(peaks.is_empty());
    assert!(carry.is_empty());
}

#[test]
fn batching_does_not_change_the_result() {
    let all: Vec<i32> = (0..2000).map(|i| ((i * 7919) % 20011) - 10005).collect();
    let whole = reduce(&all, &Vec::new(), CHUNK_SIZE);
    let cuts = [
        vec![all.clone()],
        vec![all[..1].to_vec(), all[1..].to_vec()],
        vec![all[..441].to_vec(), all[441..882].to_vec(), all[882..].to_vec()],
        vec![all[..500].to_vec(), Vec::new(), all[500..600].to_vec(), all[600..].to_vec()],
        all.chunks(37).map(|c| c.to_vec()).collect(),
    ];
    for batches in cuts.iter() {
        assert_eq!(reduce_in_batches(batches, CHUNK_SIZE), whole);
    }
}

#[test]
fn carry_is_shorter_than_a_chunk_and_no_sample_is_lost() {
    let sizes = [0usize, 1, 440, 441, 442, 1000, 5000];
    let mut total = 0usize;
    let mut peaks_total = 0usize;
    let mut carry = Vec::new();
    for (k, n) in sizes.iter().enumerate() {
        let batch = ramp(*n, k as i32);
        let (peaks, c) = reduce(&batch, &carry, CHUNK_SIZE);
        assert!(c.len() < CHUNK_SIZE);
        total += n;
        peaks_total += peaks.len();
        carry = c;
        assert_eq!(peaks_total * CHUNK_SIZE + carry.len(), total);
    }
}
