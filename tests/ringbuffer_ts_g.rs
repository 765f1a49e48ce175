use spsc_ring::ringbuffer_ts_g::RingBuffer;

#[derive(Copy, Clone, PartialEq, Debug)]
struct TestStruct {
    a: [u8; 36],
    b: i32,
}

impl Default for TestStruct {
    fn default() -> Self {
        Self { a: [0; 36], b: 0 }
    }
}

#[test]
fn ringbuffer_ts_g_basics() {
    let mut ringbuffer = RingBuffer::<TestStruct, 10>::new();

    // simple read/write
    let data: Vec<TestStruct> = vec![TestStruct::default(); 8];
    let mut result = Vec::new();

    assert_eq!(ringbuffer.n_write(&data), 8);
    assert_eq!(ringbuffer.n_read(&mut result), 8);
    assert_eq!(result, vec![TestStruct::default(); 8]);

    assert_eq!(ringbuffer.n_write(&data), 8);
    assert_eq!(ringbuffer.n_write(&data), 2);
    assert_eq!(ringbuffer.n_read(&mut result), 10);
    assert_eq!(ringbuffer.n_read(&mut result), 0);
}

#[test]
fn ts_g_wraparound_keeps_order() {
    let mut ringbuffer = RingBuffer::<TestStruct, 10>::new();
    let batch: Vec<TestStruct> = (0..8).map(|b| TestStruct { a: [b as u8; 36], b }).collect();
    let mut out = Vec::new();

    assert_eq!(ringbuffer.n_write(&batch), 8);
    assert_eq!(ringbuffer.n_read(&mut out), 8);
    assert_eq!(out, batch);
    assert_eq!(ringbuffer.n_write(&batch), 8);
    assert_eq!(ringbuffer.n_write(&batch), 2);
    assert_eq!(ringbuffer.n_read(&mut out), 10);
    let bs: Vec<i32> = out.iter().map(|s| s.b).collect();
    assert_eq!(bs, vec![0, 1, 2, 3, 4, 5, 6, 7, 0, 1]);
    assert_eq!(out[9].a, [1; 36]);
}

#[test]
fn ts_g_repeated_rounds_hand_back_each_element_once() {
    let mut ringbuffer = RingBuffer::<u64, 7>::new();
    let mut seen: Vec<u64> = Vec::new();
    let mut out = Vec::new();
    let mut next: u64 = 0;
    for round in 0..50u64 {
        let batch: Vec<u64> = (next..next + (round % 5) + 1).collect();
        let taken = ringbuffer.n_write(&batch);
        next += taken as u64;
        if round % 3 == 2 {
            let n = ringbuffer.n_read(&mut out);
            assert_eq!(n, out.len());
            seen.extend_from_slice(&out);
        }
    }
    ringbuffer.n_read(&mut out);
    seen.extend_from_slice(&out);
    assert_eq!(seen, (0..next).collect::<Vec<u64>>());
}

#[test]
fn ts_g_full_and_empty() {
    let mut ringbuffer = RingBuffer::<i32, 2>::new();
    let mut out = vec![4];
    assert_eq!(ringbuffer.n_read(&mut out), 0);
    assert!(out.is_empty());
    assert_eq!(ringbuffer.n_write(&vec![1, 2, 3]), 2);
    assert_eq!(ringbuffer.n_write(&vec![3]), 0);
    assert_eq!(ringbuffer.n_read(&mut out), 2);
    assert_eq!(out, vec![1, 2]);
    assert_eq!(ringbuffer.n_read(&mut out), 0);
}
