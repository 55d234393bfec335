use whisper_rt::ring_buffer::AudioRingBuffer;

// Durations are given in samples at 16 kHz: 1 s = 16 000 samples.

#[test]
fn drops_oldest_samples_past_the_window() {
    let mut buffer = AudioRingBuffer::new(16_000, 16_000);
    buffer.push(&vec![0.1f32; 16_000]);
    buffer.push(&vec![0.2f32; 4_000]);

    assert_eq!(buffer.len(), 16_000);
    let snapshot = buffer.snapshot();
    assert_eq!(snapshot[0], 0.1);
    assert_eq!(snapshot[15_999], 0.2);
}

#[test]
fn slice_from_ms_accounts_for_dropped_samples() {
    let mut buffer = AudioRingBuffer::new(16_000, 16_000);
    buffer.push(&vec![0.1f32; 16_000]);
    // Push 0.5 s more -> the first 0.5 s is dropped, the buffer starts at 500 ms.
    buffer.push(&vec![0.2f32; 8_000]);
    assert_eq!(buffer.start_ms(), 500);
    // From 1000 ms -> exactly the last 0.5 s.
    assert_eq!(buffer.slice_from_ms(1_000).len(), 8_000);
    // A time that has left the buffer -> from the buffer's start.
    assert_eq!(buffer.slice_from_ms(0).len(), 16_000);
    // A time past the data -> empty.
    assert!(buffer.slice_from_ms(5_000).is_empty());
}

#[test]
fn retain_tail_advances_the_time_axis() {
    let mut buffer = AudioRingBuffer::new(16_000, 64_000);
    buffer.push(&vec![0.0f32; 32_000]); // 2 s
    buffer.retain_tail(8_000);
    assert_eq!(buffer.len(), 8_000);
    assert_eq!(buffer.start_ms(), 1_500);
    assert_eq!(buffer.end_ms(), 2_000);
    // After the cut, slicing from the old time returns exactly what is left.
    assert_eq!(buffer.slice_from_ms(1_500).len(), 8_000);
}

#[test]
fn tail_returns_only_the_requested_duration() {
    let mut buffer = AudioRingBuffer::new(16_000, 64_000);
    buffer.push(&vec![0.0f32; 48_000]);

    assert_eq!(buffer.tail(16_000).len(), 16_000);
    assert_eq!(buffer.tail(160_000).len(), buffer.len());
}

#[test]
fn clear_restarts_the_time_axis() {
    let mut buffer = AudioRingBuffer::new(16_000, 100);
    buffer.push(&[1i16; 150]);
    assert!(buffer.is_full());
    assert_eq!(buffer.start_ms(), 3); // 50 samples dropped = 3.125 ms
    buffer.clear();
    assert!(buffer.is_empty());
    assert_eq!(buffer.start_ms(), 0);
    assert_eq!(buffer.end_ms(), 0);
    assert!(!buffer.is_full());
}

#[test]
fn zero_capacity_keeps_one_sample() {
    let mut buffer = AudioRingBuffer::new(16_000, 0);
    buffer.push(&[1u8, 2, 3]);
    assert_eq!(buffer.snapshot(), vec![3]);
}

#[test]
fn negative_time_slices_from_the_start() {
    let mut buffer = AudioRingBuffer::new(1_000, 10);
    buffer.push(&[1, 2, 3, 4, 5]);
    assert_eq!(buffer.slice_from_ms(-20), vec![1, 2, 3, 4, 5]);
    assert_eq!(buffer.slice_from_ms(2), vec![3, 4, 5]);
    assert_eq!(buffer.tail(2), vec![4, 5]);
}

#[test]
fn dropped_plus_buffered_is_what_was_pushed() {
    let mut buffer = AudioRingBuffer::new(1_000, 4);
    buffer.push(&[1, 2, 3]);
    buffer.push(&[4, 5, 6]);
    // 6 ms pushed, 2 dropped: the buffer spans 2..6 ms.
    assert_eq!(buffer.start_ms(), 2);
    assert_eq!(buffer.end_ms(), 6);
    buffer.retain_tail(1);
    assert_eq!(buffer.start_ms(), 5);
    assert_eq!(buffer.end_ms(), 6);
    assert_eq!(buffer.snapshot(), vec![6]);
}
