use std::collections::VecDeque;

use hyperdemo::audio::{block_error, fill_frames, queue_block, FillOutcome};

#[test]
fn fills_every_channel_of_each_frame() {
    let mut queue: VecDeque<f32> = VecDeque::from(vec![0.5, -0.25, 1.0]);
    let mut out = vec![0.0f32; 6];
    let outcome = fill_frames(&mut queue, &mut out, 2, 0);
    assert_eq!(outcome, FillOutcome::Filled);
    assert_eq!(out, vec![0.5, 0.5, -0.25, -0.25, 1.0, 1.0]);
    assert!(queue.is_empty());
}

#[test]
fn leftover_samples_stay_queued() {
    let mut queue: VecDeque<i16> = VecDeque::from(vec![1, 2, 3, 4, 5]);
    let mut out = vec![0i16; 3];
    assert_eq!(fill_frames(&mut queue, &mut out, 1, 0), FillOutcome::Filled);
    assert_eq!(out, vec![1, 2, 3]);
    assert_eq!(queue, VecDeque::from(vec![4, 5]));
}

#[test]
fn starves_when_the_queue_runs_dry() {
    let mut queue: VecDeque<u8> = VecDeque::from(vec![7]);
    let mut out = vec![0u8; 8];
    assert_eq!(fill_frames(&mut queue, &mut out, 2, 1), FillOutcome::Starved { frame: 2 });
    assert_eq!(out, vec![0, 0, 7, 7, 0, 0, 0, 0]);
    let mut empty: VecDeque<u8> = VecDeque::new();
    assert_eq!(fill_frames(&mut empty, &mut out, 2, 0), FillOutcome::Starved { frame: 0 });
}

#[test]
fn refill_mid_buffer_is_seamless() {
    let mut queue: VecDeque<f32> = VecDeque::from(vec![0.1, 0.2]);
    let mut out = vec![0.0f32; 8];
    let mut frame = 0;
    let mut blocks = vec![vec![0.3, 0.4, 0.5], vec![0.6]];
    loop {
        match fill_frames(&mut queue, &mut out, 2, frame) {
            FillOutcome::Filled => break,
            FillOutcome::Starved { frame: f } => {
                frame = f;
                let block = blocks.remove(0);
                queue_block(&mut queue, &block);
            }
        }
    }
    assert_eq!(out, vec![0.1, 0.1, 0.2, 0.2, 0.3, 0.3, 0.4, 0.4]);
    assert_eq!(queue, VecDeque::from(vec![0.5]));
}

#[test]
fn queue_block_appends_in_order() {
    let mut queue: VecDeque<i32> = VecDeque::from(vec![1]);
    queue_block(&mut queue, &[2, 3]);
    queue_block(&mut queue, &[]);
    assert_eq!(queue, VecDeque::from(vec![1, 2, 3]));
}

#[test]
fn block_error_reports() {
    assert_eq!(block_error(&[0, 65, 66]), None);
    assert_eq!(block_error(&[1, 104, 105]), Some(vec![104, 105]));
    assert_eq!(block_error(&[3]), Some(vec![]));
    let mut report = [0u8; 256];
    assert_eq!(block_error(&report), None);
    report[0] = 1;
    report[1] = b'x';
    let message = block_error(&report).unwrap();
    assert_eq!(message.len(), 255);
    assert_eq!(message[0], b'x');
}

#[test]
fn trailing_partial_frame_is_filled() {
    let mut queue: VecDeque<u8> = VecDeque::from(vec![1, 2, 3]);
    let mut out = vec![0u8; 5];
    assert_eq!(fill_frames(&mut queue, &mut out, 2, 0), FillOutcome::Filled);
    assert_eq!(out, vec![1, 1, 2, 2, 3]);
    assert!(queue.is_empty());
    let mut queue: VecDeque<u8> = VecDeque::from(vec![9, 8]);
    let mut out = vec![0u8; 5];
    assert_eq!(fill_frames(&mut queue, &mut out, 2, 0), FillOutcome::Starved { frame: 2 });
    assert_eq!(out, vec![9, 9, 8, 8, 0]);
}

#[test]
fn queue_stays_under_one_block_across_callbacks() {
    let block_len = 128;
    let mut next = 0u32;
    let mut queue: VecDeque<u32> = VecDeque::new();
    let mut played: Vec<u32> = Vec::new();
    for frames in [1usize, 512, 127, 128, 129, 300, 5, 1000, 64] {
        for channels in [1usize, 2] {
            let mut out = vec![0u32; frames * channels];
            let mut frame = 0;
            loop {
                match fill_frames(&mut queue, &mut out, channels, frame) {
                    FillOutcome::Filled => break,
                    FillOutcome::Starved { frame: f } => {
                        frame = f;
                        let block: Vec<u32> = (next..next + block_len).collect();
                        next += block_len;
                        queue_block(&mut queue, &block);
                    }
                }
            }
            assert!(queue.len() < block_len as usize);
            for k in 0..frames {
                played.push(out[k * channels]);
                assert!(out[k * channels..(k + 1) * channels].iter().all(|&x| x == out[k * channels]));
            }
        }
    }
    let expected: Vec<u32> = (0..played.len() as u32).collect();
    assert_eq!(played, expected);
}
