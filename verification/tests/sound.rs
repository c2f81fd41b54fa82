use pi_speak::audio::sink::{Playback, QUEUE_LIMIT};
use pi_speak::audio::{AudioChunk, AudioSink, ChunkQueue};
use pi_speak::dsp::mastering::edge_fade_steps;
use pi_speak::dsp::pcm::{decode_pcm16, encode_pcm16};
use pi_speak::dsp::resampler::{interleave_stereo, pcm16_blocks, BLOCK_SIZE};
use pi_speak::dsp::AudioResampler;

fn faded(samples: &mut [f32], fade_samples: usize, channels: usize) {
    for f in edge_fade_steps(samples.len(), fade_samples, channels) {
        let progress = f.step as f32 / fade_samples as f32;
        let factor = 0.5 * (1.0 - (std::f32::consts::PI * progress).cos());
        samples[f.index] *= factor;
    }
}

#[test]
fn test_edge_fades() {
    let mut samples = vec![1.0; 200]; // 100 stereo frames
    faded(&mut samples, 10, 2);

    // First frame should be near 0
    assert!(samples[0] < 0.05);
    assert!(samples[1] < 0.05);

    // Middle frames should remain 1.0
    assert_eq!(samples[100], 1.0);

    // Last frame should be near 0
    assert!(samples[198] < 0.05);
    assert!(samples[199] < 0.05);
}

#[test]
fn fades_take_whole_frames() {
    let steps: Vec<(usize, usize)> = edge_fade_steps(11, 2, 2)
        .iter()
        .map(|f| (f.index, f.step))
        .collect();
    assert_eq!(
        steps,
        vec![
            (0, 0),
            (1, 0),
            (2, 1),
            (3, 1),
            (6, 2),
            (7, 2),
            (8, 1),
            (9, 1)
        ]
    );
}

#[test]
fn a_chunk_that_is_too_short_is_not_faded() {
    assert!(edge_fade_steps(39, 10, 2).is_empty());
    assert_eq!(edge_fade_steps(40, 10, 2).len(), 40);
    assert!(edge_fade_steps(0, 0, 1).is_empty());
}

#[test]
fn samples_come_back_from_their_bytes() {
    let samples: Vec<i16> = vec![0, 1, -1, 256, -256, i16::MAX, i16::MIN];
    let bytes = encode_pcm16(&samples);
    let expected: Vec<u8> = samples.iter().flat_map(|s| s.to_le_bytes()).collect();
    assert_eq!(bytes, expected);
    assert_eq!(bytes.len() % 2, 0);
    assert_eq!(decode_pcm16(&bytes), samples);
    assert_eq!(decode_pcm16(&[1, 2, 3]), vec![0x0201]);
}

#[test]
fn blocks_are_filled_up_with_silence() {
    assert!(pcm16_blocks(&[]).is_empty());
    assert!(pcm16_blocks(&[1]).is_empty());
    let samples: Vec<i16> = (0..1500).collect();
    let blocks = pcm16_blocks(&encode_pcm16(&samples));
    assert_eq!(blocks.len(), 2);
    assert!(blocks.iter().all(|b| b.len() == BLOCK_SIZE));
    assert_eq!(blocks[1][0], 1024);
    assert_eq!(blocks[1][475], 1499);
    assert!(blocks[1][476..].iter().all(|s| *s == 0));
    let whole: Vec<i16> = vec![3; BLOCK_SIZE];
    assert_eq!(pcm16_blocks(&encode_pcm16(&whole)), vec![whole]);
}

#[test]
fn both_channels_carry_the_signal() {
    assert_eq!(interleave_stereo(&[0.5f32, -0.5]), vec![0.5, 0.5, -0.5, -0.5]);
    assert!(interleave_stereo::<f32>(&[]).is_empty());
}

#[test]
fn a_resampler_knows_its_rates() {
    let resampler = AudioResampler::new(22050, 48000);
    assert_eq!(resampler.input_rate(), 22050);
    assert_eq!(resampler.output_rate(), 48000);
}

fn chunk(samples: &[f32]) -> AudioChunk<f32> {
    AudioChunk {
        samples: samples.to_vec(),
        id: 1,
        connection_id: 2,
        epoch: 0,
    }
}

#[test]
fn chunks_are_played_one_after_the_other() {
    let mut playback: Playback<f32> = Playback::new();
    let mut queue = vec![chunk(&[0.3]), chunk(&[0.1, 0.2])];
    let mut out: Vec<(f32, bool)> = Vec::new();
    for _ in 0..7 {
        if playback.needs_chunk() {
            if let Some(c) = queue.pop() {
                playback.load(c);
            }
        }
        let p = playback.next_sample(0.0);
        out.push((p.sample, p.active));
    }
    assert_eq!(
        out,
        vec![
            (0.1, true),
            (0.2, true),
            (0.3, true),
            (0.0, false),
            (0.0, false),
            (0.0, false),
            (0.0, false)
        ]
    );
}

#[test]
fn a_cancelled_chunk_is_dropped() {
    let mut playback: Playback<f32> = Playback::new();
    playback.load(chunk(&[0.1, 0.2]));
    playback.next_sample(0.0);
    playback.cancel();
    assert!(playback.needs_chunk());
    let p = playback.next_sample(0.0);
    assert_eq!((p.sample, p.active), (0.0, false));
}

#[test]
fn a_halted_output_is_silent_until_the_next_chunk() {
    let mut sink = AudioSink::new(48000);
    assert_eq!(sink.sample_rate(), 48000);
    assert_eq!(sink.channels(), 2);
    assert!(!sink.is_playing(false));
    assert!(sink.is_playing(true));
    sink.note_activity(true);
    assert!(sink.is_playing(false));
    sink.stop();
    assert!(!sink.is_playing(true));
    let mut next = chunk(&[0.1]);
    sink.play_chunk(&mut next);
    assert_eq!(next.epoch, 1);
    assert_eq!((next.id, next.connection_id), (1, 2));
    assert!(sink.is_playing(true));
    assert!(!sink.is_playing(false));
}

#[test]
fn the_output_plays_what_the_channel_holds() {
    let (tx, rx) = crossbeam_channel::bounded(4);
    let mut queue = ChunkQueue::new(rx.clone());
    let mut sink = AudioSink::new(48000);
    let mut playback: Playback<f32> = Playback::new();
    let mut data = [9.0f32; 4];
    tx.send(chunk(&[0.1, 0.2])).unwrap();
    tx.send(chunk(&[0.3])).unwrap();
    playback.fill(&mut sink, &mut queue, 0.0, &mut data);
    assert_eq!(data, [0.1, 0.2, 0.3, 0.0]);
    assert!(!sink.is_playing(false));
    tx.send(chunk(&[0.4, 0.5, 0.6, 0.7, 0.8])).unwrap();
    tx.send(chunk(&[0.9])).unwrap();
    playback.fill(&mut sink, &mut queue, 0.0, &mut data);
    assert_eq!(data, [0.4, 0.5, 0.6, 0.7]);
    assert!(sink.is_playing(false));
    playback.fill(&mut sink, &mut queue, 0.0, &mut data);
    assert_eq!(data, [0.8, 0.9, 0.0, 0.0]);
    playback.fill(&mut sink, &mut queue, 0.0, &mut data);
    assert_eq!(data, [0.0, 0.0, 0.0, 0.0]);
    assert!(!sink.is_playing(false));
}

#[test]
fn a_cancelled_output_drops_what_the_channel_holds() {
    let (tx, rx) = crossbeam_channel::bounded(4);
    let mut queue = ChunkQueue::new(rx.clone());
    let mut sink = AudioSink::new(48000);
    let mut playback: Playback<f32> = Playback::new();
    let mut data = [9.0f32; 2];
    tx.send(chunk(&[0.1, 0.2, 0.3])).unwrap();
    playback.fill(&mut sink, &mut queue, 0.0, &mut data);
    tx.send(chunk(&[0.4])).unwrap();
    sink.stop();
    playback.fill(&mut sink, &mut queue, 0.0, &mut data);
    assert_eq!(data, [0.0, 0.0]);
    assert!(rx.is_empty());
    assert!(playback.needs_chunk());
    let mut next = chunk(&[0.5]);
    sink.play_chunk(&mut next);
    tx.send(next).unwrap();
    playback.fill(&mut sink, &mut queue, 0.0, &mut data);
    assert_eq!(data, [0.5, 0.0]);
}

#[test]
fn a_halt_flushes_what_was_enqueued_before() {
    let (tx, rx) = crossbeam_channel::bounded(4);
    let mut queue = ChunkQueue::new(rx.clone());
    let mut sink = AudioSink::new(48000);
    let mut playback: Playback<f32> = Playback::new();
    let mut data = [9.0f32; 2];
    tx.send(chunk(&[0.1, 0.2, 0.3])).unwrap();
    playback.fill(&mut sink, &mut queue, 0.0, &mut data);
    tx.send(chunk(&[0.4])).unwrap();
    sink.stop();
    let mut next = chunk(&[0.5, 0.6]);
    sink.play_chunk(&mut next);
    tx.send(next).unwrap();
    playback.fill(&mut sink, &mut queue, 0.0, &mut data);
    assert_eq!(data, [0.5, 0.6]);
}

#[test]
fn a_look_passes_over_chunks_of_another_epoch() {
    let (tx, rx) = crossbeam_channel::unbounded();
    let mut queue = ChunkQueue::new(rx.clone());
    for epoch in [4, 4, 5, 5] {
        let mut c = chunk(&[epoch as f32]);
        c.epoch = epoch;
        tx.send(c).unwrap();
    }
    assert_eq!(queue.poll_fresh(5).map(|c| c.epoch), Some(5));
    assert_eq!(rx.len(), 1);
    assert!(queue.poll_fresh(6).is_none());
    assert!(rx.is_empty());
    assert!(queue.poll_fresh(5).is_none());
    for _ in 0..40 {
        tx.send(chunk(&[0.1])).unwrap();
    }
    assert!(queue.poll_fresh(9).is_none());
    assert_eq!(rx.len(), 40 - QUEUE_LIMIT - 1);
}

#[test]
fn a_queue_gives_what_its_channel_holds() {
    let (tx, rx) = crossbeam_channel::bounded(4);
    let mut queue = ChunkQueue::new(rx.clone());
    assert!(queue.poll().is_none());
    tx.send(chunk(&[0.1])).unwrap();
    tx.send(chunk(&[0.2])).unwrap();
    tx.send(chunk(&[0.3])).unwrap();
    assert_eq!(queue.poll().map(|c| c.samples), Some(vec![0.1]));
    queue.drain();
    assert!(rx.is_empty());
}

#[test]
fn every_chunk_is_played_once() {
    let (tx, rx) = crossbeam_channel::bounded(QUEUE_LIMIT);
    let mut sink = AudioSink::new(48000);
    let mut playback: Playback<f32> = Playback::new();
    let mut queue = ChunkQueue::new(rx);
    let mut sent: Vec<f32> = Vec::new();
    for k in 0..10 {
        let samples: Vec<f32> = (0..k + 1).map(|j| (k * 100 + j + 1) as f32).collect();
        sent.extend(&samples);
        tx.send(chunk(&samples)).unwrap();
    }
    let mut out: Vec<f32> = Vec::new();
    for _ in 0..10 {
        let mut data = [9.0f32; 7];
        playback.fill(&mut sink, &mut queue, 0.0, &mut data);
        out.extend(&data);
    }
    assert_eq!(out[..sent.len()], sent[..]);
    assert!(out[sent.len()..].iter().all(|x| *x == 0.0));
}
