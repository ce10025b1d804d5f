use leqtion::session::analysis_step;
use leqtion::bands::Fraction;
use leqtion::engine::{pick_channel, ChannelSelect};
use leqtion::generator::{fill_channel, Rng, DEFAULT_SEED};
use leqtion::ring::SampleRing;
use leqtion::spectrum::{sanitised_fft_size, Averaging, DEFAULT_FFT_SIZE};
use leqtion::transfer::{
    next_power_of_two, slice_fft_size, wide_fft_size, DelayLine, TfAveraging, MAX_FFT, MIN_FFT,
};

#[test]
fn powers_of_two_round_up() {
    assert_eq!(next_power_of_two(0), 1);
    assert_eq!(next_power_of_two(1), 1);
    assert_eq!(next_power_of_two(3), 4);
    assert_eq!(next_power_of_two(1024), 1024);
    assert_eq!(next_power_of_two(1025), 2048);
}

#[test]
fn slice_lengths_stay_in_range() {
    assert_eq!(slice_fft_size(10), MIN_FFT);
    assert_eq!(slice_fft_size(300), 512);
    assert_eq!(slice_fft_size(1_000_000), MAX_FFT);
    assert_eq!(wide_fft_size(16800), 32768);
    assert_eq!(wide_fft_size(67200), MAX_FFT);
}

#[test]
fn a_delay_line_holds_the_reference_back() {
    let mut line = DelayLine::new(8, 0.0f32);
    line.set(3);
    assert_eq!(line.delay(), 3);
    let out: Vec<f32> = (1..=6).map(|i| line.process(i as f32)).collect();
    assert_eq!(out, vec![0.0, 0.0, 0.0, 1.0, 2.0, 3.0]);
    line.set(100);
    assert_eq!(line.delay(), 7, "held to what the line can carry");
    line.clear();
    assert_eq!(line.process(9.0), 0.0);
    let mut none = DelayLine::new(0, 0i32);
    assert_eq!(none.process(5), 5, "a line with one slot passes straight through");
}

#[test]
fn the_noise_source_is_reproducible() {
    let mut a = Rng::new(DEFAULT_SEED);
    let mut b = Rng::new(DEFAULT_SEED);
    let first: Vec<u64> = (0..3).map(|_| a.next_u64()).collect();
    assert_eq!(first, vec![6971599576931732143, 9284506052124691287, 12718064617457090290]);
    assert_eq!((0..3).map(|_| b.next_u64()).collect::<Vec<u64>>(), first);
    let mut z = Rng::new(0);
    assert_eq!(z.next_u64(), 7255456701427781782);
    assert_eq!(z.next_u64(), 3842803101377418213);
}

#[test]
fn interleaved_output_writes_one_channel_and_clears_the_rest() {
    let mut buf = vec![9.0f32; 4 * 100];
    let signal: Vec<f32> = (0..100).map(|f| f as f32 / 100.0).collect();
    fill_channel(&mut buf, &signal, 4, 2, 0.0);
    for f in 0..100 {
        for c in 0..4 {
            let v = buf[f * 4 + c];
            if c == 2 {
                assert_eq!(v, signal[f]);
            } else {
                assert_eq!(v, 0.0, "channel {c} was not cleared");
            }
        }
    }
}

#[test]
fn an_out_of_range_output_channel_falls_back_to_the_last_one() {
    let mut buf = vec![0.0f32; 2 * 64 + 1];
    let signal = vec![0.5f32; 64];
    fill_channel(&mut buf, &signal, 2, 9, 0.0);
    assert!((0..64).all(|f| buf[f * 2 + 1] == 0.5 && buf[f * 2] == 0.0));
    assert_eq!(buf[128], 0.0, "a partial frame is left alone");
}

#[test]
fn selecting_an_input_channel_picks_that_channel() {
    let buf = vec![0, 10, 1, 11, 2, 12, 3];
    assert_eq!(pick_channel(&buf, 2, 1), vec![10, 11, 12]);
    assert_eq!(pick_channel(&buf, 2, 0), vec![0, 1, 2]);
    assert_eq!(ChannelSelect::Channel { index: 7 }.source_channel(2), Some(1));
    assert_eq!(ChannelSelect::Channel { index: 0 }.source_channel(2), Some(0));
    assert_eq!(ChannelSelect::Mix.source_channel(2), None);
    assert_eq!(ChannelSelect::default(), ChannelSelect::Channel { index: 0 });
}

#[test]
fn offered_settings_have_their_names() {
    assert_eq!(sanitised_fft_size(8192), 8192);
    assert_eq!(sanitised_fft_size(1000), DEFAULT_FFT_SIZE);
    assert_eq!(Averaging::Infinite.label(), "Infinite");
    assert_eq!(TfAveraging::Slow.label(), "Slow");
    assert_eq!(TfAveraging::ALL.len(), 4);
}

#[test]
fn ring_calls_for_a_frame_every_hop_samples() {
    let mut ring: SampleRing<i32> = SampleRing::new(4, 2, 0);
    let dues: Vec<bool> = (1..=7).map(|x| ring.push(x)).collect();
    assert_eq!(dues, vec![false, true, false, true, false, true, false]);
}

#[test]
fn ring_frame_is_the_last_samples_oldest_first() {
    let mut ring: SampleRing<i32> = SampleRing::new(4, 2, 0);
    assert_eq!(ring.latest(), vec![0, 0, 0, 0]);
    ring.push(1);
    ring.push(2);
    assert_eq!(ring.latest(), vec![0, 0, 1, 2]);
    for x in 3..=6 {
        ring.push(x);
    }
    assert_eq!(ring.latest(), vec![3, 4, 5, 6]);
    ring.push(7);
    assert_eq!(ring.latest(), vec![4, 5, 6, 7]);
}

#[test]
fn ring_reset_forgets_samples_and_restarts_the_hop_count() {
    let mut ring: SampleRing<i32> = SampleRing::new(3, 3, -1);
    ring.push(10);
    ring.push(11);
    ring.reset();
    assert_eq!(ring.latest(), vec![-1, -1, -1]);
    assert!(!ring.push(12));
    assert!(!ring.push(13));
    assert!(ring.push(14));
    assert_eq!(ring.latest(), vec![12, 13, 14]);
}

#[test]
fn ring_of_pairs_keeps_both_channels_aligned() {
    let mut ring: SampleRing<(i32, i32)> = SampleRing::new(2, 1, (0, 0));
    assert!(ring.push((1, 10)));
    assert!(ring.push((2, 20)));
    assert!(ring.push((3, 30)));
    assert_eq!(ring.latest(), vec![(2, 20), (3, 30)]);
}

#[test]
fn ring_a_quarter_hop_frames_four_times_per_window() {
    let mut ring: SampleRing<f32> = SampleRing::new(4096, 1024, 0.0);
    let frames = (0..4096).filter(|_| ring.push(0.0)).count();
    assert_eq!(frames, 4);
}

#[test]
fn resolution_labels_name_their_denominator() {
    let labels: Vec<&str> = Fraction::ALL.iter().map(|f| f.label()).collect();
    assert_eq!(labels, vec!["1/1", "1/3", "1/6", "1/12", "1/24", "1/48"]);
    for f in Fraction::ALL {
        assert_eq!(f.label(), format!("1/{}", f.denominator()));
    }
}

#[test]
fn an_analysis_pass_reads_whole_frames_and_sends_frames_on_the_clock() {
    let step = analysis_step(10, 4, 0);
    assert_eq!(step.read, 8);
    assert!(!step.idle && !step.emit_frame);
    let step = analysis_step(3, 4, 33);
    assert_eq!(step.read, 0);
    assert!(step.idle && step.emit_frame);
    let step = analysis_step(100_000, 3, 32);
    assert_eq!(step.read, 4095);
    assert!(!step.emit_frame);
}
