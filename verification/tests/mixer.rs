use wavetable::mixer::MultiOscillator;
use wavetable::oscillator::WaveTableOscillator;
use wavetable::table::{WaveTable, FULL_SCALE};

fn square_sine() -> WaveTable {
    WaveTable::new(vec![0, FULL_SCALE, 0, -FULL_SCALE]).unwrap()
}

fn tuned(sample_rate: u32, table: WaveTable, millihertz: i64) -> WaveTableOscillator {
    let mut oscillator = WaveTableOscillator::new(sample_rate, table).unwrap();
    oscillator.set_frequency(millihertz);
    oscillator
}

#[test]
fn mixer_refuses_an_empty_list() {
    assert!(MultiOscillator::new(vec![]).is_none());
    assert!(MultiOscillator::new(vec![tuned(4, square_sine(), 0)]).is_some());
}

#[test]
fn silent_oscillator_adds_nothing() {
    let silent = WaveTableOscillator::new(4, square_sine()).unwrap();
    let sounding = tuned(4, square_sine(), 1000);
    let mut mixer = MultiOscillator::new(vec![silent, sounding]).unwrap();
    let full = FULL_SCALE as i128;
    for expected in [0, full, 0, -full, 0, full, 0, -full] {
        assert_eq!(mixer.next(), Some(expected));
    }
}

#[test]
fn mixer_of_one_is_that_oscillator() {
    let mut alone = tuned(4, square_sine(), 500);
    let mut mixer = MultiOscillator::new(vec![tuned(4, square_sine(), 500)]).unwrap();
    for _ in 0..20 {
        assert_eq!(mixer.next(), Some(alone.get_sample() as i128));
    }
}

#[test]
fn mixer_is_the_sum_of_its_oscillators() {
    let ramp: Vec<i32> = (0..64).map(|n| n * 1000 - 32000).collect();
    let frequencies = [660_000i64, 440_000, 880_000, 220_000, -110_500];
    let mut alone: Vec<WaveTableOscillator> = frequencies
        .iter()
        .map(|f| tuned(44100, WaveTable::new(ramp.clone()).unwrap(), *f))
        .collect();
    let mixed: Vec<WaveTableOscillator> = frequencies
        .iter()
        .map(|f| tuned(44100, WaveTable::new(ramp.clone()).unwrap(), *f))
        .collect();
    let mut mixer = MultiOscillator::new(mixed).unwrap();
    for _ in 0..500 {
        let mut sum: i128 = 0;
        for oscillator in alone.iter_mut() {
            sum += oscillator.get_sample() as i128;
        }
        assert_eq!(mixer.next(), Some(sum));
    }
}

#[test]
fn mixer_sums_exact_values() {
    let first = tuned(4, WaveTable::new(vec![1, 2, 3, 4]).unwrap(), 1000);
    let second = tuned(4, WaveTable::new(vec![10, 20, 30, 40]).unwrap(), 2000);
    let third = tuned(4, WaveTable::new(vec![100, 200, 300, 400]).unwrap(), -1000);
    let mut mixer = MultiOscillator::new(vec![first, second, third]).unwrap();
    assert_eq!(mixer.next(), Some(1 + 10 + 100));
    assert_eq!(mixer.next(), Some(2 + 30 + 400));
    assert_eq!(mixer.next(), Some(3 + 10 + 300));
    assert_eq!(mixer.next(), Some(4 + 30 + 200));
    assert_eq!(mixer.next(), Some(1 + 10 + 100));
}

#[test]
fn mixer_does_not_clip() {
    let table = WaveTable::new(vec![FULL_SCALE, -FULL_SCALE]).unwrap();
    let voices: Vec<WaveTableOscillator> =
        (0..3).map(|_| tuned(2, table.clone(), 1000)).collect();
    let mut mixer = MultiOscillator::new(voices).unwrap();
    let full = FULL_SCALE as i128;
    assert_eq!(mixer.next(), Some(3 * full));
    assert_eq!(mixer.next(), Some(-3 * full));
    assert_eq!(mixer.next(), Some(3 * full));
}

#[test]
fn mixer_reports_the_first_sample_rate() {
    let mixer = MultiOscillator::new(vec![
        tuned(44100, square_sine(), 440_000),
        tuned(48000, square_sine(), 440_000),
    ])
    .unwrap();
    assert_eq!(mixer.sample_rate(), 44100);
    let mixer = MultiOscillator::new(vec![
        tuned(48000, square_sine(), 440_000),
        tuned(44100, square_sine(), 440_000),
    ])
    .unwrap();
    assert_eq!(mixer.sample_rate(), 48000);
}

#[test]
fn mixer_is_a_mono_endless_source() {
    let mut mixer = MultiOscillator::new(vec![tuned(8000, square_sine(), 1000)]).unwrap();
    assert_eq!(mixer.channels(), 1);
    assert_eq!(mixer.sample_rate(), 8000);
    assert_eq!(mixer.current_frame_len(), None);
    assert_eq!(mixer.total_duration(), None);
    for _ in 0..1000 {
        assert!(mixer.next().is_some());
    }
}
