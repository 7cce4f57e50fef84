use audio_censor::overlay::{write_all, write_all_mirrored, BeepWaveform, OverlayWriter};
use audio_censor::ranges::{merge, SampleRange};

fn range(start_sample: u64, end_sample: u64) -> SampleRange {
    SampleRange { start_sample, end_sample }
}

fn ramp(n: usize) -> Vec<i16> {
    (0..n).map(|i| (i as i16) + 100).collect()
}

#[test]
fn beep_needs_a_sample() {
    assert!(BeepWaveform::new(Vec::new()).is_none());
    let beep = BeepWaveform::new(vec![7]).unwrap();
    assert_eq!(beep.len(), 1);
}

#[test]
fn beep_is_replayed_cyclically_by_absolute_index() {
    let beep = BeepWaveform::new(vec![1, 2, 3]).unwrap();
    assert_eq!(beep.sample_at(0), 1);
    assert_eq!(beep.sample_at(1), 2);
    assert_eq!(beep.sample_at(2), 3);
    assert_eq!(beep.sample_at(3), 1);
    assert_eq!(beep.sample_at(10), 2);
    assert_eq!(beep.sample_at(u64::MAX), 1);
}

#[test]
fn write_all_overlays_the_tone_inside_the_plan() {
    let samples = ramp(10);
    let plan = merge(&[range(2, 5), range(7, 8)], 10);
    let beep = BeepWaveform::new(vec![-1, -2, -3, -4]).unwrap();
    let mut sink = Vec::new();
    write_all(&samples, &plan, &beep, &mut sink);
    assert_eq!(sink, vec![100, 101, -3, -4, -1, 105, 106, -4, 108, 109]);
}

#[test]
fn write_all_emits_every_sample_once_and_passes_through_outside_the_plan() {
    let samples = ramp(200);
    let input = [range(10, 20), range(15, 40), range(150, 500), range(90, 91)];
    let plan = merge(&input, 200);
    let beep = BeepWaveform::new(vec![0, 9, -9]).unwrap();
    let mut sink = Vec::new();
    write_all(&samples, &plan, &beep, &mut sink);
    assert_eq!(sink.len(), samples.len());
    for i in 0..samples.len() {
        let inside = plan
            .ranges()
            .iter()
            .any(|r| r.start_sample <= i as u64 && (i as u64) < r.end_sample);
        if inside {
            assert_eq!(sink[i], [0, 9, -9][i % 3]);
        } else {
            assert_eq!(sink[i], samples[i]);
        }
    }
}

#[test]
fn write_all_appends_to_the_sink() {
    let plan = merge(&[range(0, 1)], 2);
    let beep = BeepWaveform::new(vec![5]).unwrap();
    let mut sink = vec![42];
    write_all(&[1, 2], &plan, &beep, &mut sink);
    assert_eq!(sink, vec![42, 5, 2]);
}

#[test]
fn write_all_with_an_empty_plan_copies_the_input() {
    let samples = ramp(50);
    let plan = merge(&[], 50);
    let beep = BeepWaveform::new(vec![1]).unwrap();
    let mut sink = Vec::new();
    write_all(&samples, &plan, &beep, &mut sink);
    assert_eq!(sink, samples);
}

#[test]
fn write_all_cuts_off_a_plan_made_for_a_longer_stream() {
    let samples = ramp(6);
    let plan = merge(&[range(4, 100)], 1000);
    let beep = BeepWaveform::new(vec![0]).unwrap();
    let mut sink = Vec::new();
    write_all(&samples, &plan, &beep, &mut sink);
    assert_eq!(sink, vec![100, 101, 102, 103, 0, 0]);
}

#[test]
fn write_all_mirrored_records_both_variants() {
    let plan = merge(&[range(1, 2)], 3);
    let beep = BeepWaveform::new(vec![-7, -8]).unwrap();
    let mut sink = Vec::new();
    let mut debug = Vec::new();
    write_all_mirrored(&[10, 20, 30], &plan, &beep, &mut sink, &mut debug);
    assert_eq!(sink, vec![10, -8, 30]);
    assert_eq!(debug, vec![(10, 10), (20, -8), (30, 30)]);
}

#[test]
fn writer_steps_through_a_stream() {
    let plan = merge(&[range(1, 3), range(4, 5)], 6);
    let beep = BeepWaveform::new(vec![0, -1]).unwrap();
    let mut writer = OverlayWriter::new(plan, beep);
    assert_eq!(writer.position(), 0);
    let mut out = Vec::new();
    for s in [11, 12, 13, 14, 15, 16, 17] {
        out.push(writer.emit(s));
    }
    assert_eq!(out, vec![11, -1, 0, 14, 0, 16, 17]);
    assert_eq!(writer.position(), 7);
}

#[test]
fn writer_agrees_with_write_all() {
    let samples = ramp(64);
    let input = [range(3, 9), range(8, 12), range(40, 45), range(58, 70)];
    let beep_samples = vec![1, -1, 2, -2, 3];
    let mut sink = Vec::new();
    write_all(
        &samples,
        &merge(&input, 64),
        &BeepWaveform::new(beep_samples.clone()).unwrap(),
        &mut sink,
    );
    let mut writer = OverlayWriter::new(merge(&input, 64), BeepWaveform::new(beep_samples).unwrap());
    let stepped: Vec<i16> = samples.iter().map(|s| writer.emit(*s)).collect();
    assert_eq!(stepped, sink);
}

#[test]
fn a_range_behind_the_stream_leaves_the_output_alone() {
    let samples: Vec<i16> = (0..90000).map(|i| (i % 251) as i16).collect();
    let plan = merge(&[range(95000, 96000)], 90000);
    let beep = BeepWaveform::new(vec![1000, -1000]).unwrap();
    let mut sink = Vec::new();
    write_all(&samples, &plan, &beep, &mut sink);
    assert_eq!(sink, samples);
}
