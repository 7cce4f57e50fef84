use audio_censor::ranges::{clip_ranges, merge, sort_ranges, PlanBuilder, SampleRange};

fn range(start_sample: u64, end_sample: u64) -> SampleRange {
    SampleRange { start_sample, end_sample }
}

fn covers(ranges: &[SampleRange], index: u64) -> bool {
    ranges.iter().any(|r| r.start_sample <= index && index < r.end_sample)
}

#[test]
fn overlapping_ranges_merge_into_one() {
    let plan = merge(&[range(1000, 2000), range(1500, 3000)], 90000);
    assert_eq!(plan.ranges(), &vec![range(1000, 3000)]);
    assert_eq!(plan.stream_len(), 90000);
}

#[test]
fn a_range_behind_the_stream_is_dropped() {
    let plan = merge(&[range(95000, 96000)], 90000);
    assert!(plan.is_empty());
    assert_eq!(plan.len(), 0);
}

#[test]
fn merge_of_nothing_is_empty() {
    let plan = merge(&[], 100);
    assert!(plan.is_empty());
}

#[test]
fn merge_clips_a_range_that_crosses_the_end() {
    let plan = merge(&[range(80, 120)], 100);
    assert_eq!(plan.ranges(), &vec![range(80, 100)]);
}

#[test]
fn merge_drops_empty_and_reversed_ranges() {
    let plan = merge(&[range(10, 10), range(30, 20), range(40, 50)], 100);
    assert_eq!(plan.ranges(), &vec![range(40, 50)]);
}

#[test]
fn merge_joins_touching_ranges() {
    let plan = merge(&[range(10, 20), range(20, 30)], 100);
    assert_eq!(plan.ranges(), &vec![range(10, 30)]);
}

#[test]
fn merge_keeps_separate_ranges_apart() {
    let plan = merge(&[range(30, 40), range(10, 20)], 100);
    assert_eq!(plan.ranges(), &vec![range(10, 20), range(30, 40)]);
}

#[test]
fn merge_swallows_a_nested_range() {
    let plan = merge(&[range(10, 50), range(20, 30), range(10, 15)], 100);
    assert_eq!(plan.ranges(), &vec![range(10, 50)]);
}

#[test]
fn merge_removes_duplicates() {
    let plan = merge(&[range(5, 9), range(5, 9), range(5, 9)], 100);
    assert_eq!(plan.ranges(), &vec![range(5, 9)]);
}

#[test]
fn merge_on_an_empty_stream_is_empty() {
    let plan = merge(&[range(0, 10)], 0);
    assert!(plan.is_empty());
}

#[test]
fn merge_output_is_sorted_separated_and_covers_the_same_indices() {
    let input = vec![
        range(40, 45),
        range(3, 9),
        range(8, 12),
        range(60, 70),
        range(12, 13),
        range(44, 41),
        range(58, 61),
        range(20, 20),
        range(0, 1),
    ];
    let stream_len = 64;
    let plan = merge(&input, stream_len);
    let out = plan.ranges();
    for r in out.iter() {
        assert!(r.start_sample < r.end_sample);
        assert!(r.end_sample <= stream_len);
    }
    for pair in out.windows(2) {
        assert!(pair[0].end_sample < pair[1].start_sample);
    }
    for index in 0..80 {
        assert_eq!(covers(out, index), index < stream_len && covers(&input, index));
    }
    assert_eq!(
        out,
        &vec![range(0, 1), range(3, 13), range(40, 45), range(58, 64)]
    );
}

#[test]
fn merge_is_idempotent() {
    let input = vec![range(7, 9), range(1, 4), range(3, 5), range(20, 40), range(9, 10)];
    let once = merge(&input, 30);
    let twice = merge(once.ranges(), 30);
    assert_eq!(once.ranges(), twice.ranges());
    assert_eq!(once.ranges(), &vec![range(1, 5), range(7, 10), range(20, 30)]);
}

#[test]
fn clip_ranges_keeps_order_and_drops_empty() {
    let out = clip_ranges(&[range(50, 200), range(5, 5), range(0, 10), range(150, 160)], 100);
    assert_eq!(out, vec![range(50, 100), range(0, 10)]);
}

#[test]
fn sort_ranges_orders_by_start_then_end() {
    let out = sort_ranges(&[range(5, 9), range(1, 8), range(5, 6), range(1, 2)]);
    assert_eq!(out, vec![range(1, 2), range(1, 8), range(5, 6), range(5, 9)]);
}

#[test]
fn sample_range_new_refuses_reversed_bounds() {
    assert_eq!(SampleRange::new(3, 7), Some(range(3, 7)));
    assert_eq!(SampleRange::new(7, 7), Some(range(7, 7)));
    assert_eq!(SampleRange::new(8, 7), None);
}

#[test]
fn sample_range_len_and_membership() {
    let r = range(10, 14);
    assert_eq!(r.len(), 4);
    assert!(!r.is_empty());
    assert!(r.holds(10));
    assert!(r.holds(13));
    assert!(!r.holds(14));
    assert!(!r.holds(9));
    assert_eq!(range(9, 3).len(), 0);
    assert!(range(9, 3).is_empty());
    assert!(range(4, 4).is_empty());
}

#[test]
fn sample_range_clip_cuts_both_bounds() {
    assert_eq!(range(5, 20).clip(10), range(5, 10));
    assert_eq!(range(15, 20).clip(10), range(10, 10));
    assert_eq!(range(2, 4).clip(10), range(2, 4));
}

#[test]
fn sample_range_sort_order() {
    assert!(range(1, 5).sorts_before(&range(2, 3)));
    assert!(range(1, 5).sorts_before(&range(1, 5)));
    assert!(range(1, 5).sorts_before(&range(1, 6)));
    assert!(!range(1, 6).sorts_before(&range(1, 5)));
    assert!(!range(2, 3).sorts_before(&range(1, 5)));
}

#[test]
fn plan_builder_gathers_and_freezes() {
    let mut builder = PlanBuilder::new();
    assert_eq!(builder.len(), 0);
    builder.push(range(1500, 3000));
    builder.add(&[range(1000, 2000), range(95000, 96000)]);
    assert_eq!(builder.len(), 3);
    let plan = builder.freeze(90000);
    assert_eq!(plan.ranges(), &vec![range(1000, 3000)]);
}
