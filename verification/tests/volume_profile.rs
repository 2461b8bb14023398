use data::compute::vp::{SparseBar, process_histogram, split_dispatches, tick_time_span};

#[test]
fn small_passes_are_not_split() {
    assert!(split_dispatches(1_000).is_empty());
    assert!(split_dispatches(65_535 * 64).is_empty());
}

#[test]
fn large_passes_are_split_at_the_workgroup_limit() {
    let n = 65_535 * 64 + 1;
    assert_eq!(split_dispatches(n), vec![(65_535, 0), (1, 65_535 * 64)]);
    let m = 65_535 * 64 * 2 + 100;
    assert_eq!(split_dispatches(m), vec![(65_535, 0), (65_535, 65_535 * 64), (2, 65_535 * 128)]);
}

#[test]
fn histogram_becomes_a_profile() {
    let dense = vec![0, 5, 10, 3, 0, 2];
    let total: u64 = dense.iter().map(|&v| v as u64).sum();
    let target = total * 7 / 10;
    let vp = process_histogram(dense, 100, 10, target);
    assert_eq!(
        *vp.bars,
        vec![
            SparseBar { price_level: 110, volume: 5 },
            SparseBar { price_level: 120, volume: 10 },
            SparseBar { price_level: 130, volume: 3 },
            SparseBar { price_level: 150, volume: 2 },
        ]
    );
    assert_eq!(vp.point_of_control, 120);
    assert_eq!(vp.value_area_start, 110);
    assert_eq!(vp.value_area_end, 120);
}

#[test]
fn value_area_prefers_the_upper_bar_on_a_tie() {
    let vp = process_histogram(vec![4, 9, 4], 0, 1, 13);
    assert_eq!(vp.point_of_control, 1);
    assert_eq!((vp.value_area_start, vp.value_area_end), (1, 2));
}

#[test]
fn empty_histogram_gives_an_empty_profile() {
    let vp = process_histogram(vec![0, 0, 0], 100, 10, 0);
    assert!(vp.bars.is_empty());
    assert_eq!((vp.point_of_control, vp.value_area_start, vp.value_area_end), (0, 0, 0));
}

#[test]
fn tick_span_in_microseconds() {
    assert_eq!(tick_time_span(&vec![5, 2, 9]), Some((2_000, 9_000)));
    assert_eq!(tick_time_span(&vec![]), None);
}

#[test]
fn value_area_always_encloses_the_point_of_control() {
    let hists: Vec<Vec<u32>> = vec![
        vec![1, 2, 3, 4, 5, 6, 7, 8, 9],
        vec![9, 8, 7, 0, 0, 1, 20],
        vec![3, 0, 3, 0, 3],
        vec![0, 7, 0],
    ];
    for d in hists {
        let total: u64 = d.iter().map(|&v| v as u64).sum();
        for target in [0, total / 2, total * 7 / 10, total, total + 1] {
            let vp = process_histogram(d.clone(), 50, 5, target);
            assert!(vp.value_area_start <= vp.point_of_control);
            assert!(vp.point_of_control <= vp.value_area_end);
        }
    }
    let vp = process_histogram(vec![9, 8, 7, 0, 0, 1, 20], 50, 5, 33);
    assert_eq!(vp.point_of_control, 80);
    assert_eq!((vp.value_area_start, vp.value_area_end), (55, 80));
}
