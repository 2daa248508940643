use video_ingest::stability::{is_file_stable, StabilityProbe, Verdict};

fn sizes(list: &[u64]) -> Vec<Option<u64>> {
    list.iter().map(|s| Some(*s)).collect()
}

#[test]
fn size_that_changes_at_every_sample_is_never_stable() {
    assert!(!is_file_stable(&sizes(&[1, 2, 3]), 3));
    assert!(!is_file_stable(&sizes(&[1, 2, 1, 2, 1, 2]), 6));
    assert!(!is_file_stable(&sizes(&[10, 20, 30, 40, 50]), 100));
    let mut probe = StabilityProbe::new(50);
    for n in 0..49u64 {
        assert_eq!(probe.observe(Some(n)), Verdict::Undecided);
    }
    assert_eq!(probe.observe(Some(49)), Verdict::Unstable);
}

#[test]
fn size_that_stands_still_is_stable_within_the_allowed_samples() {
    assert!(is_file_stable(&sizes(&[7, 7]), 3));
    assert!(is_file_stable(&sizes(&[7, 7, 9]), 3));
    assert!(is_file_stable(&sizes(&[1, 7, 7]), 3));
    assert!(is_file_stable(&sizes(&[0, 0]), 2));
    let mut probe = StabilityProbe::new(3);
    assert_eq!(probe.observe(Some(1)), Verdict::Undecided);
    assert_eq!(probe.observe(Some(7)), Verdict::Undecided);
    assert_eq!(probe.observe(Some(7)), Verdict::Stable);
}

#[test]
fn stable_as_soon_as_two_samples_agree() {
    let mut probe = StabilityProbe::new(3);
    assert_eq!(probe.current(), Verdict::Undecided);
    assert_eq!(probe.observe(Some(4096)), Verdict::Undecided);
    assert_eq!(probe.observe(Some(4096)), Verdict::Stable);
    assert_eq!(probe.current(), Verdict::Stable);
}

#[test]
fn samples_beyond_the_allowed_ones_do_not_count() {
    assert!(!is_file_stable(&sizes(&[1, 2, 2]), 2));
    assert!(is_file_stable(&sizes(&[1, 2, 2]), 3));
    assert!(!is_file_stable(&sizes(&[1, 2, 3, 3]), 3));
    assert!(!is_file_stable(&sizes(&[5, 5]), 1));
    assert!(!is_file_stable(&sizes(&[5, 5]), 0));
}

#[test]
fn too_few_samples_are_not_stable() {
    assert!(!is_file_stable(&sizes(&[]), 3));
    assert!(!is_file_stable(&sizes(&[5]), 3));
}

#[test]
fn file_that_cannot_be_examined_is_unstable() {
    assert!(!is_file_stable(&vec![None], 3));
    assert!(!is_file_stable(&vec![None, None], 3));
    assert!(!is_file_stable(&vec![None, None, None], 3));
    assert!(!is_file_stable(&vec![Some(5), None, Some(5), Some(5)], 4));
    assert!(!is_file_stable(&vec![None, Some(5), Some(5)], 3));
    assert!(is_file_stable(&vec![Some(5), Some(5), None], 3));
    let mut probe = StabilityProbe::new(3);
    assert_eq!(probe.observe(None), Verdict::Unstable);
}

#[test]
fn file_that_vanishes_between_samples_is_unstable() {
    let mut probe = StabilityProbe::new(3);
    assert_eq!(probe.observe(Some(100)), Verdict::Undecided);
    assert_eq!(probe.observe(None), Verdict::Unstable);
    assert_eq!(probe.observe(Some(100)), Verdict::Unstable);
    assert_eq!(probe.observe(Some(100)), Verdict::Unstable);
}

#[test]
fn verdict_stands_once_it_is_given() {
    let mut probe = StabilityProbe::new(3);
    probe.observe(Some(1));
    assert_eq!(probe.observe(Some(1)), Verdict::Stable);
    assert_eq!(probe.observe(Some(2)), Verdict::Stable);
    assert_eq!(probe.observe(None), Verdict::Stable);
    let mut spent = StabilityProbe::new(2);
    spent.observe(Some(1));
    assert_eq!(spent.observe(Some(2)), Verdict::Unstable);
    assert_eq!(spent.observe(Some(2)), Verdict::Unstable);
}

#[test]
fn probe_without_samples_to_take_is_unstable() {
    let mut probe = StabilityProbe::new(0);
    assert_eq!(probe.current(), Verdict::Unstable);
    assert_eq!(probe.observe(Some(1)), Verdict::Unstable);
    let mut single = StabilityProbe::new(1);
    assert_eq!(single.observe(Some(1)), Verdict::Unstable);
}

#[test]
fn record_and_probe_agree() {
    let records: Vec<Vec<Option<u64>>> = vec![
        vec![],
        vec![Some(1)],
        vec![Some(1), Some(1)],
        vec![Some(1), Some(2), Some(2)],
        vec![Some(1), Some(2), Some(3)],
        vec![Some(1), None, Some(1)],
        vec![None, Some(1), Some(1)],
        vec![Some(3), Some(2), Some(1), Some(1)],
    ];
    for record in &records {
        for checks in 0..6u32 {
            let mut probe = StabilityProbe::new(checks);
            for sample in record {
                probe.observe(*sample);
            }
            assert_eq!(is_file_stable(record, checks), probe.current() == Verdict::Stable);
        }
    }
}
