use leqtion::history::{bucket_ranges, PointLog, SeriesInfo, SeriesKind};
use leqtion::keyed::match_by_id;
use leqtion::spl::TimeWeighting;
use leqtion::weighting::Weighting;

#[test]
fn ids_and_labels_are_what_a_meter_would_call_them() {
    let spl = SeriesKind::Spl {
        weighting: Weighting::A,
        time_weighting: TimeWeighting::Fast,
    };
    assert_eq!(spl.id(), "spl:a:f");
    assert_eq!(spl.label(), "LAF");

    let peak = SeriesKind::Peak {
        weighting: Weighting::C,
    };
    assert_eq!(peak.id(), "peak:c");
    assert_eq!(peak.label(), "LCpeak");
}

#[test]
fn a_leq_series_is_keyed_by_its_own_id() {
    let kind = SeriesKind::Leq { id: "leq-a".into() };
    let info = SeriesInfo::describe(kind.clone());
    assert_eq!(info.id, "leq:leq-a");
    assert_eq!(info.label, "LEQ leq-a");
    assert_eq!(info.kind, kind);
    let slow_z = SeriesKind::Spl { weighting: Weighting::Z, time_weighting: TimeWeighting::Impulse };
    assert_eq!(slow_z.id(), "spl:z:i");
    assert_eq!(slow_z.label(), "LZI");
}

#[test]
fn adding_a_series_keeps_the_history_of_the_others() {
    let existing = vec!["spl:a:f".to_string()];
    let wanted = vec!["spl:a:f".to_string(), "leq:new".to_string()];
    let plan = match_by_id(&existing, &wanted);
    assert_eq!(plan, vec![Some(0), None]);
}

#[test]
fn reconciling_by_id_reuses_each_old_entry_once() {
    let existing: Vec<String> = ["a", "b", "a", "c"].iter().map(|s| s.to_string()).collect();
    let wanted: Vec<String> = ["c", "a", "a", "a", "d"].iter().map(|s| s.to_string()).collect();
    assert_eq!(match_by_id(&existing, &wanted), vec![Some(3), Some(0), Some(2), None, None]);
    assert_eq!(match_by_id(&existing, &Vec::new()), Vec::<Option<usize>>::new());
    assert_eq!(match_by_id(&Vec::new(), &wanted), vec![None; 5]);
}

#[test]
fn downsampling_keeps_the_extremes() {
    // A hundred points shown in ten: ten buckets of ten, covering every point.
    let buckets = bucket_ranges(100, 10).expect("more points than fit");
    assert_eq!(buckets.len(), 10);
    assert_eq!(buckets[0], (0, 10));
    assert_eq!(buckets[9], (90, 100));
    // The point at 57 (where a spike would be) lands in exactly one bucket.
    assert_eq!(buckets.iter().filter(|(a, b)| *a <= 57 && 57 < *b).count(), 1);
}

#[test]
fn buckets_round_up_and_never_exceed_the_request() {
    // 101 points in 10: eleven per bucket, so only ten buckets, the last short.
    let buckets = bucket_ranges(101, 10).unwrap();
    assert_eq!(buckets.len(), 10);
    assert_eq!(buckets[0], (0, 11));
    assert_eq!(buckets[9], (99, 101));
    for w in buckets.windows(2) {
        assert_eq!(w[0].1, w[1].0);
    }
    // Points that already fit are shown as they are.
    assert_eq!(bucket_ranges(10, 10), None);
    assert_eq!(bucket_ranges(0, 0), None);
    assert_eq!(bucket_ranges(1, 0), None);
    // A request for no points is a request for one.
    assert_eq!(bucket_ranges(5, 0), Some(vec![(0, 5)]));
}

#[test]
fn the_span_bounds_what_is_kept() {
    let mut log = PointLog::new();
    for i in 0..20 {
        log.push(i, 5);
    }
    assert_eq!(log.len(), 5);
    assert_eq!(log.last(), Some(&19));
    assert_eq!(log.get(0), Some(&15));
    assert_eq!(log.get(5), None);
    log.keep_latest(2);
    assert_eq!(log.len(), 2);
    assert_eq!(log.get(0), Some(&18));
    log.clear();
    assert_eq!(log.last(), None);
}

#[test]
fn every_series_kind_has_its_own_id() {
    let mut kinds = Vec::new();
    for w in [Weighting::A, Weighting::C, Weighting::Z] {
        for t in [TimeWeighting::Fast, TimeWeighting::Slow, TimeWeighting::Impulse] {
            kinds.push(SeriesKind::Spl { weighting: w, time_weighting: t });
        }
        kinds.push(SeriesKind::Peak { weighting: w });
    }
    kinds.push(SeriesKind::Leq { id: "a".into() });
    kinds.push(SeriesKind::Leq { id: "b".into() });
    for (i, a) in kinds.iter().enumerate() {
        for (j, b) in kinds.iter().enumerate() {
            assert_eq!(a.id() == b.id(), i == j, "{} and {}", a.id(), b.id());
        }
    }
}
