use leqtion::history::{SeriesInfo, SeriesKind};
use leqtion::logger::{
    column_ids, default_filename, header_cells, join_cells, metadata_lines, row_cells, row_slots, LogRows,
};
use leqtion::spl::TimeWeighting;
use leqtion::weighting::Weighting;

fn series() -> Vec<SeriesInfo> {
    vec![
        SeriesInfo::describe(SeriesKind::Spl { weighting: Weighting::A, time_weighting: TimeWeighting::Fast }),
        SeriesInfo::describe(SeriesKind::Leq { id: "one".into() }),
    ]
}

#[test]
fn the_default_filename_is_sortable_and_needs_no_quoting() {
    let name = default_filename("2026-08-01T12:34:56Z");
    assert_eq!(name, "leqtion-2026-08-01T12-34-56Z.csv");
    assert!(!name.contains(':') && !name.contains(' '));
}

#[test]
fn the_header_names_every_series_and_its_three_statistics() {
    let header = join_cells(&header_cells(&series()));
    assert_eq!(
        header,
        "elapsed_seconds,calibrated,dropped_frames,LAF_min,LAF_mean,LAF_max,LEQ one_min,LEQ one_mean,LEQ one_max"
    );
    let meta = metadata_lines("0.1.0", "2026-08-01T12:00:00Z", Some("Test Device"), "48000", "1", false);
    assert!(meta.iter().any(|l| l == "# level_unit_at_start,dBFS"));
}

#[test]
fn a_missing_series_is_written_empty_rather_than_zero() {
    let columns = column_ids(&series());
    assert_eq!(columns, vec!["spl:a:f".to_string(), "leq:one".to_string()]);
    // Only the first series reports this interval.
    let slots = row_slots(&columns, &vec!["spl:a:f".to_string()]);
    assert_eq!(slots, vec![Some(0), None]);
    let lead = vec!["1.000".to_string(), "0".to_string(), "0".to_string()];
    let values = vec![["-40.00".to_string(), "-35.00".to_string(), "-30.00".to_string()]];
    let row = join_cells(&row_cells(lead, &slots, &values));
    assert_eq!(row, "1.000,0,0,-40.00,-35.00,-30.00,,,");
    assert!(row.ends_with(",,,"));
}

#[test]
fn a_series_added_after_the_log_opened_does_not_widen_it() {
    let columns = column_ids(&series());
    let latest = vec!["leq:new".to_string(), "leq:one".to_string(), "spl:a:f".to_string()];
    let slots = row_slots(&columns, &latest);
    assert_eq!(slots, vec![Some(2), Some(1)]);
    let lead = vec!["2.000".to_string(), "1".to_string(), "4096".to_string()];
    let values = vec![
        ["1".to_string(), "2".to_string(), "3".to_string()],
        ["4".to_string(), "5".to_string(), "6".to_string()],
        ["7".to_string(), "8".to_string(), "9".to_string()],
    ];
    let cells = row_cells(lead, &slots, &values);
    assert_eq!(cells.len(), 3 + 3 * columns.len());
    assert_eq!(join_cells(&cells), "2.000,1,4096,7,8,9,4,5,6");
}

#[test]
fn the_metadata_names_the_unit_the_levels_start_in() {
    let lines = metadata_lines("0.1.0", "2026-08-01T12:00:00Z", Some("Test Device"), "48000", "1", false);
    assert_eq!(
        lines,
        vec![
            "# LEQtion 0.1.0",
            "# started,2026-08-01T12:00:00Z",
            "# device,Test Device",
            "# sample_rate_hz,48000",
            "# interval_seconds,1",
            "# level_unit_at_start,dBFS",
            "# note,levels are full-scale until calibrated; see the calibrated column",
            "# note,min and mean and max are over each interval; mean is an energy mean",
            "# note,any row where dropped_frames increases covers a period missing audio",
        ]
    );
    let calibrated = metadata_lines("0.1.0", "t", None, "44100", "0.5", true);
    assert_eq!(calibrated[2], "# device,unknown");
    assert_eq!(calibrated[5], "# level_unit_at_start,dB SPL");
}

#[test]
fn an_empty_interval_writes_no_row_and_counts_none() {
    let mut log = LogRows::open(&series());
    assert_eq!(log.rows(), 0);
    let lead = vec!["0.000".to_string(), "0".to_string(), "0".to_string()];
    assert_eq!(log.next_row(lead.clone(), &vec![], &vec![]), None);
    assert_eq!(log.rows(), 0);

    let ids = vec![log.columns()[1].clone()];
    let values = vec![["1.00".to_string(), "2.00".to_string(), "3.00".to_string()]];
    let row = log.next_row(lead, &ids, &values).expect("one point makes a row");
    assert_eq!(row, "0.000,0,0,,,,1.00,2.00,3.00");
    log.count_row();
    assert_eq!(log.rows(), 1);
}
