use leqtion::settings::CalibrationBook;

fn names(book: CalibrationBook<i32>) -> Vec<(String, i32)> {
    book.into_entries()
}

#[test]
fn a_stored_calibration_is_found_by_its_device() {
    let mut book: CalibrationBook<i32> = CalibrationBook::new();
    assert_eq!(book.calibration_for("UMIK-1"), None);
    book.set_calibration("UMIK-1".to_string(), 7);
    assert_eq!(book.calibration_for("UMIK-1"), Some(&7));
    assert_eq!(book.calibration_for("umik-1"), None);
    assert_eq!(book.len(), 1);
}

#[test]
fn storing_again_replaces_the_device_entry_and_keeps_the_others() {
    let mut book: CalibrationBook<i32> = CalibrationBook::new();
    book.set_calibration("A".to_string(), 1);
    book.set_calibration("B".to_string(), 2);
    book.set_calibration("A".to_string(), 3);
    assert_eq!(book.calibration_for("A"), Some(&3));
    assert_eq!(book.calibration_for("B"), Some(&2));
    assert_eq!(names(book), vec![("B".to_string(), 2), ("A".to_string(), 3)]);
}

#[test]
fn a_file_with_duplicates_answers_with_the_first_and_collapses_on_store() {
    let read_back = vec![
        ("A".to_string(), 1),
        ("B".to_string(), 2),
        ("A".to_string(), 9),
    ];
    let mut book = CalibrationBook::from_entries(read_back);
    assert_eq!(book.calibration_for("A"), Some(&1));
    book.set_calibration("A".to_string(), 4);
    assert_eq!(names(book), vec![("B".to_string(), 2), ("A".to_string(), 4)]);
}

#[test]
fn clearing_a_device_forgets_only_that_device() {
    let mut book: CalibrationBook<i32> = CalibrationBook::new();
    book.set_calibration("A".to_string(), 1);
    book.set_calibration("B".to_string(), 2);
    book.clear_calibration("A");
    assert_eq!(book.calibration_for("A"), None);
    assert_eq!(book.calibration_for("B"), Some(&2));
    book.clear_calibration("nothing stored");
    assert_eq!(book.len(), 1);
}

#[test]
fn calibrations_are_keyed_by_device() {
    let mut s: CalibrationBook<f64> = CalibrationBook::new();
    s.set_calibration("Scarlett 2i2".to_string(), -26.0);
    s.set_calibration("Built-in Microphone".to_string(), -30.0);
    assert_eq!(s.len(), 2);

    // Recalibrating the same device replaces rather than accumulates.
    s.set_calibration("Scarlett 2i2".to_string(), -24.0);
    assert_eq!(s.len(), 2);
    assert!((s.calibration_for("Scarlett 2i2").unwrap() - -24.0).abs() < 1e-12);
    assert!(s.calibration_for("nothing plugged in").is_none());
}
