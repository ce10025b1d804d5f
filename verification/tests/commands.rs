use leqtion::commands::{is_synthetic_source, refuse_calibration_without_a_microphone, NOT_A_MICROPHONE};
use leqtion::session::SessionStatus;
use leqtion::synthetic::HOST_ID;

#[test]
fn the_generator_is_recognised_as_not_a_microphone() {
    assert!(is_synthetic_source(Some(HOST_ID)));
    assert!(is_synthetic_source(Some("generator")));
}

/// The check must not accidentally cover a real input.
#[test]
fn a_real_host_is_still_calibratable() {
    assert!(!is_synthetic_source(Some("CoreAudio")));
    assert!(!is_synthetic_source(Some("WASAPI")));
    assert!(!is_synthetic_source(Some("Asio")));
    assert!(!is_synthetic_source(None));
}

#[test]
fn calibrating_against_the_generator_is_refused_with_a_reason() {
    assert_eq!(refuse_calibration_without_a_microphone(Some("Generator")), Err(NOT_A_MICROPHONE.to_string()));
    assert_eq!(refuse_calibration_without_a_microphone(Some("CoreAudio")), Ok(()));
    assert_eq!(refuse_calibration_without_a_microphone(None), Ok(()));
}

#[test]
fn an_idle_session_has_dropped_nothing() {
    let idle = SessionStatus::from_counters(None, None);
    assert!(!idle.running);
    assert_eq!(idle.dropped_frames, 0);
    let busy = SessionStatus::from_counters(Some((4096, 2)), None);
    assert!(busy.running);
    assert_eq!(busy.dropped_frames, 4096);
    assert_eq!(busy.stream_errors, 2);
}
