use leqtion::text::to_ascii_lowercase;
use leqtion::audio::{
    choose_device, describe_devices, devices, find_host, friendly_host_name, hosts,
    open, open_output, output_devices, ring_capacity, ring_split, settle_config, AudioError,
    CaptureOptions, CapturePlan, ConfigRange, DeviceChoice, DeviceLookup, DeviceReport,
    HostChoice, HostListing, OutputOptions, OFFERED_RATES,
};
use leqtion::audio_session::prepare_for_measurement;
use leqtion::profiles::{
    current_input_path, profile_for, InputPath, ANDROID_UNPROCESSED_OFFSET_DB,
    CDD_REFERENCE_DBFS, CDD_REFERENCE_SPL_DB, IOS_PROFILES,
};
use leqtion::synthetic::{self, is_host, HOST_ID, HOST_NAME, SIGNAL_NAMES};

fn ids(list: &[&str]) -> Vec<String> {
    list.iter().map(|s| s.to_string()).collect()
}

fn range(channels: u16, min: u32, max: u32) -> ConfigRange {
    ConfigRange { channels, min_sample_rate: min, max_sample_rate: max }
}

#[test]
fn android_offset_matches_the_published_figures() {
    // Both halves of the requirement, checked against each other: RMS 520 of
    // a full-scale 16-bit sample is the stated -36 dBFS.
    let from_rms = 20.0 * (520.0f64 / 32768.0).log10();
    assert!(
        (from_rms - CDD_REFERENCE_DBFS as f64).abs() < 0.02,
        "RMS 520 is {from_rms} dBFS, not {CDD_REFERENCE_DBFS}"
    );
    assert_eq!(ANDROID_UNPROCESSED_OFFSET_DB, 130);
    assert_eq!(CDD_REFERENCE_SPL_DB - CDD_REFERENCE_DBFS, ANDROID_UNPROCESSED_OFFSET_DB);
}

#[test]
fn a_profile_is_not_a_calibrator_run() {
    let profile = profile_for(InputPath::AndroidUnprocessed).expect("android profile");
    assert_eq!(profile.source, leqtion::profiles::CalibrationSource::PlatformSpec);
    assert!(
        !profile.source.is_unit_specific(),
        "a platform guarantee describes a class of devices, not this one"
    );
    assert_eq!(profile.offset_db, 130);
}

#[test]
fn an_unknown_path_yields_dbfs() {
    assert_eq!(profile_for(InputPath::Unknown), None);
}

#[test]
fn nothing_claims_a_known_gain_until_the_port_lands() {
    assert_eq!(current_input_path(), InputPath::Unknown);
    assert_eq!(profile_for(current_input_path()), None);
}

#[test]
fn the_ios_table_is_empty_rather_than_guessed() {
    assert!(IOS_PROFILES.is_empty());
}

#[test]
fn the_generator_host_is_recognised_by_id() {
    assert!(is_host(Some(HOST_ID)));
    assert!(is_host(Some("generator")));
    assert!(!is_host(Some("CoreAudio")));
    assert!(!is_host(None));
}

#[test]
fn the_generator_is_listed_last_and_never_the_default() {
    let list = hosts(&ids(&["CoreAudio"]), &"CoreAudio".to_string(), false);
    assert_eq!(list.len(), 2);
    let last = list.last().unwrap();
    assert_eq!(last.id, HOST_ID);
    assert_eq!(last.name, HOST_NAME);
    assert!(last.available);
    assert!(!last.is_default);
    assert!(last.note.is_some());
}

#[test]
fn every_host_has_a_friendly_name() {
    for on_windows in [false, true] {
        let list = hosts(&ids(&["Wasapi", "Jack"]), &"Wasapi".to_string(), on_windows);
        for h in &list {
            assert!(!h.name.is_empty());
            assert!(!h.id.is_empty());
            if !h.available {
                assert!(h.note.is_some(), "{} is unavailable with no reason", h.name);
            }
        }
        assert!(list.iter().any(|h| h.is_default && h.available));
    }
}

#[test]
fn a_windows_build_without_asio_says_so() {
    let list = hosts(&ids(&["Wasapi"]), &"Wasapi".to_string(), true);
    assert_eq!(list.len(), 3);
    assert_eq!(list[0].name, "WASAPI");
    assert!(list[0].is_default);
    assert_eq!(list[1].id, "Asio");
    assert_eq!(list[1].name, "ASIO");
    assert!(!list[1].available);
    assert!(list[1].note.as_deref().unwrap().contains("ASIO SDK"));
    assert_eq!(
        list[1].note.as_deref(),
        Some(
            "This build was compiled without ASIO. It needs the Steinberg ASIO SDK, \
             which cannot be redistributed — see docs/asio.md."
        )
    );

    // With ASIO compiled in, nothing extra is listed.
    let with_asio = hosts(&ids(&["Wasapi", "Asio"]), &"Wasapi".to_string(), true);
    assert_eq!(with_asio.len(), 3);
    assert!(with_asio.iter().all(|h| h.available));
    // And off Windows, never.
    assert_eq!(hosts(&ids(&["Alsa"]), &"Alsa".to_string(), false).len(), 2);
}

#[test]
fn host_names_read_the_way_the_apis_spell_them() {
    assert_eq!(friendly_host_name("CoreAudio"), "Core Audio");
    assert_eq!(friendly_host_name("Wasapi"), "WASAPI");
    assert_eq!(friendly_host_name("ASIO"), "ASIO");
    assert_eq!(friendly_host_name("Alsa"), "ALSA");
    assert_eq!(friendly_host_name("Jack"), "JACK");
    assert_eq!(friendly_host_name("PulseAudio"), "pulseaudio");
}

#[test]
fn an_unknown_host_is_an_error_not_a_panic() {
    let available = ids(&["Alsa", "Jack"]);
    assert!(matches!(
        find_host(Some("definitely-not-a-host"), &available),
        Err(AudioError::UnknownHost(_))
    ));
    assert!(matches!(
        devices(Some("definitely-not-a-host"), &available),
        DeviceLookup::Listed(Err(_))
    ));
}

#[test]
fn hosts_are_found_whatever_the_case() {
    let available = ids(&["Alsa", "Jack"]);
    assert_eq!(find_host(Some("JACK"), &available), Ok(HostChoice::Available(1)));
    assert_eq!(find_host(None, &available), Ok(HostChoice::Default));
    assert!(matches!(devices(Some("jack"), &available), DeviceLookup::Enumerate(HostChoice::Available(1))));
    assert!(matches!(output_devices(Some("Generator"), &available), DeviceLookup::Listed(Err(AudioError::UnknownHost(_)))));
}

#[test]
fn the_generator_lists_its_signals_as_devices() {
    match devices(Some("GENERATOR"), &Vec::new()) {
        DeviceLookup::Listed(Ok(list)) => {
            assert_eq!(list.len(), 4);
            assert_eq!(list.iter().filter(|d| d.is_default).count(), 1);
            assert!(list[0].is_default);
            assert_eq!(list[0].name, "Pink noise at -20 dBFS");
            assert_eq!(list[3].name, "Log sweep 20 Hz to 20 kHz at -20 dBFS");
            for d in &list {
                assert_eq!(d.host, HOST_ID);
                assert_eq!(d.max_channels, 1);
                assert_eq!(d.sample_rates, OFFERED_RATES.to_vec());
                assert_eq!(d.default_sample_rate, 48000);
            }
        }
        _ => panic!("the generator must answer without a driver"),
    }
}

fn report(name: Option<&str>, configs: Option<Vec<ConfigRange>>, default: Option<u32>) -> DeviceReport {
    DeviceReport {
        name: name.map(|s| s.to_string()),
        configs,
        default_sample_rate: default,
    }
}

#[test]
fn devices_are_described_consistently() {
    let listing = HostListing {
        host: "CoreAudio".into(),
        default_device: Some("Interface".into()),
        devices: Ok(vec![
            report(Some("Built-in"), Some(vec![range(2, 44100, 48000)]), Some(44100)),
            report(None, Some(vec![range(2, 8000, 192000)]), Some(48000)),
            report(Some("Broken"), None, Some(48000)),
            report(Some("Empty"), Some(vec![]), Some(48000)),
            report(
                Some("Interface"),
                Some(vec![range(2, 8000, 96000), range(8, 96000, 192000)]),
                None,
            ),
            report(Some("Odd"), Some(vec![range(1, 22050, 22050)]), Some(22050)),
            report(Some(""), Some(vec![range(2, 44100, 48000)]), Some(48000)),
            report(Some("Mute"), Some(vec![range(0, 44100, 48000)]), Some(48000)),
        ]),
    };
    let list = describe_devices(&listing).expect("three usable devices");
    assert_eq!(list.len(), 3);
    assert_eq!(list[0].name, "Built-in");
    assert_eq!(list[0].sample_rates, vec![44100, 48000]);
    assert_eq!(list[0].max_channels, 2);
    assert!(!list[0].is_default);
    assert_eq!(list[1].name, "Interface");
    assert_eq!(list[1].max_channels, 8);
    assert_eq!(list[1].default_sample_rate, 48000, "no default config reads as 48 kHz");
    assert_eq!(list[1].sample_rates, OFFERED_RATES.to_vec());
    assert!(list[1].is_default);
    assert_eq!(list[2].sample_rates, vec![22050], "the device's own default is always offered");
    for d in list {
        assert!(!d.name.is_empty());
        assert!(d.max_channels > 0, "{} claims no channels", d.name);
        assert!(!d.sample_rates.is_empty(), "{} offers no sample rates", d.name);
        assert!(d.sample_rates.contains(&d.default_sample_rate));
        assert!(d.sample_rates.windows(2).all(|w| w[0] < w[1]));
        assert_eq!(d.host, "CoreAudio");
    }
}

#[test]
fn a_host_with_nothing_usable_has_no_devices() {
    let listing = HostListing {
        host: "Alsa".into(),
        default_device: None,
        devices: Ok(vec![report(None, None, None)]),
    };
    assert!(matches!(describe_devices(&listing), Err(AudioError::NoDevices)));
    let failing = HostListing {
        host: "Alsa".into(),
        default_device: None,
        devices: Err("device busy".into()),
    };
    match describe_devices(&failing) {
        Err(AudioError::Backend(e)) => assert_eq!(e, "device busy"),
        other => panic!("expected a backend error, got {other:?}"),
    }
}

#[test]
fn opening_a_device_that_does_not_exist_fails_cleanly() {
    let names = vec![Some("Built-in".to_string()), None, Some("Interface".to_string())];
    assert!(matches!(
        choose_device(Some("no such interface"), &names, true, false),
        Err(AudioError::UnknownDevice(_))
    ));
    assert!(matches!(
        choose_device(Some("no such interface"), &names, true, true),
        Err(AudioError::UnknownOutputDevice(_))
    ));
    assert_eq!(choose_device(Some("Interface"), &names, true, false), Ok(DeviceChoice::Listed(2)));
    assert_eq!(choose_device(None, &names, true, false), Ok(DeviceChoice::Default));
    assert!(matches!(choose_device(None, &names, false, false), Err(AudioError::NoDevices)));
}

#[test]
fn a_rate_the_device_lacks_is_refused() {
    let configs = vec![range(2, 44100, 48000), range(1, 96000, 96000)];
    assert_eq!(settle_config("Mic", None, 48000, 2, &configs), Ok(48000));
    assert_eq!(settle_config("Mic", Some(44100), 48000, 2, &configs), Ok(44100));
    match settle_config("Mic", Some(96000), 48000, 2, &configs) {
        Err(e @ AudioError::UnsupportedConfig { .. }) => {
            assert_eq!(e.message(), "Mic cannot run at 96000 Hz with 2 channels");
        }
        other => panic!("expected a refusal, got {other:?}"),
    }
}

#[test]
fn errors_read_as_sentences() {
    assert_eq!(AudioError::UnknownHost("x".into()).message(), "no audio host named x");
    assert_eq!(AudioError::UnknownDevice("Mic".into()).message(), "no input device named Mic");
    assert_eq!(
        AudioError::UnknownOutputDevice("Out".into()).message(),
        "no output device named Out"
    );
    assert_eq!(AudioError::NoDevices.message(), "the host has no input devices");
    assert_eq!(AudioError::Backend("gone".into()).message(), "audio backend: gone");
}

#[test]
fn the_ring_holds_two_seconds_and_counts_what_will_not_fit() {
    assert_eq!(ring_capacity(48000, 2), 192000);
    assert_eq!(ring_capacity(44100, 1), 88200);
    assert_eq!(ring_split(100, 40), (40, 0));
    assert_eq!(ring_split(30, 40), (30, 10));
    assert_eq!(ring_split(0, 40), (0, 40));
}

#[test]
fn opening_the_generator_never_asks_the_driver() {
    let opts = CaptureOptions {
        host: Some(HOST_ID.into()),
        device: Some(SIGNAL_NAMES[2].into()),
        sample_rate: Some(96000),
        buffer_frames: None,
    };
    match open(&opts, &Vec::new()) {
        Ok(CapturePlan::Synthetic(o)) => {
            assert_eq!(o.signal, 2);
            assert_eq!(o.device, "1 kHz sine at -20 dBFS");
            assert_eq!(o.sample_rate, 96000);
        }
        other => panic!("expected the generator, got {other:?}"),
    }
    let real = CaptureOptions { host: Some("alsa".into()), ..Default::default() };
    assert!(matches!(open(&real, &ids(&["Alsa"])), Ok(CapturePlan::Device(HostChoice::Available(0)))));
    assert!(matches!(
        open_output(&OutputOptions { host: Some("Generator".into()), ..Default::default() }, &ids(&["Alsa"])),
        Err(AudioError::UnknownHost(_))
    ));
    assert!(prepare_for_measurement().is_ok());
}

#[test]
fn a_signal_that_does_not_exist_is_an_error_not_a_panic() {
    let opts = CaptureOptions {
        host: Some(HOST_ID.into()),
        device: Some("Brown noise".into()),
        ..Default::default()
    };
    assert!(matches!(synthetic::open(&opts), Err(AudioError::UnknownDevice(_))));
}

#[test]
fn a_rate_nothing_offers_is_refused_rather_than_silently_substituted() {
    let opts = CaptureOptions {
        host: Some(HOST_ID.into()),
        device: None,
        sample_rate: Some(22_050),
        buffer_frames: None,
    };
    assert!(matches!(
        synthetic::open(&opts),
        Err(AudioError::UnsupportedConfig { .. })
    ));
}

#[test]
fn every_signal_is_offered_as_a_device_that_can_be_opened() {
    let devices = synthetic::devices();
    assert_eq!(devices.len(), SIGNAL_NAMES.len());
    assert!(devices.iter().filter(|d| d.is_default).count() == 1);

    for device in devices {
        for &rate in &device.sample_rates {
            let opts = CaptureOptions {
                host: Some(HOST_ID.into()),
                device: Some(device.name.clone()),
                sample_rate: Some(rate),
                buffer_frames: None,
            };
            let opened = synthetic::open(&opts).expect("the generator must open");
            assert_eq!(opened.device, device.name);
            assert_eq!(opened.sample_rate, rate);
            let info = opened.stream_info();
            assert_eq!(info.host, "Generator");
            assert_eq!(info.device, device.name);
            assert_eq!(info.channels, 1);
            assert_eq!(info.sample_rate, rate);
            assert_eq!(info.sample_format, "F32 (generated)");
        }
    }

    let opts = CaptureOptions {
        host: Some(HOST_ID.into()),
        device: None,
        sample_rate: None,
        buffer_frames: None,
    };
    let info = synthetic::open(&opts).expect("the generator must open").stream_info();
    assert_eq!(info.device, "Pink noise at -20 dBFS");
    assert_eq!(info.sample_rate, 48_000);
}

#[test]
fn listed_hosts_can_be_reopened_by_their_id() {
    let available = ids(&["CoreAudio", "Jack"]);
    let list = hosts(&available, &"Jack".to_string(), false);
    for (i, h) in list.iter().take(available.len()).enumerate() {
        assert_eq!(find_host(Some(&h.id), &available), Ok(HostChoice::Available(i)));
    }
    assert!(list[1].is_default);
    assert!(!list[0].is_default);
}

#[test]
fn ascii_lower_casing_leaves_everything_but_a_to_z_alone() {
    assert_eq!(to_ascii_lowercase("CoreAudio"), "coreaudio");
    assert_eq!(to_ascii_lowercase("ÄZ@[`a1 "), "Äz@[`a1 ");
    assert_eq!(to_ascii_lowercase(""), "");
}
