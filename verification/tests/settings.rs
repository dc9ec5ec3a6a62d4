use vqa40x::calpage::generate_page;
use vqa40x::config::{
    args_to_spec, cal_source, check_spec, file_page, first_duplicate, gen_numbers, load_registry,
    parse_gen, parse_model, parse_u16, resolve_serial, spec_to_options, CalSource, DeviceSpec,
    EmptyRegistry, EnvConfig, GenError, NoDevices, Settings, SpecError,
};
use vqa40x::options::{GenChannel, Model};
use vqa40x::registry::Release;
use vqa40x::text::IntError;

fn settings() -> Settings {
    Settings {
        model: Model::Qa403,
        vid: 0x16C0,
        pid: None,
        serial: None,
        fw_version: 60,
        post_flash_version: Some(61),
        registry: None,
        busid: "3-1".to_string(),
        no_realtime: true,
        latency_samples: 12,
        noise_dbfs: (-140.0f32).to_bits(),
        noise_seed: Some(5),
        no_loopback: false,
        loopback_gain_db: 0,
        h2_dbc: Some((-80.0f32).to_bits()),
        h3_dbc: None,
        gen: Some("1000:-10:left".to_string()),
        save_firmware: Some("flashes".to_string()),
        cal_page: None,
        flash_secs: 6.0f32.to_bits(),
        boot_bootloader: false,
    }
}

/// A specification that leaves everything out.
fn blank() -> DeviceSpec {
    DeviceSpec::default()
}

#[test]
fn models_parse_in_any_case() {
    assert_eq!(parse_model("qa402"), Ok(Model::Qa402));
    assert_eq!(parse_model("QA403"), Ok(Model::Qa403));
    assert_eq!(parse_model("qa401"), Err("expected qa402 or qa403".to_string()));
}

#[test]
fn ids_parse_like_integers() {
    assert_eq!(parse_u16("0x16C0"), Ok(0x16C0));
    assert_eq!(parse_u16(" 0Xffff\n"), Ok(0xFFFF));
    assert_eq!(parse_u16("+42"), Ok(42));
    for bad in ["", "0x", "0x1g", "-1", "+", "65536", "0x10000", "12 3"] {
        let t = bad.trim();
        let std = match t.strip_prefix("0x") {
            Some(hex) => u16::from_str_radix(hex, 16),
            None => t.parse(),
        };
        assert_eq!(parse_u16(bad), Err(std.unwrap_err().to_string()));
    }
}

#[test]
fn generators() {
    let f = Some(1000.0f32.to_bits());
    let l = Some((-10.0f32).to_bits());
    assert_eq!(
        gen_numbers("1000:-10:left"),
        Some(("1000".to_string(), "-10".to_string()))
    );
    assert_eq!(gen_numbers("1000"), None);
    assert_eq!(gen_numbers("1:2:3:4"), None);
    assert_eq!(parse_gen("1000:-10", f, l).unwrap().channel, GenChannel::Both);
    assert_eq!(parse_gen("1000:-10:LEFT", f, l).unwrap().channel, GenChannel::Left);
    assert_eq!(parse_gen("1000:-10:right", f, l).unwrap().channel, GenChannel::Right);
    let g = parse_gen("1000:-10:both", f, l).unwrap();
    assert_eq!((g.freq_hz, g.level_dbv, g.channel), (f.unwrap(), l.unwrap(), GenChannel::Both));
    assert!(matches!(parse_gen("1000", f, l), Err(GenError::Shape)));
    assert!(matches!(parse_gen("x:y:z", None, None), Err(GenError::Frequency)));
    assert!(matches!(parse_gen("1:y:z", f, None), Err(GenError::Level)));
    assert!(matches!(parse_gen("1:2:Mid", f, l), Err(GenError::Channel(c)) if c == "mid"));
}

#[test]
fn serials_are_fixed_or_drawn() {
    assert_eq!(resolve_serial(&None, 0x12), "0000_0012");
    assert_eq!(resolve_serial(&Some("Random".to_string()), 0x12), "0000_0012");
    assert_eq!(resolve_serial(&Some("dynamic".to_string()), 0x12), "0000_0012");
    assert_eq!(resolve_serial(&Some("AB12_CD34".to_string()), 0x12), "AB12_CD34");
}

#[test]
fn registries_must_hold_something() {
    let none = Release {
        firmware_version: None,
        images: vec!["ab".to_string()],
    };
    assert!(matches!(load_registry(&[none]), Err(EmptyRegistry)));
    let one = Release {
        firmware_version: Some("3".to_string()),
        images: vec!["ab".to_string()],
    };
    assert_eq!(load_registry(&[one]).unwrap().len(), 1);
}

#[test]
fn calibration_sources() {
    assert!(matches!(cal_source(&None), CalSource::Factory));
    assert!(matches!(cal_source(&Some("REAL".to_string())), CalSource::Factory));
    assert!(matches!(cal_source(&Some("random".to_string())), CalSource::Random));
    assert!(matches!(cal_source(&Some("p.bin".to_string())), CalSource::File(p) if p == "p.bin"));
    let page = generate_page(&[(0, 0); 8], &[(0, 0); 4]);
    assert!(matches!(file_page(&page), Some((p, true)) if p == page));
    assert!(matches!(file_page(&[1u8; 512]), Some((_, false))));
    assert!(file_page(&[0u8; 511]).is_none());
    assert!(file_page(&[0u8; 513]).is_none());
}

#[test]
fn environments_list_devices() {
    assert!(matches!(EnvConfig::load(Vec::new()), Err(NoDevices)));
    let spec = DeviceSpec {
        serial: Some("AB12_CD34".to_string()),
        ..blank()
    };
    let env = EnvConfig::load(vec![blank(), spec.clone()]).unwrap();
    let copy = env.clone();
    assert_eq!(copy.devices.len(), 2);
    assert_eq!(copy.devices[0].serial, None);
    assert_eq!(copy.devices[1].serial, spec.serial);
}

#[test]
fn blank_specs_are_defaults() {
    let spec = blank();
    let ids = check_spec(&spec, None, None).unwrap();
    let o = spec_to_options(&spec, 9, ids, 0xAB, None, None);
    assert_eq!((o.model, o.vid, o.pid), (Model::Qa402, 0x16C0, 0x4E37));
    assert_eq!((o.busid.as_str(), o.serial.as_str()), ("1-10", "0000_00AB"));
    assert_eq!((o.fw_version, o.latency_samples), (60, 1200));
    assert!(o.realtime && o.loopback && !o.boot_bootloader && o.generator.is_none());
    assert_eq!(f32::from_bits(o.noise_dbfs), -140.0);
}

#[test]
fn default_busids_differ() {
    let spec = blank();
    let ids = check_spec(&spec, None, None).unwrap();
    let busids: Vec<String> = (0..120)
        .map(|i| spec_to_options(&spec, i, ids, 1, None, None).busid)
        .collect();
    assert_eq!(first_duplicate(&busids), None);
    assert_eq!(busids[119], "1-120");
}

#[test]
fn specs_are_judged_in_order() {
    let mut spec = blank();
    spec.gen = Some("1".to_string());
    spec.pid = Some("0x".to_string());
    spec.vid = Some("x".to_string());
    spec.model = Some("QA999".to_string());
    assert!(matches!(check_spec(&spec, None, None), Err(SpecError::Model(m)) if m == "qa999"));
    spec.model = Some("QA403".to_string());
    assert!(matches!(check_spec(&spec, None, None), Err(SpecError::Vid(IntError::InvalidDigit))));
    spec.vid = Some("99999".to_string());
    assert!(matches!(check_spec(&spec, None, None), Err(SpecError::Vid(IntError::PosOverflow))));
    spec.vid = None;
    assert!(matches!(check_spec(&spec, None, None), Err(SpecError::Pid(IntError::Empty))));
    spec.pid = None;
    assert!(matches!(check_spec(&spec, None, None), Err(SpecError::Gen(GenError::Shape))));
    spec.gen = None;
    let ids = check_spec(&spec, None, None).unwrap();
    assert_eq!((ids.model, ids.pid), (Model::Qa403, 0x4E39));
}

#[test]
fn settings_reproduce_through_their_spec() {
    let a = settings();
    let spec = args_to_spec(&a);
    assert_eq!(spec.model.as_deref(), Some("qa403"));
    assert_eq!(spec.vid.as_deref(), Some("0x16C0"));
    assert_eq!(spec.pid, None);
    let f = Some(1000.0f32.to_bits());
    let l = Some((-10.0f32).to_bits());
    let ids = check_spec(&spec, f, l).unwrap();
    let o = spec_to_options(&spec, 0, ids, 1, None, None);
    assert_eq!((o.model, o.vid, o.pid), (Model::Qa403, 0x16C0, 0x4E39));
    assert_eq!(o.busid, "3-1");
    assert_eq!((o.realtime, o.loopback, o.latency_samples), (false, true, 12));
    assert_eq!((o.noise_seed, o.post_flash_version), (Some(5), Some(61)));
    assert_eq!(o.save_firmware.as_deref(), Some("flashes"));
    assert_eq!(f32::from_bits(o.flash_secs), 6.0);
    assert_eq!(o.generator.unwrap().channel, GenChannel::Left);
    let mut a = settings();
    a.pid = Some(0x00AB);
    assert_eq!(args_to_spec(&a).pid.as_deref(), Some("0x00AB"));
}

#[test]
fn duplicate_busids_are_found() {
    let ids = |v: &[&str]| v.iter().map(|s| s.to_string()).collect::<Vec<String>>();
    assert_eq!(first_duplicate(&ids(&["1-1", "1-2", "1-3"])), None);
    assert_eq!(first_duplicate(&ids(&["1-1", "1-2", "1-1", "1-2"])), Some(2));
    assert_eq!(first_duplicate(&[]), None);
}
