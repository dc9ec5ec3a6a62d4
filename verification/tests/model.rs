use sha2::{Digest, Sha256};
use vqa40x::calpage::{
    adc_trim_db, crc16_buypass, dac_trim_db, generate_page, page_crc_ok, trim_db, trim_draws,
    ADC_LEVELS_DBV, ADC_OFFSETS, DAC_LEVELS_DBV, DAC_OFFSETS, NOMINAL_ADC_DB, NOMINAL_DAC_DB,
};
use vqa40x::options::{random_serial, serial_value, Model, SimOptions};
use vqa40x::registry::{sha256_hex, FirmwareRegistry, Release};
use vqa40x::rng::{entropy_seed, splitmix64};
use vqa40x::stream::{encode_block, Stream};

fn unit(u: u64) -> f32 {
    u as f32 / (1u64 << 52) as f32 - 1.0
}

/// A page with realistic trims drawn from a seed.
fn random_page(seed: u64) -> [u8; 512] {
    let d = trim_draws(seed);
    let base = 8.75 + 0.04 * unit(d.adc_base);
    let slope = 0.020 + 0.003 * unit(d.adc_slope);
    let step = -0.167 + 0.02 * unit(d.atten_step);
    let mut adc = [(0u32, 0u32); 8];
    for (i, t) in adc.iter_mut().enumerate() {
        let atten = if i >= 4 { step } else { 0.0 };
        let l = base + slope * i as f32 + atten + 0.003 * unit(d.adc[i].0);
        let r = l + 0.002 * unit(d.adc[i].1);
        *t = (l.to_bits(), r.to_bits());
    }
    let dac_base = -0.30 + 0.06 * unit(d.dac_base);
    let rl = -0.055 + 0.004 * unit(d.rl_offset);
    let mut dac = [(0u32, 0u32); 4];
    for (i, t) in dac.iter_mut().enumerate() {
        let l = dac_base + 0.09 * unit(d.dac[i].0);
        let r = l + rl + 0.002 * unit(d.dac[i].1);
        *t = (l.to_bits(), r.to_bits());
    }
    generate_page(&adc, &dac)
}

#[test]
fn entropy_seeds_are_distinct() {
    // Same clock tick, same process: only the counter differs.
    assert_ne!(entropy_seed(5, 7, 0), entropy_seed(5, 7, 1));
    assert_eq!(entropy_seed(5, 7, 3), 0x5f4a_03d7_af68_447c);
}

#[test]
fn splitmix64_decorrelates_and_maps_zero_away() {
    assert_ne!(splitmix64(0), 0);
    assert_ne!(splitmix64(0), splitmix64(1));
}

#[test]
fn splitmix64_reference_values() {
    assert_eq!(splitmix64(0), 0xE220_A839_7B1D_CDAF);
    assert_eq!(splitmix64(1), 0x910A_2DEC_8902_5CC1);
}

#[test]
fn crc_check_value() {
    assert_eq!(crc16_buypass(b"123456789"), 0xFEE8);
    assert_eq!(crc16_buypass(b""), 0);
}

#[test]
fn generated_page_is_valid_and_distinct() {
    let a = random_page(1);
    let b = random_page(2);
    assert!(page_crc_ok(&a));
    assert!(page_crc_ok(&b));
    assert_ne!(a, b, "different seeds, different trims");

    let header = [
        0, 0, 0, 0, 76, 0, 0, 0, 50, 0, 0, 0, 0x23, 0, 0xAD, 0xDE, 8, 0, 0, 0, 4, 0, 0, 0,
    ];
    assert_eq!(&a[..0x18], &header, "header");
    assert_eq!(&a[0xA8..0xAC], &[0x11, 0, 0xAD, 0xDE], "end marker");
    assert_eq!(&a[0xAC..0x1FE], &[0u8; 0x152], "zero tail");
    for (i, &off) in ADC_OFFSETS.iter().enumerate() {
        assert_eq!(&a[off..off + 2], &ADC_LEVELS_DBV[i].to_le_bytes(), "ADC level");
        for ch in 0..2 {
            let v = f32::from_bits(trim_db(&a, off + 6 * ch).expect("plausible ADC trim"));
            assert!((8.0..9.5).contains(&v), "ADC trim {v}");
        }
    }
    for (i, &off) in DAC_OFFSETS.iter().enumerate() {
        assert_eq!(&a[off..off + 2], &DAC_LEVELS_DBV[i].to_le_bytes(), "DAC level");
        for ch in 0..2 {
            let v = f32::from_bits(trim_db(&a, off + 6 * ch).expect("plausible DAC trim"));
            assert!((-0.8..0.3).contains(&v), "DAC trim {v}");
        }
        let (l, r) = (trim_db(&a, off).unwrap(), trim_db(&a, off + 6).unwrap());
        assert!(f32::from_bits(r) < f32::from_bits(l), "R below L");
    }
}

#[test]
fn other_trims_make_another_page() {
    let (adc, dac) = ([(1u32, 2u32); 8], [(3u32, 4u32); 4]);
    let page = generate_page(&adc, &dac);
    assert_eq!(page, generate_page(&adc, &dac));
    for i in 0..8 {
        let mut other = adc;
        other[i].1 += 1;
        assert_ne!(page, generate_page(&other, &dac));
    }
    let mut other = dac;
    other[3].0 += 1;
    assert_ne!(page, generate_page(&adc, &other));
}

#[test]
fn page_draws_follow_the_seed() {
    let d = trim_draws(1);
    assert_eq!(d.adc_base, 5103132997656651);
    assert_eq!(d.adc_slope, 6717404888216029);
}

#[test]
fn every_flipped_bit_breaks_the_page() {
    let page = random_page(3);
    for at in [0usize, 30, 255, 509, 510, 511] {
        let mut tampered = page;
        tampered[at] ^= 1;
        assert!(!page_crc_ok(&tampered));
    }
}

#[test]
fn bursts_break_the_page() {
    let page = random_page(4);
    for (at, x, y) in [(40usize, 0x80u8, 0x05u8), (100, 1, 1), (508, 0xFF, 0xFF)] {
        let mut tampered = page;
        tampered[at] ^= x;
        tampered[at + 1] ^= y;
        assert!(!page_crc_ok(&tampered));
    }
}

#[test]
fn generated_trims_read_back() {
    let mut adc = [(0u32, 0u32); 8];
    adc[7] = (8.5f32.to_bits(), 8.25f32.to_bits());
    let mut dac = [(0u32, 0u32); 4];
    dac[2] = ((-0.5f32).to_bits(), (-0.75f32).to_bits());
    let page = generate_page(&adc, &dac);
    assert_eq!(adc_trim_db(&page, 7, 0), 8.5f32.to_bits());
    assert_eq!(adc_trim_db(&page, 7, 1), 8.25f32.to_bits());
    assert_eq!(dac_trim_db(&page, 2, 0), (-0.5f32).to_bits());
    assert_eq!(dac_trim_db(&page, 2, 1), (-0.75f32).to_bits());
}

/// Out-of-range or implausible records fall back to the nominal trims.
#[test]
fn fallback_on_bad_page() {
    let blank = [0u8; 512];
    // 0.0 dB is a valid (plausible) trim, so craft an implausible one.
    let mut bad = [0u8; 512];
    bad[26..30].copy_from_slice(&f32::NAN.to_le_bytes());
    assert_eq!(adc_trim_db(&bad, 0, 0), NOMINAL_ADC_DB);
    assert_eq!(adc_trim_db(&blank[..20], 0, 0), NOMINAL_ADC_DB, "truncated page");
    assert_eq!(dac_trim_db(&blank, 9, 0), NOMINAL_DAC_DB, "range out of bounds");
    assert_eq!(f32::from_bits(NOMINAL_ADC_DB), 8.75);
    assert_eq!(f32::from_bits(NOMINAL_DAC_DB), -0.30);
}

#[test]
fn implausible_magnitudes() {
    for (v, ok) in [
        (19.999f32, true),
        (20.0, false),
        (-20.0, false),
        (-19.5, true),
        (0.0, true),
        (f32::INFINITY, false),
        (f32::NEG_INFINITY, false),
    ] {
        let mut page = [0u8; 512];
        page[26..30].copy_from_slice(&v.to_le_bytes());
        assert_eq!(trim_db(&page, 24), if ok { Some(v.to_bits()) } else { None });
    }
}

#[test]
fn models() {
    assert_eq!(Model::Qa402.default_pid(), 0x4E37);
    assert_eq!(Model::Qa403.default_pid(), 0x4E39);
    assert_eq!(Model::Qa402.name(), "QA402");
    assert_eq!(Model::Qa403.product_string(), "QA403 Audio Analyzer");
    assert_eq!(Model::Qa402.max_rate_index(), 2);
    assert_eq!(Model::Qa403.max_rate_index(), 3);
}

#[test]
fn serial_numbers() {
    assert_eq!(serial_value("AB12_CD34"), 0xAB12_CD34);
    assert_eq!(serial_value("ab12cd34ffff"), 0xAB12_CD34);
    // Fewer than eight hex digits: a stable hash of the text.
    assert_eq!(serial_value("abc"), 0x1A47_E90B);
    let s = random_serial(0x1234_5678_9ABC_DEF0);
    assert_eq!(s, "9ABC_DEF0");
    assert_eq!(serial_value(&s), 0x9ABC_DEF0);
}

#[test]
fn default_options() {
    let o = SimOptions::default(0xDEAD_BEEF);
    assert_eq!(o.serial, "DEAD_BEEF");
    assert_eq!(o.serial_u32(), 0xDEAD_BEEF);
    assert_eq!((o.vid, o.pid), (0x16C0, 0x4E37));
    assert_eq!(o.fw_version, 60);
    assert_eq!(o.busid, "1-1");
    assert_eq!(o.latency_samples, 1200);
    assert_eq!(f32::from_bits(o.noise_dbfs), -140.0);
    assert!(o.realtime && o.loopback && !o.boot_bootloader);
    assert!(o.registry.is_none() && o.noise_seed.is_none());
}

/// Parse the host project's firmware-registry.json schema and resolve an
/// image by sha256.
#[test]
fn parses_registry_schema_and_resolves() {
    let image = b"fake sb2 image".to_vec();
    let sha: String = Sha256::digest(&image)
        .iter()
        .map(|b| format!("{b:02x}"))
        .collect();
    let json = format!(
        r#"{{
          "schema": "qa40x-firmware-registry/1",
          "releases": [
            {{"app_version": "1.223", "firmware_version": "60",
              "images": [{{"device": "QA402", "size": 14, "sha256": "{sha}"}}]}},
            {{"app_version": "0.983", "firmware_version": null, "images": []}}
          ]
        }}"#
    );
    let parsed: serde_json::Value = serde_json::from_str(&json).unwrap();
    let mut releases = Vec::new();
    for rel in parsed["releases"].as_array().unwrap() {
        let mut images = Vec::new();
        for img in rel["images"].as_array().unwrap() {
            images.push(img["sha256"].as_str().unwrap().to_string());
        }
        releases.push(Release {
            firmware_version: rel["firmware_version"].as_str().map(|v| v.to_string()),
            images,
        });
    }
    let reg = FirmwareRegistry::load(&releases);
    assert_eq!(reg.len(), 1);
    assert_eq!(reg.version_of(&image), Some(60));
    assert_eq!(reg.version_of(b"other"), None);
}

#[test]
fn digests_are_hex_in_lower_case() {
    assert_eq!(
        sha256_hex(b"abc"),
        "ba7816bf8f01cfea414140de5dae2223b00361a396177a9cb410ff61f20015ad"
    );
}

#[test]
fn registry_ignores_case_and_unusable_versions() {
    let upper = sha256_hex(b"image").to_ascii_uppercase();
    let one = Release {
        firmware_version: Some("58".to_string()),
        images: vec![upper.clone()],
    };
    let none = Release {
        firmware_version: Some("v59".to_string()),
        images: vec![sha256_hex(b"other")],
    };
    let reg = FirmwareRegistry::load(&[one, none]);
    assert_eq!(reg.len(), 1);
    assert_eq!(reg.version_of(b"image"), Some(58));
    assert_eq!(reg.version_of_sha(&upper), None);
    assert_eq!(reg.version_of(b"other"), None);
    assert!(FirmwareRegistry::default().is_empty());
}

#[test]
fn registry_keys_outside_ascii_are_lowered_too() {
    let rel = Release {
        firmware_version: Some("1".to_string()),
        images: vec!["\u{C4}B".to_string()],
    };
    let reg = FirmwareRegistry::load(&[rel]);
    assert_eq!(reg.version_of_sha(&"\u{E4}b".to_string()), Some(1));
    assert_eq!(reg.version_of_sha(&"\u{C4}B".to_string()), None);
}

#[test]
fn later_releases_win() {
    let sha = sha256_hex(b"x");
    let rel = |v: &str| Release {
        firmware_version: Some(v.to_string()),
        images: vec![sha.clone()],
    };
    let reg = FirmwareRegistry::load(&[rel("1"), rel("2")]);
    assert_eq!(reg.len(), 1);
    assert_eq!(reg.version_of(b"x"), Some(2));
}

#[test]
fn noise_draws_of_a_seed() {
    let mut s = Stream::new(0, 42, 0);
    let b = s.take_block(1);
    assert_eq!(
        b.draws,
        vec![8841890962199992, 3335108656935765, 3669145761613914, 4682315673567373]
    );
    assert_eq!(s.emitted(), 1);
}

#[test]
fn noise_varies_within_and_between_blocks() {
    let draws = |seed: u64| Stream::new(0, seed, 0).take_block(64).draws;
    for seed in [0u64, 1, 42, 0x61C8_8646_80B5_83EB] {
        for d in draws(seed).chunks_exact(4) {
            assert_ne!(d[..2], d[2..]);
        }
        assert_ne!(draws(seed)[..2], draws(seed + 1)[..2]);
    }
}

#[test]
fn registries_can_be_copied() {
    let release = Release {
        firmware_version: Some("7".to_string()),
        images: vec![sha256_hex(b"a"), sha256_hex(b"b")],
    };
    let reg = FirmwareRegistry::load(&[release]);
    let copy = reg.clone();
    assert_eq!(copy.len(), 2);
    assert_eq!(copy.version_of(b"b"), Some(7));
    let opts = SimOptions {
        registry: Some(reg),
        ..SimOptions::default(5)
    };
    let twin = opts.clone();
    assert_eq!(twin.serial, opts.serial);
    assert_eq!(twin.registry.unwrap().version_of(b"a"), Some(7));
}

#[test]
fn blocks_are_right_sample_first() {
    assert_eq!(
        encode_block(&[(1, -2)]),
        vec![0xFE, 0xFF, 0xFF, 0xFF, 1, 0, 0, 0]
    );
    assert_eq!(
        encode_block(&[(i32::MIN, i32::MAX)]),
        vec![0xFF, 0xFF, 0xFF, 0x7F, 0, 0, 0, 0x80]
    );
}

#[test]
fn loopback_follows_the_latency() {
    let frames = [(1, -1), (2, -2), (3, -3)];
    let mut s = Stream::new(2, 1, 0);
    s.queue_dac(&encode_block(&frames), 100);
    assert_eq!(s.missing_frames(4), 0);
    assert_eq!(s.missing_frames(7), 2);
    let b = s.take_block(4);
    assert_eq!(b.frames, vec![(0, 0), (0, 0), (1, -1), (2, -2)]);
    let b = s.take_block(2);
    assert_eq!(b.frames, vec![(3, -3), (0, 0)]);
}

#[test]
fn block_cuts_do_not_matter() {
    let frames = [(1, 10), (2, 20), (3, 30)];
    let mut whole = Stream::new(1, 9, 0);
    let mut cut = Stream::new(1, 9, 0);
    whole.queue_dac(&encode_block(&frames), 100);
    cut.queue_dac(&encode_block(&frames), 100);
    let w = whole.take_block(5);
    let a = cut.take_block(2);
    let b = cut.take_block(3);
    assert_eq!(w.frames, [a.frames, b.frames].concat());
    assert_eq!(w.draws, [a.draws, b.draws].concat());
}

#[test]
fn interleaved_writes_and_reads_keep_their_order() {
    let frames: Vec<(i32, i32)> = (1..=12).map(|i| (i, -i)).collect();
    let mut s = Stream::new(2, 1, 0);
    let mut heard = Vec::new();
    for part in frames.chunks(4) {
        s.queue_dac(&encode_block(part), 100);
        heard.extend(s.take_block(3).frames);
        assert_eq!(s.missing_frames(1), 0);
        heard.extend(s.take_block(1).frames);
    }
    assert_eq!(heard[..2], [(0, 0); 2]);
    assert_eq!(heard[2..], frames[..10]);
    assert_eq!(s.take_block(2).frames, frames[10..]);
}

#[test]
fn dac_queue_drops_the_oldest() {
    let mut s = Stream::new(0, 1, 0);
    s.queue_dac(&encode_block(&[(1, 1), (2, 2)]), 2);
    assert!(!s.has_overflowed());
    s.queue_dac(&encode_block(&[(3, 3)]), 2);
    assert!(s.has_overflowed());
    assert_eq!(s.take_block(3).frames, vec![(2, 2), (3, 3), (0, 0)]);
    // A part of a frame is ignored.
    s.queue_dac(&[1, 2, 3, 4, 5, 6, 7], 2);
    assert_eq!(s.take_block(1).frames, vec![(0, 0)]);
}
