use vqa40x::analyzer::{AdcAction, AdcPhase, Analyzer};
use vqa40x::backend::{
    InStep, Moment, SetupPacket, Stall, Telemetry, UsbBackend, UsbSpeed,
};
use vqa40x::bootloader::{is_data_report, Bootloader};
use vqa40x::options::{Model, SimOptions};
use vqa40x::sim::SimEvent;
use vqa40x::stream::{encode_block, Block};

fn moment(now: u64, seed: u64) -> Moment {
    Moment {
        now,
        telemetry: Telemetry {
            usb_voltage: 4952,
            usb_current: 788,
            iso_current: 534,
            temperature: 250,
        },
        seed,
    }
}

fn analyzer(noise_seed: Option<u64>) -> Analyzer {
    let opts = SimOptions {
        realtime: false,
        loopback: false,
        noise_dbfs: (-60.0f32).to_bits(),
        noise_seed,
        ..SimOptions::default(1)
    };
    Analyzer::new(&opts, 60, &[0u8; 512])
}

fn gauss(u1: u64, u2: u64) -> f32 {
    let u1 = u1 as f64 / (1u64 << 53) as f64;
    let u2 = u2 as f64 / (1u64 << 53) as f64;
    ((-2.0 * u1.ln()).sqrt() * (std::f64::consts::TAU * u2).cos()) as f32
}

/// Pure noise at -60 dBFS: no loopback, no generator.
fn noise(block: &Block) -> Vec<u8> {
    let rms = 10f32.powf(-60.0 / 20.0);
    let sample = |u1: u64, u2: u64| ((rms * gauss(u1, u2)).clamp(-1.0, 1.0) * 2_147_483_647.0) as i32;
    let frames: Vec<(i32, i32)> = block
        .draws
        .chunks_exact(4)
        .map(|d| (sample(d[0], d[1]), sample(d[2], d[3])))
        .collect();
    encode_block(&frames)
}

/// One start, block, stop cycle over the register bus, returning the raw ADC
/// bytes.
fn one_acquisition(a: &mut Analyzer, n: usize, m: &Moment) -> Vec<u8> {
    a.handle_frame(&[0x08, 0, 0, 0, 5], m);
    let block = a.produce_adc_block(n).unwrap();
    a.handle_frame(&[0x08, 0, 0, 0, 0], m);
    noise(&block)
}

#[test]
fn unseeded_streams_differ() {
    let mut a = analyzer(None);
    let first = one_acquisition(&mut a, 256, &moment(0, 11));
    let second = one_acquisition(&mut a, 256, &moment(0, 12));
    assert_ne!(first, second);
}

#[test]
fn seeded_streams_replay() {
    let mut a = analyzer(Some(42));
    let first = one_acquisition(&mut a, 256, &moment(0, 11));
    let second = one_acquisition(&mut a, 256, &moment(5, 12));
    assert_eq!(first, second);
}

#[test]
fn seed_zero_is_valid() {
    let mut a = analyzer(Some(0));
    let block = one_acquisition(&mut a, 256, &moment(0, 11));
    let first = &block[..4];
    assert!(
        block.chunks_exact(4).any(|s| s != first),
        "seed 0 must still produce varying noise, not a stuck RNG"
    );
}

fn write(a: &mut Analyzer, reg: u8, v: u32, m: &Moment) {
    let mut frame = vec![reg];
    frame.extend_from_slice(&v.to_be_bytes());
    assert_eq!(a.out_transfer(0x01, &frame, m), Ok(5));
}

fn read(a: &mut Analyzer, reg: u8, m: &Moment) -> u32 {
    assert_eq!(a.out_transfer(0x01, &[reg | 0x80, 0, 0, 0, 0], m), Ok(5));
    match a.in_transfer(0x81, 512) {
        Ok(InStep::Data(d)) => u32::from_be_bytes([d[0], d[1], d[2], d[3]]),
        other => panic!("no reply: {other:?}"),
    }
}

#[test]
fn registers() {
    let m = moment(0, 0);
    let opts = SimOptions {
        serial: "AB12_CD34".to_string(),
        ..SimOptions::default(1)
    };
    let mut a = Analyzer::new(&opts, 60, &[0u8; 512]);
    assert_eq!(read(&mut a, 0x05, &m), 7);
    assert_eq!(read(&mut a, 0x06, &m), 0);
    write(&mut a, 0x00, 0xA5A5_0FF0, &m);
    assert_eq!(read(&mut a, 0x00, &m), 0xA5A5_0FF0);
    assert_eq!(read(&mut a, 0x10, &m), 60);
    assert_eq!(read(&mut a, 0x1D, &m), 0xAB12_CD34);
    assert_eq!(read(&mut a, 0x1B, &m), 0x4000_0040);
    assert_eq!(read(&mut a, 0x11, &m), 4952);
    assert_eq!(read(&mut a, 0x12, &m), 788);
    assert_eq!(read(&mut a, 0x13, &m), 534);
    assert_eq!(read(&mut a, 0x15, &m), 0);
    assert_eq!(read(&mut a, 0x16, &m), 250);
    // Gains keep their low bits, the rate is clamped.
    write(&mut a, 0x05, 13, &m);
    assert_eq!(read(&mut a, 0x05, &m), 5);
    write(&mut a, 0x06, 7, &m);
    assert_eq!(read(&mut a, 0x06, &m), 3);
    write(&mut a, 0x09, 3, &m);
    assert_eq!(read(&mut a, 0x09, &m), 2);
    // Unmapped registers are stored and echoed; others read 0.
    write(&mut a, 0x42, 77, &m);
    assert_eq!(read(&mut a, 0x42, &m), 77);
    assert_eq!(read(&mut a, 0x43, &m), 0);
    // Read-only registers are not affected.
    write(&mut a, 0x10, 99, &m);
    assert_eq!(read(&mut a, 0x10, &m), 60);
    write(&mut a, 0x0A, 5, &m);
    assert_eq!(read(&mut a, 0x0A, &m), 5);
}

#[test]
fn the_qa403_reaches_384_khz() {
    let m = moment(0, 0);
    let opts = SimOptions {
        model: Model::Qa403,
        ..SimOptions::default(1)
    };
    let mut a = Analyzer::new(&opts, 60, &[0u8; 512]);
    write(&mut a, 0x09, 9, &m);
    assert_eq!(read(&mut a, 0x09, &m), 3);
    assert_eq!(a.levels().rate, 384_000);
}

#[test]
fn replies_keep_their_order_and_length() {
    let m = moment(0, 0);
    let mut a = analyzer(None);
    // Two reads in one transfer, plus a part of a frame that is ignored.
    let frames = [0x90, 0, 0, 0, 0, 0x9B, 0, 0, 0, 0, 1, 2];
    assert_eq!(a.out_transfer(0x01, &frames, &m), Ok(12));
    assert!(matches!(a.in_transfer(0x81, 512), Ok(InStep::Data(d)) if d == [0, 0, 0, 60]));
    assert!(matches!(a.in_transfer(0x81, 2), Ok(InStep::Data(d)) if d == [0x40, 0]));
    assert!(matches!(a.in_transfer(0x81, 512), Ok(InStep::Pending)));
}

#[test]
fn other_endpoints_stall() {
    let mut a = analyzer(None);
    assert_eq!(a.out_transfer(0x03, &[1], &moment(0, 0)), Err(Stall));
    assert!(matches!(a.in_transfer(0x83, 8), Err(Stall)));
    assert!(matches!(a.in_transfer(0x82, 7), Ok(InStep::Data(d)) if d.is_empty()));
    assert!(matches!(a.in_transfer(0x82, 16384), Ok(InStep::Audio(2048))));
}

#[test]
fn calibration_readout_reproduces_the_page() {
    let m = moment(0, 0);
    let mut page = [0u8; 512];
    for (i, b) in page.iter_mut().enumerate() {
        *b = (i * 7 % 251) as u8;
    }
    let mut a = Analyzer::new(&SimOptions::default(1), 60, &page);
    // Leave the pointer somewhere first.
    read(&mut a, 0x19, &m);
    write(&mut a, 0x0D, 0x10, &m);
    let mut seen = Vec::new();
    for _ in 0..128 {
        seen.extend_from_slice(&read(&mut a, 0x19, &m).to_le_bytes());
    }
    assert_eq!(seen, page);
    // The words repeat, and other registers in between change nothing.
    for i in 0..200 {
        assert_eq!(read(&mut a, 0x10, &m), 60);
        let at = 4 * (i % 128);
        assert_eq!(read(&mut a, 0x19, &m).to_le_bytes(), page[at..at + 4]);
    }
    // The same, register by register.
    a.write_value(0x0D, 7, &m);
    let words: Vec<u32> = (0..129).map(|_| a.read_value(0x19, &m)).collect();
    assert_eq!(words[128], words[0]);
    let bytes: Vec<u8> = words[..128].iter().flat_map(|w| w.to_le_bytes()).collect();
    assert_eq!(bytes, page);
    // A custom page wins.
    let opts = SimOptions {
        cal_page: Some([9u8; 512]),
        ..SimOptions::default(1)
    };
    let mut a = Analyzer::new(&opts, 60, &page);
    assert_eq!(read(&mut a, 0x19, &m), 0x0909_0909);
}

#[test]
fn stop_status_lasts_half_a_second() {
    let mut a = analyzer(None);
    assert_eq!(read(&mut a, 0x1E, &moment(0, 0)), 0);
    write(&mut a, 0x08, 5, &moment(1_000, 0));
    assert_eq!(read(&mut a, 0x08, &moment(2_000, 0)), 5);
    write(&mut a, 0x08, 0, &moment(3_000, 0));
    assert_eq!(read(&mut a, 0x08, &moment(3_000, 0)), 0);
    assert_eq!(read(&mut a, 0x1E, &moment(500_002_999, 0)), 0x40);
    assert_eq!(read(&mut a, 0x1E, &moment(500_003_000, 0)), 0);
}

#[test]
fn bootloader_magic_is_order_sensitive() {
    let m = moment(0, 0);
    let mut a = analyzer(None);
    write(&mut a, 0x0F, 0xCAFE_BABE, &m);
    write(&mut a, 0x0F, 0xDEAD_BEEF, &m);
    write(&mut a, 0x0F, 1, &m);
    write(&mut a, 0x0F, 0xCAFE_BABE, &m);
    assert!(a.take_events().is_empty());
    write(&mut a, 0x08, 5, &m);
    write(&mut a, 0x0F, 0xDEAD_BEEF, &m);
    write(&mut a, 0x0F, 0xCAFE_BABE, &m);
    assert_eq!(read(&mut a, 0x08, &m), 0, "the stream stops");
    write(&mut a, 0x0F, 0xDEAD_BEEF, &m);
    write(&mut a, 0x0F, 0xCAFE_BABE, &m);
    let events = a.take_events();
    assert_eq!(events.len(), 1);
    assert!(matches!(events[0], SimEvent::EnterBootloader));
    assert!(a.take_events().is_empty());
}

#[test]
fn other_registers_do_not_break_the_magic() {
    let m = moment(0, 0);
    let mut a = analyzer(None);
    write(&mut a, 0x08, 5, &m);
    write(&mut a, 0x0F, 0xDEAD_BEEF, &m);
    write(&mut a, 0x0F, 0xDEAD_BEEF, &m);
    write(&mut a, 0x05, 3, &m);
    assert_eq!(read(&mut a, 0x05, &m), 3);
    write(&mut a, 0x0F, 0xCAFE_BABE, &m);
    assert_eq!(a.take_events().len(), 1);
    assert_eq!(read(&mut a, 0x08, &m), 0);
}

#[test]
fn settings_follow_the_last_write() {
    let m = moment(0, 0);
    let mut a = analyzer(None);
    assert_eq!((a.levels().in_dbv, a.levels().out_dbv, a.levels().rate), (42, -12, 48_000));
    for v in [1u32, 9, 0xFFFF_FFFA] {
        write(&mut a, 0x05, v, &m);
        write(&mut a, 0x06, v, &m);
        write(&mut a, 0x09, v, &m);
        assert_eq!(read(&mut a, 0x10, &m), 60);
    }
    // 0xFFFFFFFA is 2 modulo 8 and modulo 4; the rate index is clamped.
    assert_eq!((a.levels().in_dbv, a.levels().out_dbv, a.levels().rate), (12, 8, 192_000));
}

#[test]
fn adc_blocks_wait_for_their_source() {
    let opts = SimOptions {
        latency_samples: 2,
        ..SimOptions::default(1)
    };
    let mut a = Analyzer::new(&opts, 60, &[0u8; 512]);
    assert!(a.produce_adc_block(4).is_none());
    assert_eq!(
        a.adc_step(AdcPhase::Waiting, 4, 0, true),
        (AdcPhase::Waiting, AdcAction::AwaitChange)
    );
    write(&mut a, 0x08, 5, &moment(100, 7));
    assert_eq!(
        a.adc_step(AdcPhase::Waiting, 4, 200, true),
        (
            AdcPhase::Due,
            AdcAction::SleepUntilDue {
                started: 100,
                samples: 4,
                rate: 48_000
            }
        )
    );
    let deadline = 20_000_300;
    assert_eq!(
        a.adc_step(AdcPhase::Due, 4, 300, true),
        (
            AdcPhase::Filling { deadline },
            AdcAction::AwaitChangeUntil { deadline }
        )
    );
    let fast = 250_000_300;
    assert_eq!(
        a.adc_step(AdcPhase::Waiting, 4, 300, false),
        (
            AdcPhase::Filling { deadline: fast },
            AdcAction::AwaitChangeUntil { deadline: fast }
        )
    );
    // The deadline passes: silence is substituted.
    assert_eq!(
        a.adc_step(AdcPhase::Filling { deadline }, 4, deadline, true).1,
        AdcAction::Emit
    );
    // The DAC frames arrive.
    let dac = encode_block(&[(5, 6), (7, 8)]);
    assert_eq!(a.out_transfer(0x02, &dac, &moment(400, 7)), Ok(16));
    assert_eq!(
        a.adc_step(AdcPhase::Filling { deadline }, 4, 400, true).1,
        AdcAction::Emit
    );
    assert!(a.can_count(4));
    let b = a.produce_adc_block(4).unwrap();
    assert_eq!(b.frames, vec![(0, 0), (0, 0), (5, 6), (7, 8)]);
    // The generator phase lives with the stream.
    assert_eq!(a.generator_phase(), Some(0));
    a.set_generator_phase(3);
    assert_eq!(a.generator_phase(), Some(3));
    write(&mut a, 0x08, 0, &moment(500, 7));
    assert_eq!(a.generator_phase(), None);
    assert_eq!(
        a.adc_step(AdcPhase::Filling { deadline }, 4, 400, true),
        (AdcPhase::Waiting, AdcAction::AwaitChange)
    );
}

#[test]
fn levels_come_from_the_served_page() {
    let m = moment(0, 0);
    let mut a = analyzer(None);
    write(&mut a, 0x06, 2, &m);
    let l = a.levels();
    assert_eq!((l.out_dbv, l.in_dbv, l.rate), (8, 42, 48_000));
    assert_eq!(l.adc_trim, (0, 0));
    let mut page = [0u8; 512];
    page[110..114].copy_from_slice(&8.5f32.to_le_bytes());
    let a = Analyzer::new(&SimOptions::default(1), 60, &page);
    assert_eq!(a.levels().adc_trim, (8.5f32.to_bits(), 0));
}

fn setup(bm: u8, req: u8, value: u16, index: u16, len: u16) -> SetupPacket {
    let (v, i, l) = (value.to_le_bytes(), index.to_le_bytes(), len.to_le_bytes());
    SetupPacket::parse(&[bm, req, v[0], v[1], i[0], i[1], l[0], l[1]])
}

#[test]
fn setup_packets_are_little_endian() {
    let s = setup(0xC0, 0x20, 0x1234, 7, 0x5678);
    assert!(s.is_in());
    assert_eq!((s.w_value, s.w_index, s.w_length), (0x1234, 7, 0x5678));
    assert!(!setup(0x21, 9, 0, 0, 0).is_in());
}

#[test]
fn standard_requests() {
    let mut a = analyzer(None);
    let dev = a.control(setup(0x80, 6, 0x0100, 0, 18), &[]).unwrap();
    assert_eq!(dev.len(), 18);
    assert_eq!(&dev[8..12], &[0xC0, 0x16, 0x37, 0x4E]);
    assert_eq!(a.control(setup(0x80, 6, 0x0100, 0, 8), &[]).unwrap(), dev[..8]);
    let cfg = a.control(setup(0x80, 6, 0x0200, 0, 255), &[]).unwrap();
    assert_eq!(u16::from_le_bytes([cfg[2], cfg[3]]) as usize, cfg.len());
    assert_eq!(a.control(setup(0x80, 0, 0, 0, 2), &[]), Ok(vec![0, 0]));
    assert_eq!(a.control(setup(0x80, 8, 0, 0, 1), &[]), Ok(vec![1]));
    assert_eq!(a.control(setup(0x81, 10, 0, 0, 1), &[]), Ok(vec![0]));
    assert_eq!(a.control(setup(0x00, 9, 1, 0, 0), &[]), Ok(vec![]));
    assert_eq!(a.control(setup(0x02, 1, 0, 0x81, 0), &[]), Ok(vec![]));
    assert_eq!(a.control(setup(0x80, 6, 0x0309, 0, 255), &[]), Err(Stall));
    assert_eq!(a.control(setup(0x80, 6, 0x2200, 0, 255), &[]), Err(Stall));
    assert_eq!(a.control(setup(0x40, 0x20, 0, 7, 0), &[]), Err(Stall));
    let q = a.control(setup(0x80, 6, 0x0600, 0, 10), &[]).unwrap();
    assert_eq!(q[..2], [10, 6]);
    let lang = a.control(setup(0x80, 6, 0x0300, 0, 255), &[]).unwrap();
    assert_eq!(lang, vec![4, 3, 9, 4]);
}

#[test]
fn summaries() {
    let s = analyzer(None).summary();
    assert_eq!((s.vid, s.pid, s.speed), (0x16C0, 0x4E37, UsbSpeed::High));
    assert_eq!(s.interfaces, vec![(0xff, 0, 0)]);
    let s = Bootloader::new().summary();
    assert_eq!((s.vid, s.pid, s.speed), (0x1FC9, 0x0022, UsbSpeed::Full));
    assert_eq!(s.interfaces, vec![(3, 0, 0)]);
    assert_eq!((UsbSpeed::Full.code(), UsbSpeed::High.code()), (2, 3));
}

/// An OUT report (60 bytes): [id][0][len LE][payload][pad].
fn report(id: u8, payload: &[u8]) -> Vec<u8> {
    let mut r = vec![0u8; 60];
    r[0] = id;
    r[2] = (payload.len() & 0xff) as u8;
    r[3] = (payload.len() >> 8) as u8;
    r[4..4 + payload.len()].copy_from_slice(payload);
    r
}

fn announce(len: u32) -> Vec<u8> {
    let mut cmd = vec![0x08, 0, 0, 1];
    cmd.extend_from_slice(&len.to_le_bytes());
    report(1, &cmd)
}

fn response(b: &mut Bootloader) -> (u32, u32) {
    match b.in_transfer(0x81, 64) {
        Ok(InStep::Data(d)) => {
            assert_eq!(d.len(), 60);
            assert_eq!((d[0], d[2], d[3], d[4], d[7]), (3, 12, 0, 0xA0, 2));
            (
                u32::from_le_bytes([d[8], d[9], d[10], d[11]]),
                u32::from_le_bytes([d[12], d[13], d[14], d[15]]),
            )
        }
        other => panic!("no response: {other:?}"),
    }
}

#[test]
fn flashing_hands_the_image_over() {
    let m = moment(0, 0);
    let mut image = vec![0u8; 100];
    image[0x14..0x18].copy_from_slice(b"STMP");
    image[99] = 5;
    for cut in [1usize, 7, 28, 56] {
        let mut b = Bootloader::new();
        assert_eq!(b.announced_reports(), None);
        assert_eq!(b.out_transfer(0x01, &announce(100), &m), Ok(60));
        assert_eq!(b.announced_reports(), Some(4));
        assert_eq!(response(&mut b), (0, 8));
        for chunk in image.chunks(cut) {
            b.handle_report(&report(2, chunk));
        }
        assert_eq!(response(&mut b), (0, 8));
        let events = b.take_events();
        assert_eq!(events.len(), 1);
        assert!(matches!(&events[0], SimEvent::FlashCompleted { image: i } if *i == image));
        // Stray data changes nothing.
        b.handle_report(&report(2, &image[..28]));
        assert!(matches!(b.in_transfer(0x81, 64), Ok(InStep::Pending)));
        assert!(b.take_events().is_empty());
    }
}

#[test]
fn bytes_after_the_announced_length_are_dropped() {
    let mut image = vec![0u8; 30];
    image[0x14..0x18].copy_from_slice(b"STMP");
    let mut b = Bootloader::new();
    b.handle_report(&announce(30));
    b.handle_report(&report(2, &image[..28]));
    b.handle_report(&report(2, &[image[28], image[29], 9, 9]));
    // A payload behind the completing one queues nothing.
    b.handle_report(&report(2, &image[..28]));
    let events = b.take_events();
    assert_eq!(events.len(), 1);
    assert!(matches!(&events[0], SimEvent::FlashCompleted { image: i } if *i == image));
    assert_eq!(response(&mut b), (0, 8));
    assert_eq!(response(&mut b), (0, 8));
    assert!(matches!(b.in_transfer(0x81, 64), Ok(InStep::Pending)));
}

#[test]
fn images_without_the_signature_are_rejected() {
    let mut b = Bootloader::new();
    b.handle_report(&announce(30));
    b.handle_report(&report(2, &[0u8; 28]));
    b.handle_report(&report(2, &[0u8; 2]));
    assert_eq!(response(&mut b), (0, 8));
    assert_eq!(response(&mut b), (10101, 8));
    assert!(b.take_events().is_empty());
    // An empty image is judged at the first data report.
    b.handle_report(&announce(0));
    assert_eq!(b.announced_reports(), Some(1));
    b.handle_report(&report(2, &[1, 2, 3]));
    assert_eq!(response(&mut b), (0, 8));
    assert_eq!(response(&mut b), (10101, 8));
}

#[test]
fn reset_and_unknown_commands() {
    let mut b = Bootloader::new();
    b.handle_report(&report(1, &[0x0B, 0, 0, 0]));
    assert_eq!(response(&mut b), (0, 0x0B));
    b.handle_report(&report(1, &[0x77, 0, 0, 0]));
    assert_eq!(response(&mut b), (10003, 0x77));
    // Too short, or not an OUT report: ignored.
    b.handle_report(&report(1, &[0x0B, 0, 0]));
    b.handle_report(&report(4, &[0x0B, 0, 0, 0]));
    b.handle_report(&[1, 0, 4]);
    assert!(matches!(b.in_transfer(0x81, 64), Ok(InStep::Pending)));
    let events = b.take_events();
    assert_eq!(events.len(), 1);
    assert!(matches!(events[0], SimEvent::BootloaderReset));
}

#[test]
fn hid_class_requests() {
    let mut b = Bootloader::new();
    assert_eq!(b.control(setup(0xA1, 1, 0x0303, 0, 60), &[]), Ok(vec![0u8; 60]));
    let set = setup(0x21, 9, 0x0201, 0, 60);
    assert_eq!(b.control(set, &report(1, &[0x77, 0, 0, 0])), Ok(vec![]));
    let r = b.control(setup(0xA1, 1, 0x0303, 0, 60), &[]).unwrap();
    assert_eq!((r[0], r[4]), (3, 0xA0));
    assert_eq!(b.control(setup(0x21, 0x0A, 0, 0, 0), &[]), Ok(vec![]));
    assert_eq!(b.control(setup(0x21, 0x0B, 0, 0, 0), &[]), Ok(vec![]));
    // A GET_REPORT in the OUT direction has no data stage and takes no response.
    b.handle_report(&report(1, &[0x77, 0, 0, 0]));
    assert_eq!(b.control(setup(0x21, 1, 0x0303, 0, 60), &[]), Ok(vec![]));
    assert_eq!(response(&mut b), (10003, 0x77));
    assert_eq!(b.control(setup(0x21, 0x33, 0, 0, 0), &[]), Err(Stall));
    assert_eq!(b.control(setup(0xC0, 0x20, 0, 7, 10), &[]), Err(Stall));
    let rd = b.control(setup(0x81, 6, 0x2200, 0, 512), &[]).unwrap();
    assert_eq!(rd.len(), 68);
}

#[test]
fn data_reports_are_told_apart() {
    assert!(is_data_report(&report(2, &[1])));
    assert!(!is_data_report(&report(1, &[1])));
    assert!(!is_data_report(&[]));
}

#[test]
fn responses_are_cut_but_not_to_nothing() {
    let mut b = Bootloader::new();
    b.handle_report(&report(1, &[0x77, 0, 0, 0]));
    b.handle_report(&report(1, &[0x77, 0, 0, 0]));
    assert!(matches!(b.in_transfer(0x81, 0), Ok(InStep::Data(d)) if d == [3]));
    assert!(matches!(b.in_transfer(0x81, 5), Ok(InStep::Data(d)) if d == [3, 0, 12, 0, 0xA0]));
}
