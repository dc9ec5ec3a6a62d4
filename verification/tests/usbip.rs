use std::collections::HashMap;
use vqa40x::analyzer::Levels;
use vqa40x::backend::{InStep, Moment, Stall, Telemetry};
use vqa40x::calpage::{adc_trim_db, dac_trim_db, generate_page};
use vqa40x::inqueue::{InJob, InQueue};
use vqa40x::options::SimOptions;
use vqa40x::proto::{
    devid, op_header, ret_submit, ret_unlink, usb_device_block, UrbHeader, ST_ECONNRESET, ST_EPIPE,
};
use vqa40x::registry::{sha256_hex, FirmwareRegistry, Release};
use vqa40x::server::{
    control_reply, devlist_reply, dispatch, find_device, handle_out, import_refused,
    op_request, out_data_length, requested_busid, trim_nuls, urb_request, OpRequest, Pending,
    UrbAction, UrbRequest,
};
use vqa40x::sim::{saved_file_name, SimAction, Simulator};
use vqa40x::stream::{encode_block, Block};

const DEVID: u32 = (1 << 16) | 2;

fn moment() -> Moment {
    Moment {
        now: 1_000,
        telemetry: Telemetry {
            usb_voltage: 4952,
            usb_current: 788,
            iso_current: 534,
            temperature: 250,
        },
        seed: 99,
    }
}

fn page() -> [u8; 512] {
    let mut page = [0u8; 512];
    for (i, b) in page.iter_mut().enumerate() {
        *b = (i % 253) as u8;
    }
    page
}

/// A page with the trims of a plausible unit.
fn trimmed_page() -> [u8; 512] {
    let mut adc = [(0u32, 0u32); 8];
    for (i, t) in adc.iter_mut().enumerate() {
        let l = 8.75 + 0.02 * i as f32 + if i >= 4 { -0.167 } else { 0.0 };
        *t = (l.to_bits(), (l + 0.001).to_bits());
    }
    let mut dac = [(0u32, 0u32); 4];
    for (i, t) in dac.iter_mut().enumerate() {
        let l = -0.30 + 0.03 * i as f32;
        *t = (l.to_bits(), (l - 0.055).to_bits());
    }
    generate_page(&adc, &dac)
}

fn db(x: f32) -> f32 {
    10f32.powf(x / 20.0)
}

/// The samples of a block without distortion or generator: DAC volts over ADC
/// full scale, and noise at -200 dBFS.
fn render(block: &Block, levels: &Levels) -> Vec<(i32, i32)> {
    let gauss = |u1: u64, u2: u64| {
        let (u1, u2) = (u1 as f64 / (1u64 << 53) as f64, u2 as f64 / (1u64 << 53) as f64);
        ((-2.0 * u1.ln()).sqrt() * (std::f64::consts::TAU * u2).cos()) as f32
    };
    let sample = |d: i32, dac_trim: u32, adc_trim: u32, noise: f32| {
        let volts =
            d as f32 / 2_147_483_648.0 * db(levels.out_dbv as f32 + 3.0 - f32::from_bits(dac_trim));
        let x = volts / db(levels.in_dbv as f32 - 6.0 + f32::from_bits(adc_trim));
        ((x + db(-200.0) * noise).clamp(-1.0, 1.0) * 2_147_483_647.0) as i32
    };
    let mut out = Vec::new();
    for (&(l, r), u) in block.frames.iter().zip(block.draws.chunks_exact(4)) {
        out.push((
            sample(l, levels.dac_trim.0, levels.adc_trim.0, gauss(u[0], u[1])),
            sample(r, levels.dac_trim.1, levels.adc_trim.1, gauss(u[2], u[3])),
        ));
    }
    out
}

fn busid_field(busid: &str) -> [u8; 32] {
    let mut b = [0u8; 32];
    b[..busid.len()].copy_from_slice(busid.as_bytes());
    b
}

fn urb(command: u32, seq: u32, direction: u32, ep: u32, len: u32, setup: [u8; 8]) -> UrbHeader {
    let mut buf = [0u8; 48];
    for (i, v) in [command, seq, DEVID, direction, ep, 0, len].iter().enumerate() {
        buf[4 * i..4 * i + 4].copy_from_slice(&v.to_be_bytes());
    }
    buf[40..48].copy_from_slice(&setup);
    UrbHeader::parse(&buf)
}

/// A client of one attached unit: sends headers and data, reads replies.
struct Client<'a> {
    sim: &'a mut Simulator,
    pending: Pending,
    seq: u32,
    /// The loopback frames under the audio blocks that were read.
    looped: Vec<(i32, i32)>,
}

impl<'a> Client<'a> {
    /// Imports the unit by its bus id; `None` if refused.
    fn attach(sim: &'a mut Simulator, busid: &str) -> Option<(Self, u16, u16)> {
        let requested = requested_busid(&busid_field(busid));
        find_device(&[sim.busid().to_string()], &requested)?;
        let (granted, reply) = sim.import();
        assert_eq!(reply[..4], [0x01, 0x11, 0x00, 0x03]);
        let status = u32::from_be_bytes([reply[4], reply[5], reply[6], reply[7]]);
        assert_eq!(status, if granted { 0 } else { 1 });
        if !granted {
            assert_eq!(reply.len(), 8);
            return None;
        }
        let dev = &reply[8..];
        assert_eq!(dev.len(), 312);
        let vid = u16::from_be_bytes([dev[300], dev[301]]);
        let pid = u16::from_be_bytes([dev[302], dev[303]]);
        let client = Client {
            sim,
            pending: Pending::new(),
            seq: 0,
            looped: Vec::new(),
        };
        Some((client, vid, pid))
    }

    fn submit(&mut self, direction: u32, ep: u32, setup: [u8; 8], data: &[u8], len: usize) -> (i32, Vec<u8>) {
        self.seq += 1;
        let tlen = if direction == 0 { data.len() } else { len };
        let h = urb(1, self.seq, direction, ep, tlen as u32, setup);
        assert_eq!(out_data_length(&h), data.len());
        let pkt = match dispatch(self.sim, &mut self.pending, &h, data, &moment()) {
            UrbAction::Reply(pkt) => pkt,
            UrbAction::Queue { seqnum, ep, len } => {
                let result = match self.sim.in_transfer(ep, len) {
                    Ok(InStep::Data(d)) => Ok(d),
                    Ok(InStep::Audio(n)) => {
                        let unit = self.sim.analyzer().unwrap();
                        let block = unit.produce_adc_block(n).unwrap();
                        let samples = render(&block, &unit.levels());
                        self.looped.extend_from_slice(&block.frames);
                        Ok(encode_block(&samples))
                    }
                    Ok(InStep::Pending) => panic!("nothing to read"),
                    Err(s) => Err(s),
                };
                self.pending.complete(seqnum, len, result).unwrap()
            }
            other => panic!("not a submit: {other:?}"),
        };
        assert_eq!(pkt[..4], [0, 0, 0, 3], "RET_SUBMIT");
        assert_eq!(pkt[4..8], self.seq.to_be_bytes());
        let status = i32::from_be_bytes([pkt[20], pkt[21], pkt[22], pkt[23]]);
        let actual = u32::from_be_bytes([pkt[24], pkt[25], pkt[26], pkt[27]]) as usize;
        if direction == 1 {
            assert_eq!(pkt.len(), 48 + actual);
        } else {
            assert_eq!(pkt.len(), 48);
        }
        (status, pkt[48..].to_vec())
    }

    fn control_in(&mut self, bm: u8, req: u8, value: u16, index: u16, len: u16) -> (i32, Vec<u8>) {
        let (v, i, l) = (value.to_le_bytes(), index.to_le_bytes(), len.to_le_bytes());
        let setup = [bm, req, v[0], v[1], i[0], i[1], l[0], l[1]];
        self.submit(1, 0, setup, &[], len as usize)
    }

    fn control_out(&mut self, bm: u8, req: u8, value: u16, index: u16, data: &[u8]) -> i32 {
        let (v, i) = (value.to_le_bytes(), index.to_le_bytes());
        let l = (data.len() as u16).to_le_bytes();
        let setup = [bm, req, v[0], v[1], i[0], i[1], l[0], l[1]];
        self.submit(0, 0, setup, data, 0).0
    }

    fn bulk_out(&mut self, ep: u32, data: &[u8]) -> i32 {
        self.submit(0, ep, [0; 8], data, 0).0
    }

    fn bulk_in(&mut self, ep: u32, len: usize) -> (i32, Vec<u8>) {
        self.submit(1, ep, [0; 8], &[], len)
    }

    fn reg_write(&mut self, reg: u8, value: u32) {
        let mut frame = vec![reg];
        frame.extend_from_slice(&value.to_be_bytes());
        assert_eq!(self.bulk_out(1, &frame), 0);
    }

    fn reg_read(&mut self, reg: u8) -> u32 {
        assert_eq!(self.bulk_out(1, &[reg | 0x80, 0, 0, 0, 0]), 0);
        let (status, data) = self.bulk_in(1, 512);
        assert_eq!(status, 0);
        assert_eq!(data.len(), 4);
        u32::from_be_bytes([data[0], data[1], data[2], data[3]])
    }
}

/// An OUT report (60 bytes): [id][0][len LE][payload][pad].
fn kboot_report(id: u8, payload: &[u8]) -> Vec<u8> {
    let mut r = vec![0u8; 60];
    r[0] = id;
    r[2] = (payload.len() & 0xff) as u8;
    r[3] = (payload.len() >> 8) as u8;
    r[4..4 + payload.len()].copy_from_slice(payload);
    r
}

const LATENCY: usize = 256;

#[test]
fn full_device_lifecycle() {
    let opts = SimOptions {
        realtime: false,
        latency_samples: LATENCY,
        noise_dbfs: (-200.0f32).to_bits(),
        post_flash_version: Some(61),
        save_firmware: Some("vqa40x-e2e-firmware".to_string()),
        serial: "AB12_CD34".to_string(),
        ..SimOptions::default(1)
    };
    let factory = trimmed_page();
    let mut sim = Simulator::new(opts, factory);

    // ---- Attach: analyzer persona ---------------------------------------
    let (mut c, vid, pid) = Client::attach(&mut sim, "1-1").expect("import refused");
    assert_eq!((vid, pid), (0x16C0, 0x4E37), "QA402 identity");

    // Standard enumeration.
    let (st, dev) = c.control_in(0x80, 6, 0x0100, 0, 18);
    assert_eq!(st, 0);
    assert_eq!(dev.len(), 18);
    assert_eq!(u16::from_le_bytes([dev[8], dev[9]]), 0x16C0);
    assert_eq!(u16::from_le_bytes([dev[10], dev[11]]), 0x4E37);
    assert_eq!(c.control_out(0x00, 9, 1, 0, &[]), 0, "SET_CONFIGURATION");
    // Config descriptor: 1 interface, 4 bulk endpoints.
    let (st, cfg) = c.control_in(0x80, 6, 0x0200, 0, 255);
    assert_eq!(st, 0);
    assert_eq!(cfg[4], 1);
    // String descriptors.
    let (st, s) = c.control_in(0x80, 6, 0x0303, 0x0409, 255);
    assert_eq!(st, 0);
    let serial: String =
        char::decode_utf16(s[2..].chunks(2).map(|c| u16::from_le_bytes([c[0], c[1]])))
            .map(|c| c.unwrap())
            .collect();
    assert_eq!(serial, "AB12_CD34");
    // CLEAR_FEATURE(HALT) on an endpoint, as the host app does.
    assert_eq!(c.control_out(0x02, 1, 0, 0x81, &[]), 0);

    // MS OS 2.0 chain: bcdUSB, BOS, platform capability, vendor request, WINUSB.
    assert_eq!(
        u16::from_le_bytes([dev[2], dev[3]]),
        0x0201,
        "bcdUSB must be BOS-capable"
    );
    let (st, bos) = c.control_in(0x80, 6, 0x0F00, 0, 255);
    assert_eq!(st, 0, "BOS descriptor");
    assert_eq!(bos[1], 0x0F);
    let set_len = u16::from_le_bytes([bos[bos.len() - 4], bos[bos.len() - 3]]);
    let vendor_code = bos[bos.len() - 2];
    let (st, set) = c.control_in(0xC0, vendor_code, 0, 7, set_len);
    assert_eq!(st, 0, "MS OS 2.0 descriptor set");
    assert_eq!(set.len(), set_len as usize);
    let winusb = set.windows(6).any(|w| w == b"WINUSB");
    assert!(winusb, "descriptor set must carry the WINUSB compatible ID");

    // Comm test: write a pattern to register 0, read it back.
    c.reg_write(0x00, 0xA5A5_0FF0);
    assert_eq!(c.reg_read(0x00), 0xA5A5_0FF0);

    // Identity registers.
    assert_eq!(c.reg_read(0x10), 60, "firmware version");
    assert_eq!(c.reg_read(0x1D), 0xAB12_CD34, "serial register");
    assert_eq!(c.reg_read(0x1B), 0x4000_0040, "capability word");
    assert!(c.reg_read(0x11) > 4000, "USB voltage telemetry");

    // Vendor connect writes.
    c.reg_write(0x08, 0); // stream stop
    c.reg_write(0x0A, 0); // unknown init
    c.reg_write(0x05, 7); // 42 dBV
    c.reg_write(0x09, 0); // 48 kHz

    // Calibration page: select, then 128 reads of 4 bytes.
    c.reg_write(0x0D, 0x10);
    let mut page = Vec::with_capacity(512);
    for _ in 0..128 {
        let v = c.reg_read(0x19);
        page.extend_from_slice(&v.to_le_bytes());
    }
    assert_eq!(page.len(), 512);
    assert_eq!(page, factory, "served page == factory page");
    // Parse exactly like the host app: f32 LE at record offset + 2; the trims
    // are about +8.75 dB (ADC) and about -0.3 dB (DAC).
    let adc_db = f32::from_le_bytes([page[26], page[27], page[28], page[29]]);
    assert!(
        (8.0..9.5).contains(&adc_db),
        "ADC trim, 0 dBV left: {adc_db}"
    );
    let dac_db = f32::from_le_bytes([page[146], page[147], page[148], page[149]]);
    assert!(
        (-1.0..0.0).contains(&dac_db),
        "DAC trim, 8 dBV left: {dac_db}"
    );

    // ---- Loopback streaming ----------------------------------------------
    // 4096 samples of a 1 kHz sine at 0.5 FS, two 16 KiB blocks.
    let n = 4096;
    let sine: Vec<f32> = (0..n)
        .map(|i| 0.5 * (std::f32::consts::TAU * 1000.0 * i as f32 / 48000.0).sin())
        .collect();
    let dac: Vec<(i32, i32)> = sine
        .iter()
        .map(|x| {
            let v = (x.clamp(-1.0, 1.0) * 2_147_483_647.0) as i32;
            (v, v)
        })
        .collect();
    let tx = encode_block(&dac);
    assert_eq!(tx.len(), 2 * 16384);
    c.reg_write(0x08, 5); // stream start
    assert_eq!(c.bulk_out(2, &tx[..16384]), 0);
    assert_eq!(c.bulk_out(2, &tx[16384..]), 0);
    let (st, mut rx) = c.bulk_in(2, 16384);
    assert_eq!(st, 0);
    let (st, rx2) = c.bulk_in(2, 16384);
    assert_eq!(st, 0);
    c.reg_write(0x08, 0); // stream stop
    assert_eq!(c.reg_read(0x1E), 0x40, "post-stop stream status");
    rx.extend_from_slice(&rx2);
    // Behind the latency the very DAC frames are looped back.
    assert!(c.looped[..LATENCY].iter().all(|f| *f == (0, 0)));
    assert_eq!(c.looped[LATENCY..], dac[..n - LATENCY]);

    // The left sample comes second on the wire.
    let adc: Vec<f32> = rx
        .chunks_exact(8)
        .map(|f| i32::from_le_bytes([f[4], f[5], f[6], f[7]]) as f32 / 2_147_483_648.0)
        .collect();
    assert_eq!(adc.len(), n);
    // Latency lead-in is silence.
    for &s in &adc[..LATENCY - 1] {
        assert!(s.abs() < 1e-5, "lead-in must be silent, got {s}");
    }
    // After the lead-in the DAC signal comes back with the volts-model gain:
    // out_FS - in_FS + 9 - adc_trim - dac_trim (42 dBV in, -12 dBV out from
    // the boot/connect defaults), with the trims parsed from the page WE READ
    // over the wire, the same closure a calibrated host applies.
    let g_db = -12.0 - 42.0 + 9.0
        - f32::from_bits(adc_trim_db(&page, 7, 0))
        - f32::from_bits(dac_trim_db(&page, 0, 0));
    let g = 10f32.powf(g_db / 20.0);
    let rms = |x: &[f32]| (x.iter().map(|v| v * v).sum::<f32>() / x.len() as f32).sqrt();
    let span = 2048;
    let measured = rms(&adc[LATENCY..LATENCY + span]);
    let expected = rms(&sine[..span]) * g;
    let ratio = measured / expected;
    assert!(
        (ratio - 1.0).abs() < 0.02,
        "loopback gain off: measured {measured}, expected {expected} (ratio {ratio})"
    );

    // ---- Enter the bootloader ---------------------------------------------
    let before = c.sim.generation();
    c.reg_write(0x0F, 0xDEAD_BEEF);
    assert!(matches!(c.sim.advance(), SimAction::AwaitEvent));
    c.reg_write(0x0F, 0xCAFE_BABE);
    assert!(matches!(c.sim.advance(), SimAction::Sleep { millis: 200 }));
    assert_eq!(c.sim.generation(), before);
    assert!(matches!(c.sim.advance(), SimAction::Proceed));
    assert_eq!(c.sim.generation(), before + 1, "device detaches");
    sim.release_import();

    // ---- Bootloader persona ------------------------------------------------
    let (mut c, vid, pid) = Client::attach(&mut sim, "1-1").expect("import refused");
    assert_eq!((vid, pid), (0x1FC9, 0x0022), "NXP KBOOT identity");

    let (st, dev) = c.control_in(0x80, 6, 0x0100, 0, 18);
    assert_eq!(st, 0);
    assert_eq!(u16::from_le_bytes([dev[8], dev[9]]), 0x1FC9);
    assert_eq!(c.control_out(0x00, 9, 1, 0, &[]), 0);
    // HID report descriptor must be readable (hidraw needs it).
    let (st, rd) = c.control_in(0x81, 6, 0x2200, 0, 512);
    assert_eq!(st, 0);
    assert!(!rd.is_empty());

    // A fake SB2.1 image: "STMP" signature at offset 0x14.
    let mut image = [0u8; 100];
    image[0x14..0x18].copy_from_slice(b"STMP");

    // ReceiveSbFile command: tag 0x08, paramCount 1, byte count LE.
    let mut cmd = vec![0x08, 0x00, 0x00, 0x01];
    cmd.extend_from_slice(&(image.len() as u32).to_le_bytes());
    assert_eq!(c.bulk_out(1, &kboot_report(1, &cmd)), 0);

    // Initial ack.
    let (st, ack) = c.bulk_in(1, 64);
    assert_eq!(st, 0);
    assert_eq!(ack[0], 3, "response report id");
    assert_eq!(ack[4], 0xA0, "generic response tag");
    assert_eq!(u32::from_le_bytes([ack[8], ack[9], ack[10], ack[11]]), 0);

    // Stream the image, 28 payload bytes per data report.
    for chunk in image.chunks(28) {
        assert_eq!(c.bulk_out(1, &kboot_report(2, chunk)), 0);
    }

    // Final response: success.
    let (st, fin) = c.bulk_in(1, 64);
    assert_eq!(st, 0);
    assert_eq!(fin[4], 0xA0);
    assert_eq!(
        u32::from_le_bytes([fin[8], fin[9], fin[10], fin[11]]),
        0,
        "flash must succeed"
    );

    // The flashed image is to be saved, byte-identical to what was sent.
    match sim.advance() {
        SimAction::SaveThenSleep { saved, millis } => {
            assert_eq!(millis, 2000);
            assert_eq!(saved.dir, "vqa40x-e2e-firmware");
            assert_eq!(saved.name, "qa40x-flash-1-d269b8c6.sb");
            assert_eq!(saved.image, image, "saved image content");
        }
        other => panic!("not saved: {other:?}"),
    }
    assert!(!sim.is_unplugged());
    assert!(matches!(sim.advance(), SimAction::Sleep { millis: 2000 }));
    sim.release_import();

    // ---- Simulated unplug/replug, then the analyzer with new firmware ------
    assert!(sim.is_unplugged());
    assert!(
        Client::attach(&mut sim, "1-1").is_none(),
        "attach must be refused during the simulated unplug window"
    );
    assert!(matches!(sim.advance(), SimAction::Proceed));
    assert!(matches!(sim.advance(), SimAction::AwaitEvent));
    let (mut c, vid, pid) = Client::attach(&mut sim, "1-1").expect("import refused");
    assert_eq!((vid, pid), (0x16C0, 0x4E37), "analyzer is back");
    assert_eq!(c.reg_read(0x10), 61, "post-flash firmware version");
}

/// A USB device can only be plugged into one host: a second concurrent import
/// must be refused, and a detach must free the device again.
#[test]
fn exclusive_attach() {
    let mut sim = Simulator::new(SimOptions::default(1), page());
    let (granted, _) = sim.import();
    assert!(granted);

    // Second import: refused (status 1 in the OP_REP_IMPORT header).
    let (granted, hdr) = sim.import();
    assert!(!granted);
    assert_eq!(
        u32::from_be_bytes([hdr[4], hdr[5], hdr[6], hdr[7]]),
        1,
        "second import must be refused"
    );
    assert_eq!(hdr, import_refused());

    // Detach the first client; the device becomes importable again.
    sim.release_import();
    let (_c2, vid, _) = Client::attach(&mut sim, "1-1").unwrap();
    assert_eq!(vid, 0x16C0);
}

#[test]
fn devlist_reports_the_device() {
    let sim = Simulator::new(SimOptions::default(1), page());
    let op = [0x01, 0x11, 0x80, 0x05, 0, 0, 0, 0];
    assert_eq!(op_request(&op), OpRequest::Devlist);
    let reply = devlist_reply(&[sim.exported()]);
    let count = u32::from_be_bytes([reply[8], reply[9], reply[10], reply[11]]);
    assert_eq!(count, 1);
    let dev = &reply[12..];
    assert_eq!(dev.len(), 312 + 4);
    assert_eq!(u16::from_be_bytes([dev[300], dev[301]]), 0x16C0);
    let busid = String::from_utf8_lossy(&dev[256..288]);
    assert!(busid.starts_with("1-1"));
    assert_eq!(dev[312..], [0xff, 0, 0, 0]);
}

#[test]
fn unplugged_devices_are_not_listed() {
    let mut a = Simulator::new(SimOptions::default(1), page()).exported();
    let b = Simulator::new(
        SimOptions {
            busid: "1-2".to_string(),
            ..SimOptions::default(2)
        },
        page(),
    );
    a.unplugged = true;
    let reply = devlist_reply(&[a, b.exported()]);
    assert_eq!(reply[8..12], [0, 0, 0, 1]);
    assert_eq!(reply.len(), 12 + 312 + 4);
    assert_eq!(&reply[12 + 256..12 + 260], b"1-2\0");
    assert_eq!(devlist_reply(&[]), [op_header(5, 0), vec![0; 4]].concat());
}

#[test]
fn operations() {
    assert_eq!(op_request(&[1, 0x11, 0x80, 3, 0, 0, 0, 0]), OpRequest::Import);
    assert_eq!(op_request(&[1, 0x11, 0x12, 0x34, 0, 0, 0, 0]), OpRequest::Unknown(0x1234));
    assert_eq!(devid(), DEVID);
}

#[test]
fn requested_busids() {
    assert_eq!(requested_busid(&busid_field("1-1")), "1-1");
    assert_eq!(requested_busid(&[0u8; 32]), "");
    let full = [b'x'; 32];
    assert_eq!(requested_busid(&full), "x".repeat(32));
    // Only trailing NULs are padding, and what is not UTF-8 is replaced.
    let mut odd = busid_field("a");
    odd[2] = b'b';
    assert_eq!(requested_busid(&odd), "a\0b");
    let mut bad = busid_field("a");
    bad[1] = 0xFF;
    assert_eq!(requested_busid(&bad), "a\u{FFFD}");
    assert_eq!(trim_nuls("x\0\0"), "x");
}

#[test]
fn the_first_match_is_imported() {
    let ids = ["1-1".to_string(), "1-2".to_string(), "1-2".to_string()];
    assert_eq!(find_device(&ids, "1-2"), Some(1));
    assert_eq!(find_device(&ids, "1-3"), None);
}

#[test]
fn long_busids_are_cut() {
    let sim = Simulator::new(SimOptions::default(1), page());
    let block = usb_device_block(&"b".repeat(400), &sim.summary(), 1);
    assert_eq!(block.len(), 312);
    assert_eq!(&block[..27], b"/sys/devices/virtual/usbip/");
    assert_eq!((block[254], block[255]), (b'b', 0));
    assert_eq!((block[256 + 30], block[256 + 31]), (b'b', 0));
    assert_eq!(block[288..300], [0, 0, 0, 1, 0, 0, 0, 2, 0, 0, 0, 3]);
}

#[test]
fn headers_decode() {
    let h = urb(1, 7, 0, 0x12, 5, [1, 2, 3, 4, 5, 6, 7, 8]);
    assert_eq!((h.command, h.seqnum, h.devid, h.direction, h.ep), (1, 7, DEVID, 0, 0x12));
    assert_eq!((h.transfer_length(), h.setup()), (5, [1, 2, 3, 4, 5, 6, 7, 8]));
    assert_eq!(h.u32_rest(1), 5);
    assert_eq!(out_data_length(&h), 5);
    assert_eq!(urb_request(&h), UrbRequest::Out { ep: 2 });
    let h = urb(1, 7, 1, 2, 64, [0; 8]);
    assert_eq!(out_data_length(&h), 0);
    assert_eq!(urb_request(&h), UrbRequest::In { ep: 0x82, len: 64 });
    assert_eq!(urb_request(&urb(9, 7, 1, 2, 64, [0; 8])), UrbRequest::Unknown);
    let mut buf = [0u8; 48];
    buf[3] = 2;
    buf[23] = 41;
    let h = UrbHeader::parse(&buf);
    assert_eq!(h.unlink_seqnum(), 41);
    assert_eq!(urb_request(&h), UrbRequest::Unlink { victim: 41 });
}

#[test]
fn replies_encode() {
    let r = ret_submit(9, -32, Some(&[1, 2]), 77);
    assert_eq!(r.len(), 50);
    assert_eq!(r[..8], [0, 0, 0, 3, 0, 0, 0, 9]);
    assert_eq!(r[20..28], [0xFF, 0xFF, 0xFF, 0xE0, 0, 0, 0, 2]);
    assert_eq!(r[48..], [1, 2]);
    let r = ret_submit(9, 0, None, 77);
    assert_eq!(r[24..28], [0, 0, 0, 77]);
    let r = ret_unlink(4, ST_ECONNRESET);
    assert_eq!(r.len(), 48);
    assert_eq!(r[..8], [0, 0, 0, 4, 0, 0, 0, 4]);
    assert_eq!(r[20..24], [0xFF, 0xFF, 0xFF, 0x98]);
}

#[test]
fn control_replies() {
    let asking = |n: u8| [0x80, 6, 0, 1, 0, 0, n, 0];
    let h = urb(1, 3, 1, 0, 2, asking(2));
    assert_eq!(control_reply(&h, 0, Ok(vec![1, 2, 3])), ret_submit(3, 0, Some(&[1, 2]), 0));
    assert_eq!(control_reply(&h, 0, Err(Stall)), ret_submit(3, ST_EPIPE, Some(&[]), 0));
    // The shorter of the setup length and the transfer length counts.
    let h = urb(1, 3, 1, 0, 3, asking(1));
    assert_eq!(control_reply(&h, 0, Ok(vec![1, 2, 3])), ret_submit(3, 0, Some(&[1]), 0));
    let h = urb(1, 3, 1, 0, 1, asking(3));
    assert_eq!(control_reply(&h, 0, Ok(vec![1, 2, 3])), ret_submit(3, 0, Some(&[1]), 0));
    let h = urb(1, 3, 0, 0, 4, [0; 8]);
    assert_eq!(control_reply(&h, 4, Ok(vec![])), ret_submit(3, 0, None, 4));
    assert_eq!(control_reply(&h, 4, Err(Stall)), ret_submit(3, ST_EPIPE, None, 0));
}

#[test]
fn control_data_is_cut_to_the_setup_length() {
    let opts = SimOptions {
        boot_bootloader: true,
        ..SimOptions::default(1)
    };
    let mut sim = Simulator::new(opts, page());
    let (mut c, _, _) = Client::attach(&mut sim, "1-1").unwrap();
    // GET_REPORT of 10 bytes with room for 60, with and without a response.
    let get = [0xA1, 0x01, 3, 3, 0, 0, 10, 0];
    assert_eq!(c.submit(1, 0, get, &[], 60), (0, vec![0; 10]));
    assert_eq!(c.bulk_out(1, &kboot_report(1, &[0x77, 0, 0, 0])), 0);
    assert_eq!(c.submit(1, 0, get, &[], 60), (0, vec![3, 0, 12, 0, 0xA0, 0, 0, 2, 0x13, 0x27]));
    // The head of the device descriptor.
    let head = [0x80, 6, 0, 1, 0, 0, 8, 0];
    assert_eq!(c.submit(1, 0, head, &[], 64).1.len(), 8);
}

#[test]
fn in_transfers_keep_their_order() {
    let job = |seqnum: u32| InJob { seqnum, ep: 0x81, len: 2 };
    let taken = |j: Option<InJob>| j.map(|j| j.seqnum);
    let mut p = Pending::new();
    let mut q = InQueue::new();
    assert_eq!(taken(q.start(&p)), None);
    for seqnum in 1..=5 {
        p.submit(seqnum);
        q.push(job(seqnum));
    }
    // One at a time, the oldest first.
    assert_eq!(taken(q.start(&p)), Some(1));
    assert_eq!(taken(q.start(&p)), None);
    assert_eq!(q.finish(&mut p, Ok(vec![1, 2, 3])), Some(ret_submit(1, 0, Some(&[1, 2]), 0)));
    assert_eq!(q.finish(&mut p, Ok(vec![1])), None);
    // Unlinked ones are skipped, waiting or in hand.
    assert!(p.unlink(10, 2).0);
    assert_eq!(taken(q.start(&p)), Some(3));
    assert!(p.unlink(11, 3).0);
    assert_eq!(taken(q.start(&p)), None);
    q.cancel();
    assert_eq!(taken(q.start(&p)), Some(4));
    assert!(p.unlink(12, 4).0);
    assert_eq!(q.finish(&mut p, Ok(vec![1])), None);
    assert_eq!(taken(q.start(&p)), Some(5));
    assert_eq!(q.finish(&mut p, Err(Stall)), Some(ret_submit(5, ST_EPIPE, Some(&[]), 0)));
    assert_eq!(taken(q.start(&p)), None);
    assert!(!p.unlink(13, 1).0);
    // Numbers come again, after a completion and after an unlink.
    for seqnum in [1, 3] {
        p.submit(seqnum);
        q.push(job(seqnum));
    }
    assert_eq!(taken(q.start(&p)), Some(1));
    assert_eq!(q.finish(&mut p, Ok(vec![4])), Some(ret_submit(1, 0, Some(&[4]), 0)));
    assert_eq!(taken(q.start(&p)), Some(3));
    assert_eq!(q.finish(&mut p, Ok(vec![5])), Some(ret_submit(3, 0, Some(&[5]), 0)));
    assert_eq!(taken(q.start(&p)), None);
}

#[test]
fn stalled_transfers_answer_epipe() {
    let mut sim = Simulator::new(SimOptions::default(1), page());
    let pkt = handle_out(&mut sim, 5, 3, &[1, 2], &moment());
    assert_eq!(pkt, ret_submit(5, ST_EPIPE, None, 2));
    let mut p = Pending::new();
    p.submit(6);
    assert_eq!(p.complete(6, 8, Err(Stall)), Some(ret_submit(6, ST_EPIPE, Some(&[]), 0)));
}

#[test]
fn every_urb_is_answered_once() {
    let mut p = Pending::new();
    p.submit(1);
    p.submit(2);
    assert!(p.contains(1));
    // Completed first: the unlink finds nothing.
    assert_eq!(p.complete(1, 2, Ok(vec![7, 8, 9])), Some(ret_submit(1, 0, Some(&[7, 8]), 0)));
    assert_eq!(p.unlink(10, 1), (false, ret_unlink(10, 0)));
    // Unlinked first: the completion is silent.
    assert_eq!(p.unlink(11, 2), (true, ret_unlink(11, ST_ECONNRESET)));
    assert_eq!(p.complete(2, 2, Ok(vec![7])), None);
    assert!(!p.contains(2));
}

#[test]
fn unlinks_and_unknown_commands_are_dispatched() {
    let mut sim = Simulator::new(SimOptions::default(1), page());
    let mut p = Pending::new();
    let h = urb(1, 20, 1, 1, 64, [0; 8]);
    assert!(matches!(
        dispatch(&mut sim, &mut p, &h, &[], &moment()),
        UrbAction::Queue { seqnum: 20, ep: 0x81, len: 64 }
    ));
    let mut buf = [0u8; 48];
    buf[3] = 2;
    buf[7] = 21;
    buf[23] = 20;
    let h = UrbHeader::parse(&buf);
    for was in [true, false] {
        match dispatch(&mut sim, &mut p, &h, &[], &moment()) {
            UrbAction::Unlinked { victim, was_pending, reply } => {
                assert_eq!((victim, was_pending), (20, was));
                assert_eq!(reply, ret_unlink(21, if was { ST_ECONNRESET } else { 0 }));
            }
            other => panic!("not unlinked: {other:?}"),
        }
    }
    let h = urb(9, 22, 0, 1, 0, [0; 8]);
    assert!(matches!(dispatch(&mut sim, &mut p, &h, &[], &moment()), UrbAction::Close));
}

#[test]
fn a_reset_returns_to_the_analyzer() {
    let opts = SimOptions {
        boot_bootloader: true,
        fw_version: 58,
        ..SimOptions::default(1)
    };
    let mut sim = Simulator::new(opts, page());
    assert_eq!(sim.summary().vid, 0x1FC9);
    assert!(sim.analyzer().is_none());
    let r = kboot_report(1, &[0x0B, 0, 0, 0]);
    assert_eq!(sim.out_transfer(1, &r, &moment()), Ok(60));
    assert!(matches!(sim.advance(), SimAction::Sleep { millis: 300 }));
    assert!(matches!(sim.advance(), SimAction::Proceed));
    assert_eq!((sim.summary().vid, sim.fw_version(), sim.generation()), (0x16C0, 58, 1));
    assert!(sim.analyzer().is_some());
}

#[test]
fn flashed_versions() {
    let rel = Release {
        firmware_version: Some("58".to_string()),
        images: vec![sha256_hex(b"known")],
    };
    let opts = SimOptions {
        registry: Some(FirmwareRegistry::load(&[rel])),
        post_flash_version: Some(61),
        ..SimOptions::default(1)
    };
    let sim = Simulator::new(opts, page());
    assert_eq!(sim.resolve_flashed_version(b"known"), Some(58));
    assert_eq!(sim.resolve_flashed_version(b"unknown"), Some(61));
    let sim = Simulator::new(SimOptions::default(1), page());
    assert_eq!(sim.resolve_flashed_version(b"known"), None);
    assert_eq!(saved_file_name(12, b"abc"), "qa40x-flash-12-ba7816bf.sb");
}

#[test]
fn an_unknown_image_keeps_the_version() {
    let opts = SimOptions {
        boot_bootloader: true,
        ..SimOptions::default(1)
    };
    let mut sim = Simulator::new(opts, page());
    let mut image = vec![0u8; 24];
    image[20..24].copy_from_slice(b"STMP");
    let cmd = [8, 0, 0, 1, 24, 0, 0, 0];
    let _ = sim.out_transfer(1, &kboot_report(1, &cmd), &moment());
    let _ = sim.out_transfer(1, &kboot_report(2, &image), &moment());
    assert!(sim.can_advance());
    assert!(matches!(sim.advance(), SimAction::Sleep { millis: 2000 }));
    assert_eq!(sim.fw_version(), 60);
}

#[test]
fn clients_find_what_they_asked_for() {
    // Several units on one server, each under its own bus id.
    let mut units: HashMap<String, Simulator> = HashMap::new();
    for id in ["1-1", "2-1"] {
        let opts = SimOptions {
            busid: id.to_string(),
            ..SimOptions::default(1)
        };
        units.insert(id.to_string(), Simulator::new(opts, page()));
    }
    let (granted, reply) = units.get_mut("2-1").unwrap().import();
    assert!(granted);
    assert_eq!(&reply[8 + 256..8 + 260], b"2-1\0");
    assert!(units.get_mut("1-1").unwrap().import().0);
}
