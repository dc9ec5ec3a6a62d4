# virtual-qa40x

A virtual QA402/QA403 audio analyzer: a USB device model that behaves like the
real hardware (register bus, ADC/DAC streaming with loopback, factory
calibration page, telemetry, and a fake firmware upgrade through an emulated
NXP KBOOT bootloader), exported over USB/IP or presented through the Linux USB
gadget stack.

Unofficial project, not affiliated with, endorsed by, or supported by
QuantAsylum.

## Layout

* `src/` is the device model and its protocols, verified with Verus: every
  function states what it returns or changes, and the laws that span functions
  are public `lemma_*` proof functions beside the types they speak of.
* `app/` is ordinary Rust around it: command line, sockets, tasks, files, the
  floating-point audio engine.
* `tests/` runs the library on concrete values.

| Module | Role |
|---|---|
| `analyzer`, `stream`, `calpage` | Register bus, audio queues and noise, calibration page |
| `bootloader` | KBOOT HID bootloader |
| `identity`, `backend`, `persona` | USB descriptors, what a transport sees, the two personas |
| `sim` | Persona switching and what survives a reboot |
| `proto`, `server`, `inqueue` | USB/IP wire format, device list, import, URBs, queues of IN transfers |
| `descriptors`, `runner` | FunctionFS blobs, gadget events and pumps |
| `config`, `options`, `registry` | Device specifications, options, firmware registry |
| `rng`, `text`, `wire` | Seeding, text and byte helpers |

## What is trusted

Four functions are taken at their word, each stated where it is declared:
`sha2::Sha256::digest` and `str::to_lowercase` (`registry`),
`String::from_utf8_lossy` (`server`) and `String::push` (`text`).

## Running

`vqa40x` serves USB/IP on port 3240; `vqa40x --help` lists every option. Without
a custom calibration page it serves `assets/calpage-qa402.bin`, looked up beside
the program and then below the working directory. Started under
the name `vqa40x-gadget` the program drives a FunctionFS gadget instead.
