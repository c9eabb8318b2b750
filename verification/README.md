# gpu-fanctl

Fan control for the FanConnect II external fan headers of the ASUS ROG Strix RTX 2080 Ti, with
its core verified by Verus.

## Layout

- `src/` — the verified library:
  - `config` — the settings file: parsing (`key = value` lines, curves as `temp:duty` points),
    range checks, rendering, and switching between the Auto curve and a remembered custom curve.
    `config_laws` proves that a rendered file reads back as the same settings and that switching
    to Auto and back keeps the custom curve.
  - `fanconnect` — the controller's registers behind a `Transport`, which only a recording
    bus (`bus`) can reach, so every transfer enters the controller's ghost record. The
    transport's `write` may only be asked for an allowed write, so the rule holds of what is
    sent as well as of the record. Identifying
    the controller reads its status registers and mode in order, stops at the first failure and
    writes nothing; it succeeds exactly when the values fit. The controller provably never
    writes the card's auto mode, nor any register other than the mode, the duty and the two
    output switches, and the fail-safe is the control sequence followed by full duty.
  - `daemon` — the decisions of the once-a-second control loop: taking control again when the
    mode changed, noticing another program writing the duty, counting I2C failures, following
    whether the GPU temperature can be read.
  - `locate` — finding the controller among the I2C adapters in sysfs (Linux) or NVAPI's GPUs
    (Windows), only ever on a supported card.
  - `gpu`, `status`, `service_files`, `changelog`, `panel` — what NVML reports, the freshness of
    the published status, the systemd unit and desktop entry, the About page's changelog, and the
    app's service texts.
  - `icon` — the app icon as a PNG (uncompressed deflate blocks, CRC-32, Adler-32) and as a
    Windows .ico, with proofs of what a reader finds in each file.
  - `live` — the desktop app's live values: where each second's sample comes from, the
    ten-minute history, clearing the latest value when a read fails, retrying the card, and the
    0 RPM warning.
  - `text` — the character-level operations the parsers and message builders share.
- `app/` — the `gpu-fanctl` command-line program around the library: argument handling, file
  and device I/O (i2c-dev, NVAPI, NVML), the control loop itself, logging, the service
  installers, and the floating-point parts (the curve interpolation and smoothing controller,
  drawing the icon).
- `tests/` — tests of the library.

The project also has a desktop window (an egui/eframe program with charts and a curve editor).
It is not built here: `app/` holds the one command-line program, and eframe is not among this
crate's dependencies. What the window decides and shows is in `panel`, `changelog` and `live`.
