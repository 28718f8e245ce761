# finn_guidance

GPS guidance and auto-steer for agricultural equipment: a PC program that
reads an LC29H GPS module and a motor ESP32 over USB serial, steers at a
fixed 10 Hz, and records implement coverage in SQLite.

## Layout

- `src/` — the verified library (Verus). Its functions carry contracts
  (except the constructors and snapshot of the shared atomic counters,
  whose contents nothing models) and the laws of the system are proof
  functions:
  - `protocol`, `finn_parser`: the `$<body>*<checksum>\r\n` sentence
    protocol with the motor ESP32; every framed `FINN` body passes the
    framing and checksum check unchanged, and motor status and
    acknowledgement sentences parse back to what was sent.
  - `motor_firmware`, `sensor_firmware`: the decisions of the ESP32
    firmware (command parsing, watchdog, status reports, GPS line
    forwarding, sensor schedule, IMU register decoding).
  - `gps_config`, `nmea_sentences`: the GPS module configuration dialogue
    (fix-rate negotiation with fallbacks, acknowledgements), port probing,
    and sentence routing.
  - `channels`, `counters`: drop-on-full delivery of reader items to the
    GUI and the steering thread, with shared drop counters.
  - `coverage`: stored fix-quality names, import of fields and AB lines,
    and the coverage logger's bookkeeping (segments, epoch deduplication,
    time filter, batched writes).
  - `telemetry`, `was_learner`, `guidance`: the integer side of steering
    telemetry, the wheel angle sensor centre learner's schedule and bounds,
    and the steering loop's command queue and tick.
  - `digits`, `text`, `strings`, `utf8_pieces`: byte-level helpers.
- `tests/` — tests of the library on concrete values.
- `app/` — the program around the library: serial and SQLite I/O, threads,
  logging, and the floating-point geometry and control (AB lines, pure
  pursuit, interpolation, NMEA position decoding).

The ESP32 firmware binaries and the egui front end are not part of this
crate; the program runs with a console front end.
