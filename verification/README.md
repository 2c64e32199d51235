# dht11_driver_rust

A DHT11 temperature and humidity sensor driver whose protocol logic is
verified with Verus.

- `src/exchange.rs` — the single-wire protocol as a state machine: which pin,
  delay or counter action comes next, given the outcome of the last one.
- `src/decode.rs` — turning the 40 measured pulse widths into a measurement,
  with the checksum check.
- `src/runs.rs` — laws about whole runs: under software timing and under
  cycle-counter timing alike, a sensor that answers every wait in time is
  read as the bytes it sends.
- `src/measurement.rs` — the measurement and its fixed-point views.
- `src/sensor.rs` — the type-state sensor handle (`Uninitialized`,
  `Initialized`).
- `app/lib.rs` — runs exchanges on `embedded-hal` pins and delays (and the
  Cortex-M cycle counter), and the floating-point conversions.
