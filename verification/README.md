# inputlagscope

Verified core of a controller input-latency and polling-rate tester.

- `src/` is the library, verified with Verus: HID report descriptor
  parsing and report decoding (`hid_descriptor`, `hid_bits`, `protocol`,
  `xinput`), device and trigger-port listing (`device_probe`), the trigger
  board's serial frames and clock round trips (`serial_trigger`), the
  measurement and polling-rate bookkeeping (`measurement`, `polling`,
  `history`, `ranking`), command-line options (`headless`, `number_text`)
  and capture decisions (`capture`, `clock`).
- `app/` is the program around it: system device listings, serial and HID
  I/O, capture threads, floating-point statistics and JSON output.
- `tests/` runs the library on concrete inputs.
