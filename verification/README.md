# linear_wireless

Verified core of a family of ESP32 remote-control programs that talk over
ESP-NOW: one board sends a single byte per button press or encoder click,
another toggles the LED or motor the byte names.

- `src/` is the library, checked by Verus: the message bytes of colours and
  directions (`colour`, `direction`), the receivers' decisions (`led`,
  `motor`, `peer`), the rotary-encoder decoder (`encoder`), the logger's
  target filter and line layout (`logger`), and the shared error type
  (`errors`).
- `app/` holds the board programs: peripherals, ESP-NOW, the async tasks and
  the global logger, all calling into the library for their decisions.
- `tests/` runs the library on concrete values.
