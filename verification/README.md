# esp_examples

Verified logic of a set of ESP32 example programs (bare metal on `esp-hal`,
and on ESP-IDF through `esp-idf-svc`).

- `src/` is the library, verified with Verus: the clocks the timer programs
  keep (`clock`), the button and LED decisions of the main loops and the
  interrupt handlers' flags (`controls`), the LED fading sweep (`fade`), the
  DS1307 register encoding through `nobcd` (`rtc`), the UART XOR cipher
  (`cipher`), the weather forecast scanner (`forecast`), the served pages
  (`pages`) and the synchronised clock's report through `chrono`
  (`time_sync`).
- `tests/` runs the library on concrete values.
- `app/` holds the programs themselves: peripherals, interrupts, delays,
  Wi-Fi, HTTP, logging, and the floating-point parts.
