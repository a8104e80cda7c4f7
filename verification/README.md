# Centinela

Verified logic of a battery-powered temperature node: a DS18B20 on a 1-Wire bus,
read once per wake, with deep sleep in between.

- `src/` is the library, proved with Verus.
  - `temperature` - temperatures in sixteenths of a degree, errors and ports
  - `ds18b20` - command bytes, the configuration register, the scratchpad and its CRC-8
  - `driver` - the read as a script of bus actions, driven by what came of each
  - `log_buffer` - a journal in a fixed number of bytes
  - `cycle` - the wake cycle: sleep balance, journal lines, console output
  - `decimal` - decimal numerals
- `tests/` runs the library on concrete values.
- `app/` is the ESP32-C3 firmware around it: bus, timer, button, sleep and console.
