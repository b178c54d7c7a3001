# lv2hm

A minimal host for LV2 plugins (effects with audio in and out, instruments with
MIDI in and audio out, settable parameters, no GUI), split in two:

- `src/` is the verified core, checked with Verus. It keeps the host's
  bookkeeping: plugin slots, plugin names, released slots and their reuse, the
  classification of a plugin's ports and the refusal of plugins the host cannot
  drive, the wiring of ports to buffers, and the bytes of the atom buffer
  (including the MIDI event sequences). `src/laws.rs` states and proves the
  properties that hold across operations.
- `app/` is the host around it: the lilv world and plugin instances, the float
  audio buffers and control values, and every call through lilv's C interface.
