# primer29

Verified core of the RMK-based firmware for the Primer29 numpad (ProMicro RP2040, duplex
matrix, Vial).

- `src/` — the library, verified with Verus:
  - `keymap` — the default four-layer keymap and its layout table;
  - `matrix` — the duplex scan map (which pin pair reads each switch);
  - `action`, `event` — key actions and input events as plain values;
  - `sequences` — the sequence-macro engine as a state machine: `step` maps a state, an input
    (an event or a timeout) and the time to the next state and the events to send on;
  - `sequence_laws` — properties of the engine over all inputs (well-formedness is kept,
    key events are never reordered or lost except into a sequence, synthetic presses and
    releases alternate, a sequence fires exactly on its key 2, taps and rolls fire);
  - `run_laws` — properties of whole runs from the idle state (no key event lost or reordered
    when no sequence fires, presses and releases stay paired per key, synthetic events
    alternate, other events change nothing, without sequence triggers every event passes at once);
  - `timing` — tick arithmetic over embassy-time.
- `tests/` — tests of the keymap, the scan map and engine scenarios.
- `app/` — the firmware itself: hardware bring-up, RMK, and the loop that feeds the engine
  with matrix events and deadlines and sends its output to RMK's channels.
