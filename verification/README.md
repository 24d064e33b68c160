# els_core

Logic of a single-axis electronic lead screw (ELS) for a lathe: the Z lead
screw follows the spindle at the selected pitch while a virtual half-nut is
engaged, with stops, jogging, a Nextion touch panel and a WiFi setup page.
Everything that decides anything is in `src/` and verified with Verus;
`app/` is the ESP32 firmware around it (hardware, tasks, radio, flash).

## Layout

- `src/` — the verified library.
  - `gearbox.rs` — spindle → motor target as an exact rational line, stops,
    thread-phase resynchronisation.
  - `stepgen.rs` — segment planner: velocity and acceleration limits and the
    exact STEP pulse times of each segment, encoded as sequencer items.
  - `stepper.rs` — the tick-polled step scheduler.
  - `jog.rs` — tap/hold jogging with speed levels and braking.
  - `spindle.rs` — wrapping counter unwrapping and backlash filter.
  - `motion.rs` — one control segment: sample, apply commands, plan.
  - `ui.rs`, `panel.rs`, `display.rs`, `nextion.rs` — keys to commands,
    display text and colours, the display protocol.
  - `record.rs`, `settings.rs` — CRC-framed flash records in two alternating
    slots, settings and operator state, validation.
  - `web.rs`, `dns.rs` — the setup page: HTTP request framing, form
    decoding, page rendering, captive-portal DNS.
  - `form.rs` — the form body a browser submits for the page, and the law
    that applying it gives the settings back.
  - `buffers.rs` — the `heapless` containers as the contracts see them.
- `tests/` — scenario tests run against the compiled library.
- `app/` — the firmware: `main.rs` (motion, touch and panel tasks),
  `setup.rs` (hotspot, DHCP, DNS, HTTP), `storage.rs` (flash), `config.rs`.

Laws that span several calls (a record reads back what was written, saving
to the slot `next_slot` names makes it the one loaded, a pitch change does not
move the carriage, the target stays between the stops, ...) are public proof
functions next to the code they are about.
