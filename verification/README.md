# nocturned

The on-device daemon of the Nocturne firmware for the Spotify Car Thing: its
wire formats, protocol state machines and policies, written in Verus with
their contracts proved.

## Layout

- `src/` – the verified library.
  - Wire formats: `chunking` (message envelopes), `reassembly` (chunked
    messages back into whole ones), `spp` (base64 lines on the serial link),
    `ancs` (Apple Notification Center Service frames), `hci` (kernel
    connection lists), `json` (JSON values), `msgpack_value` (MessagePack
    values read as JSON), `events` (the companion app's events in canonical
    form), `base64_codec`.
  - State machines: `ancs_client`, `notification_board`, `accessory`
    (BLE advertising controller), `pairing` (pairing agent), `recording`
    (voice recording, its start sequence and the capture actor), `audio`
    (pre-roll buffer, traces, wake-word detector control), `wind` (wind
    alert hysteresis), `ota` (update pulls), `reconnect` (recent pairings, known connectors), `control` (Bluetooth
    control requests and the connection order), `replies` (where the
    phone's replies go).
  - Policies: `bluetooth` (device classification and routing), `dispatch`
    (where calls go), `brightness`, `image_cache`.
  - Helpers: `address`, `bytes_util`, `search`, `text`.
- `tests/` – tests of the library.
- `app/` – process glue around the library: clocks, file and socket I/O
  (the backlight and ambient-light sensor in `brightness_io`), floating-point
  signal processing and display curves, and conversions to and from wire
  JSON. The BlueZ/D-Bus event loops and the Opus capture loop that drive the
  library's state machines are not part of this crate.
