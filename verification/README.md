# wifi_display

Firmware logic of an e-ink display that is controlled by WiFi and NFC, verified
with Verus.

A phone writes WiFi credentials, a text or an address to the NFC tag of the
device. In live mode the device is online and shows frames that it receives
over MQTT; it also installs new firmware that is announced there.

## Layout

- `src/` is the library. Every function is verified against its contract.
  - `decoding`: chunks of frames, as base64 in JSON.
  - `tasks/`: what the tasks decide. `chunks` puts frames together,
    `subscriptions` keeps the topics, `task_display_handler` queues and paints,
    `task_nfc` watches the tag, `task_wifi_runner` goes online, and `task_run`
    does so on a device that keeps no settings.
  - `nvs`: settings, as the bytes that are stored for them.
  - `ota/`: an update step by step, its messages and addresses.
  - `ota_http`: the download of an image. `ota_key`: the key for images.
  - `secure_flash/`: storage on encrypted flash, generic over the chip, with a
    chip in memory and the bookkeeping for the ESP32-C3.
  - `encrypted_flash`: the flash layout of the display.
  - `text`, `short_text`: text as characters, bytes and `heapless` strings.
- `tests/` runs the library.
- `app/` is the firmware around it: it reads and sends, and does what the
  library says. `app/board.rs` needs the crates of the ESP32-C3 and those of the
  panel, the tag and the storage.

What the library takes on trust stands above each function that is marked
`external_body`: calls of `heapless`, `bincode`, `base64ct` and of two functions
of the standard library.

Laws that hold of several functions together are proof functions whose names
begin with `law_`.
