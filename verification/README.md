# backend

The backend of a guest WiFi voucher manager for a Ruckus Unleashed
controller: it mints a `daily-YYYY-MM-DD` guest pass at a configured hour,
serves the current code to a display page, and creates one-off passes.

`src/` is the library, written in Verus and verified:

- `text`, `decimal`, `xml`: characters, decimal numbers and the small XML
  grammar the controller speaks, each as functions on characters with
  contracts over `Seq<char>`.
- `models`: guest passes, their XML parsing, name sanitising and daily pass
  names; the UniFi voucher types.
- `clock`: time zones (through `chrono-tz`), periods that start at the roll
  hour, and the time until the next roll.
- `environment`: the configuration and its validation.
- `unleashed_api`: the controller protocol (CSRF scraping, request framing,
  reading the replies).
- `handlers`: which pass the display shows, the cache that survives a
  controller outage, and the HTTP statuses.
- `tasks`: the decisions of the background tasks.
- `unifi_api`: the UniFi hotspot-voucher integration's requests and answers.

`app/` is the program around it: the HTTP server, the HTTP clients, the
background tasks and the JSON forms of the library's types.

`tests/` exercises the library on concrete values.
