# peripheral_ledger

A tamper-evident ledger of device-interface notifications. Every sealed
event carries the SHA-256 of its canonical JSON and of the hash of the event
before it, so a verified chain shows that no stored event was changed.

- `src/` is the verified library: events and their risk levels, the local
  alert policy, sealing and chain verification (`domain`), stored rows and the
  link an appended event receives (`record`), the decisions taken on Windows
  device notifications and event-log entries (`notification`), the text form
  of a deny list (`deny_list`), character helpers (`text`), the canonical
  JSON of the hashed fields and its injectivity (`canonical`), the calls into
  serde_json and sha2 (`digest`), and the laws that span these (`laws`).
- `app/` is the program around it: the SQLite store (rusqlite), JSON and CSV
  export (serde_json, csv), and on Windows the notification window and the
  service.
