# JAS — verified core

JAS (Jackson's App Sensei) is a self-hosted server that installs iOS apps on
devices reachable over the network and refreshes them before Apple's seven-day
development certificates run out. It is a Leptos web portal over SQLite,
`idevice` (device services over RemotePairing/RSD) and `isideload` (Apple ID,
certificates, signing).

This crate splits the server in two:

- `src/` — the `jas` library, verified with Verus. It holds what the server
  decides: the registry of devices, Apple accounts, apps and jobs with its
  keys and references (`registry`), certificate expiry and the labels shown
  for it (`expiry`, `duration`, `labels`), the scheduler's and workers'
  choices (`scheduler`), IPA metadata (`ipa`), the upload plan and progress
  (`upload`), device connection and account helpers (`sideload`), request
  validation (`requests`), the login flow's decisions (`login`), the
  portal's values (`portal`) and the sealing of secrets kept at rest,
  with the pairing record's import and export (`vault`). Calls into outside crates (`chrono`, `zip`,
  `plist`, `sha2`, `hex`, `base64`, `ring`, `idevice`, and `std`'s clock) stand behind small
  trusted wrappers whose contracts are stated next to them.
- `app/` — the executable around it: configuration, SQLite persistence of the registry, the device and signing I/O,
  the background scheduler and workers, and the Leptos pages and server
  functions.

`tests/` exercises the library on concrete values.
