# packet_radio

A packet radio client: AX.25 over AGWPE, over KISS on TCP, on a serial line or over
Bluetooth LE, and over kernel sockets, with Telnet and SSH sessions beside them.

`src/` is the library. Every function in it carries a contract that Verus checks. It
holds the wire formats (`codec`, `kiss`, `wire`, `xid`, `netrom`, `telnet`), the
connected-mode protocol (`arq`) with the proof that what either side sends is delivered
to the other, once and in order, though frames are lost (`arq_laws`, `transfer_laws`),
the state of each kind of port (`client`, `runner`, `kiss_runner`, `kiss_monitor`,
`transports`), the state of the application (`app_state`, `session_tab`, `window`,
`events`, `actions`, `window_laws`), the features around it (`mailbox`, `keyboard_mode`,
`notify`, `highlight`, `beacons`, `qrz`) and the rules behind each dialog (`ports`,
`address_book`, `settings`, `dial`, `startup`).

The functions of other crates that the library calls stand behind contracts that are
not proved: `patterns` (regex), `link` (ax25), `qrz` (percent-encoding), and `text` and
`history_paths` (std).

`app/` is the program around it: files, sockets, threads and the GTK window.
`tests/` runs the library on concrete values.
