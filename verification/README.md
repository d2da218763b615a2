# crazyflie-link

Link layer for the Crazyflie quadcopter, verified with Verus.

- `src/` is the verified library: the CRTP packet format (`packet`), the
  Safelink state of a Crazyradio link and the decisions of its connection loop
  (`link`), link URIs (`uri`), the packet-capture header (`capture`), USB
  helpers (`usb`) and small text routines (`text`). Laws about these (wire
  round trips, Safelink duplicate rejection, scan URIs reading back) are proof
  functions next to the code they speak of.
- `app/` runs the library against the Crazyradio driver, USB and the Tokio
  executor: `LinkContext`, `Connection` and the connection tasks.
- `tests/` exercises the library on concrete values.
