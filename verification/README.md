# mcap_player

A player for MCAP recordings of vehicles: cameras, a planned path, odometry, laser scans and
transforms, from a file or from a recording server.

- `src/` is the library. It decides what to read, what to keep, what to decode and what to show,
  and states and proves what it does.
- `app/` is the browser application around it: files, requests, drawing and floating point.
- `tests/` runs the library on concrete recordings, among them files that the `mcap` crate writes.

Floating-point values pass through the library as their bit patterns (`message::float`): it compares
and narrows them, and leaves trigonometry to the application.
