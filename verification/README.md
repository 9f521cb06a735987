# Filebase

A desktop window over a directory of Slipcase containers: point it at a
folder, ask a question in SlipQL, and the containers that answer come back as
rows. Select a row and the container's content file and its flyleaf are beside
it.

## Layout

- `src/` is the engine, verified with Verus. Nothing in it draws or touches
  the disk.
  - `query.rs`: a run's rows, the columns of `select *`, the notices a scan
    gives, and the status line under the table. `Run::drain` takes what the
    scan sent since the last frame.
  - `feed.rs`: the scanning side: batching rows for the window and stopping
    at the ceiling of `MOST_ROWS`, and what a scan drained to the end leaves
    the window.
  - `detail.rs`: what one container says about itself, and its size line.
  - `policy.rs`: the flyleaf tree is read and never written.
  - `window.rs`: the window's state, and what binding a folder, parsing the
    query box, starting a run and choosing a row do to it.
  - `text.rs`, `messages.rs`: numbers, escaped names and message templates.
- `app/` is the window: egui, the folder dialog, the scanning thread and its
  channel, opening containers and handing content files to the system.
- `tests/` runs the engine on concrete values.
