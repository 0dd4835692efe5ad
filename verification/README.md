# snib_capture

Thumbnails of the windows and monitors of a Wayland session, with the logic
verified in Verus.

- `src/` is the library. It holds no connection: events go in as plain values,
  and what to do next comes out.
  - `globals`: which globals to bind, and at which version.
  - `desktop`: the windows and monitors that are known.
  - `jobs`: what to capture and in which order, and the finished thumbnails.
  - `session`: one capture session, the wait for it and the buffer it needs.
  - `run`: the steps of one capture; `course`: what holds of all of them together.
  - `develop`, `picture`, `pixels`, `scale`: from the bytes of a frame to its
    thumbnail. `scale` carries out single-precision arithmetic over whole
    numbers.
  - `text`: captions and search texts.
- `app/` speaks the protocol: it binds, dispatches, maps memory and runs the
  captures that the library asks for.
- `tests/` runs the library.

Setting `SNIB_DEBUG` makes `app/` report on standard error what it finds.
