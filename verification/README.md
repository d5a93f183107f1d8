# pdf_link

The program of a device that shows a PDF in step with a remote command server, with its logic
verified by Verus.

- `src/` decides. Each function states what it returns or changes, and each module states the laws
  that hold across its functions.
  - `calendar`, `stamp`, `text`: dates, time stamps, log lines, numerals, white space.
  - `encoding`: percent-encoding and Base64.
  - `device`: the device's id and name.
  - `link`: the address of the server, and how the connection is kept up.
  - `message`: what a message asks for, and how a page comes on show.
  - `path`: names and paths, and which of them stay inside the directory of the device's files.
  - `sync`: how the files of a list are fetched, and where they go.
  - `pdf`: which PDF is on show, and how it is handed out.
  - `http`: answers to requests; `event`: what the screen is told.
- `app/` acts: the disk, the sockets, the HTTP server and the screen.
- `tests/` runs the library on examples.

A handful of functions of other crates and of the standard library are called from `src/`. What is
believed of each stands above it, in `encoding`, `device`, `stamp` and `text`.
