# remotefs

A remote file system over HTTP: the servers that keep the files, the client that
mounts them, and everything both decide, proved with Verus.

- `src/` is the library. Its functions carry contracts; only what the clocks
  show is left open. Every operation that alternates decisions with input and
  output is a function from what has happened so far to the next step.
- `tests/` runs the library on concrete requests and replies.
- `app/` performs the steps: it serves, sends, reads files, and mounts.

| module | what it decides |
| --- | --- |
| `api`, `client`, `http`, `remote_api` | requests, replies, retries and error numbers |
| `cache`, `session`, `table`, `bytes`, `clock` | chunks of files, listings and how long they stay valid |
| `remote`, `inodes`, `inode_table` | the client's file system: numbers of files, what to remember and forget |
| `fuse`, `dokany`, `winfsp`, `plain_volume` | what a mounted volume answers |
| `handlers`, `reply`, `storage`, `rooted`, `range`, `paths`, `native`, `disk` | what the servers answer, byte ranges, paths below a root, paths as the system reads them and what becomes of a file |
| `daemon`, `errno`, `numeral`, `text`, `wide` | processes, error numbers, numerals and text |
