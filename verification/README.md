# enclaver

Keeps the files and the environment of an enclave in step with those of its host.

The host groups the listed files by directory, watches the directories, and sends
each group as one changeset. The enclave receives a changeset into a stamped
directory of its own and puts it in place by renaming one link, so that readers
find either all of the old files or all of the new ones.

`src/` is the library, verified with Verus. Reading, writing and waiting are left to
the caller: the senders and receivers are state machines that name the next
operation and take its outcome.

Four small functions are trusted rather than verified. Each makes one outside call,
and the comment above it says what is claimed of that call:

- `clock::utc_now` reads the clock through chrono,
- `clock::format_utc` writes a date and time through chrono,
- `environment::parse_json_map` parses a JSON object of strings through serde_json,
- `text::quote` quotes a string as the standard library's `Debug` does.

| module | what it is about |
| --- | --- |
| `files`, `watcher`, `sender` | the host: groups, events, sending a changeset |
| `changeset`, `file_sync` | the enclave: receiving a changeset, serving the host |
| `environment` | receiving environment variables |
| `messages`, `json_transport` | the messages and their framing |
| `paths`, `table`, `text`, `clock`, `sizes` | paths, tables, texts, stamps and sizes |
| `actions` | the operations that the enclave asks for |
| `disk`, `placement`, `outcome`, `transfer`, `service` | laws: what is on disk at each point, when changesets end and succeed and what they take off the connection, host and enclave together, the server over its connections |

`tests/` runs the library on an in-memory file system and connection. `app/` is the
program around it: sockets, the file system, directory events and the command line.
It runs the two syncs and then the entrypoint. Setting up the enclave, its network
and its keys, and reporting its status and logs, are no part of it.
