# nexus

Cross-device file sharing, state migration and screen streaming, written in Verus: the decisions
are executable Rust with proved contracts, and everything that touches the outside world stays
around them.

- `src/` is the library. What a request does is decided by functions from plain values to plain
  values, and where outside work has to be done in between, by functions that say what to do next.
  - `clock`, `store`: vector clocks, and what is remembered of live and deleted paths.
  - `host`, `host_laws`, `files`, `gc`, `age`: the serving side, the laws that hold of it over whole
    requests, and how old entries are forgotten.
  - `inode`, `fuse`: the mounting side.
  - `device`, `certs`, `pairing`, `config`: identities, certificates, pairing and their files.
  - `discovery`: finding hosts on the local network and choosing one.
  - `migrate`, `sdk`, `transport`, `android`: moving the state of applications.
  - `frames`, `scale`, `pacing`, `input`: screen streaming and remote control.
  - `saf`: documents on Android.
  - `text`, `keymap`, `status`, `wall`: what the others are made of.
- `tests/` runs the library on concrete values.
- `app/` is the program around it: the command line, files, JSON, the network services and their
  client, the kernel's file system interface, multicast DNS, X11 for capture and for
  viewing, and the input device.

Functions named `law_...` state what holds across several operations.
