# pereprava

An MTP client for macOS: an Android phone on the command line and, through a
local NFS server, in Finder. The logic is a library that is verified with
[Verus](https://github.com/verus-lang/verus); the program around it makes the
calls of the device, the file system and the network.

## Layout

- `src/` is the library. What needs the device or a file is written as a state
  machine: a function takes the state and an answer, and gives the next step.
  Contracts are stated over the views of the state, and the functions named
  `law_…` state what holds of whole operations.
  - `path`, `names`, `text`, `posix`, `format`: device paths, name equality,
    texts and numbers
  - `cache`, `step`, `session`, `session_laws`: a session with the device
  - `ids`, `nfs`, `dirlist`, `volume`, `volume_step`, `volume_laws`,
    `volume_contents`: the volume and what its files hold
  - `ops`, `ops_laws`, `transfer`, `pack`, `bundle`, `bundle_laws`: trees, single
    files and archives
  - `probe`, `commands`, `doctor`, `bench`, `mount`, `watch`, `status`: the
    commands, the watcher and what is shown of it
- `tests/` runs the library on concrete values, against a phone and a disk that
  are held in memory.
- `app/` is the program: `main.rs` is the command line; `menubar.rs` and
  `widget.rs` are the roots of the two desktop programs.
