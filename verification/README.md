# maestro

Verified parts of a Unix-like kernel, written in Rust and proved with Verus.

- `vfs`: the virtual file system: cached entries, path resolution, creation of files, links and
  their removal, and the operations on open files.
- `fcache`: a cache of files, with the search for files across mountpoints.
- `pipe`, `ring_buffer`: pipes.
- `pid`, `id_allocator`: process IDs.
- `syscall`: the `fcntl64` and `getdents64` system calls.
- `trace`: samples of memory usage.
- `path`, `file_path`, `perm`, `stat`, `bytes`, `errno`, `limits`, `ioctl`, `user`,
  `history`: what the rest is built on.

File systems, devices, mountpoints and the memory of processes are outside the library. They stand
behind traits of which nothing is taken for granted, except that a service has a history: every
method adds its call, with the reply, to it. The contracts are stated over that history (see
`history`): for every stream of replies that begins as the history does, the operation asks exactly
these questions, and comes to exactly this result. The references to the entries of the VFS, which
the rest of the kernel holds, have a history of the same kind (`vfs::references`).

Modules named `laws` hold what is true of several operations together, as proof functions.

`app/` holds what surrounds the library: shared state behind locks, the serial port and the
scheduler. `tests/` runs the library on file systems in memory.
