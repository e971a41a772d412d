# hybrid_mount

The decision logic of a module mount daemon for Android, written in Verus and
proved against its contracts.

- `src/` is the verified library: a model of `std::path` (`path`, `path_exec`,
  `normalize`, `resolve`), the configuration and the commands that change it
  (`config`, `conf`, `kasumi_cli`), partition discovery (`partitions`), the
  HymoFS rule compilation and status (`hymofs_rules`, `hymofs_status`), the
  magic mount planning (`magic_mount`), the module storage sync (`sync`,
  `storage`), the boot recovery loop (`recovery`), the APatch nuke sequence
  (`nuke`), log selection (`logs`) and small system helpers (`sysutil`).
  Calls into std and outside crates that the logic makes stand behind small
  trusted wrappers whose contracts state what their documentation promises.
- `app/` is the program around it: argument parsing, file and mount I/O,
  logging, the configuration commands, and a boot run that prepares the module
  storage, syncs the modules into it and recovers from module failures. It
  also holds the walk that compiles mirror content into HymoFS rules; the
  mount plan that would call it, and the magic mount itself, are not part of
  this program.
- `tests/` runs the library on concrete values, often against `std::path`.
