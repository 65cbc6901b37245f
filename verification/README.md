# volumesetup

Verified decision logic for setting up a machine's persistent volume, with
the machine-facing parts around it.

`src/` (verified with Verus):

- `text` — decimal numerals: writing a `usize`, reading one back with the
  rules of `usize::from_str_radix`, taking a prefix off a string.
- `command` — command lines as the library builds them, judging a finished
  child process by its exit code, reading its output as UTF-8.
- `config` — the parts of the volume configuration that the decisions read,
  with their defaults.
- `device` — block devices as `lsblk` reports them, whether one is mounted at
  a path, the listing of candidate devices.
- `bcachefs` — the `bcachefs` mount, format, device and unmount commands.
- `pool` — the summary of a pool's members read from sysfs, and the commands
  that bring a mounted pool up to date with the unused devices.
- `setup` — the bcachefs setup as a protocol: from each report of the caller
  to the next step, with the cleanup unmount after any failure.
- `volume` — the mount path, and a volume setup run: leave a mounted volume
  alone, set up the filesystem, then create the configured directories.

`app/` runs these protocols on a real machine (child processes, sysfs,
directories); the image-specific parts (configuration schema, keys, block
device discovery, the ext4 setup) come in through its `Image` trait.
