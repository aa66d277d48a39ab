# archinstall_zfs

The verified core of a ZFS-first Arch Linux installer, written in Verus.

`src/` holds the installer's logic with `requires`/`ensures` contracts that
Verus proves: editing `pacman.conf` and `mkinitcpio.conf`, parsing the
output of `lspci`, `iwctl`, `zpool list`, `apt` and `/proc/cpuinfo`,
planning datasets, boot entries, mirrors and downloads, the wizard's list
navigation, the wifi retry rules and offline backend, and the owned-resource
cleanup at the end of an installation. Commands run through the
`CommandRunner` trait, so the same code is driven by the real system or by a
recording runner in the tests. The library reaches a runner only through a
`RunLog`, which logs every run with its result; a function that runs
commands states, for whatever the runner answers, exactly which runs it
adds to the log (in order, with their arguments, and no others) and what
it returns.

`app/` is the command-line front: it reads files and runs processes, and
hands the library plain values.

`tests/` runs the library with its outside crates linked.
