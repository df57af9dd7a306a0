# mayos

The logic of a small operating system and its desktop, verified with Verus.

- `src/` is the library. Every function states in its contract what it returns
  or changes, and the proofs show that it never overflows or panics.
  - `acpi`, `boot`, `interrupts`, `arch`: what the firmware and the processor
    say, and what they are told.
  - `drivers`: disks, network, screens and input, as the values that go into
    their registers and what is made of the answers.
  - `fs`: paths, directories, mounts and copying.
  - `audio`: the mixer, system sounds and WAV files.
  - `gui`: the window manager, the shell and the apps. What is painted is a
    list of shapes, so that the contracts can speak of it.
- `app/` is the machine around it: ports, shared memory, fonts, everything
  that is floating point, and the loop that runs the desktop.
- `tests/` runs the library on concrete values.
