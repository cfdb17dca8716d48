# rust64

A Commodore 64's disk side as a verified library: D64 images and their files, the GCR bytes of a
spinning disk, the serial bus, and a 1541 drive that runs its own ROM in step with the computer.

`src/` is the library. What it states is proved by Verus, but for the 6502 of the `emulator_6502`
crate, whose calls stand in `src/cpu.rs`, and one function of std in `src/text.rs`.

| Module | What it holds |
|---|---|
| `geometry`, `petscii`, `text` | where sectors are, file names, text |
| `d64`, `lookup`, `listing` | disk images, finding and reading programs, directory listings |
| `image` | making an image with one program |
| `gcr`, `disk` | the bytes on a track, the disk under the head |
| `iec`, `via`, `bus`, `cpu` | the serial bus, the drive's chips, memory and processor |
| `drive`, `drive_trace` | the drive, what it reports |
| `loader`, `c64`, `c64_trace` | programs into memory, the computer's decisions, what it reports |
| `probe` | recorders that watch and report |

`app/` is ordinary Rust around it: the disk tools `d64_check` and `make_d64`, and the emulator's
host, which takes the computer's other chips as a `Machine`.
