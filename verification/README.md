# rust-dap-rp2040

Serial Wire Debug (SWD) over a PIO state machine of the RP2040, verified with Verus.

The library in `src/` holds the logic and never touches hardware:

- `instruction`, `assembler`, `program`: the PIO program that clocks bits over SWCLK and SWDIO,
  assembled with the `pio` crate, and the words it consists of.
- `fifo`: bit operations, and the words of the two FIFOs that carry one out.
- `sequence`: raw bit sequences, cut into words and put together again.
- `swd`, `transfer`: the request packet and the transfer, a state machine from replies to
  operations.
- `swd_io_set`: the interface that starts all of these.
- `machine`, `wire`, `wire_transfer`: a model of the PIO state machine, and proofs of what the
  program, the sequences and the transfers do on the line.

`app/` is the driver for the chip: it installs the program, moves words through the FIFOs and hands
back what came of them. `tests/` runs the library, among other things against an emulator of the
state machine that executes the assembled words.
