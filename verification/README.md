# a010

Reads the A010 depth camera over a serial line, shows its frames and changes its configuration.

- `src/` is the library, verified with Verus: the state machine that tells text lines and depth
  frames apart in the byte stream (`machine`, `frame`, `codec`), the AT commands and their answers
  (`at`, `args`, `commands`), what to do next on the connection (`session`) and the grid on which
  a frame is drawn (`mesh`). `stream_laws`, `command_laws` and `config_laws` state what holds
  across functions. `buffer`, `channel` and `text` hold the calls into `tokio-util`, `tokio` and
  the standard library that the proofs take for granted.
- `tests/` runs the library.
- `app/` is the program around it: the serial port, the tasks, the window.

Sums of bytes are taken modulo 256, in checksums as in the numbers of answers, and the number of
pixels that a size announces is taken modulo the range of `usize`.
