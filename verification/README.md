# rmon

A terminal resource monitor for macOS, split into a verified library and a
thin program around it.

`src/` is the library, verified with Verus:

- `text`: characters, lines, whitespace-separated tokens, searching, trimming,
  decimal parsing (as `str::parse` does it) and decimal printing.
- `history`: a fixed-capacity ring buffer of samples, oldest first.
- `colors`, `layout`, `graphs`, `render`: ANSI colour codes, the visible width
  of styled text, boxes, section headers, bars, sparklines and the screen.
- `cpu`, `memory`, `disk`, `network`, `uptime`: readers for the output of
  `top`, `sysctl`, `vm_stat`, `df`, `iostat` and `netstat`.
- `controls`: what a key press does to the running state and the selections.

`app/` runs the commands, keeps the clock, does the floating-point arithmetic
(percentages, rates, colour gradients) and drives the terminal.
