HVM2 on WebGPU
==============

HVM2 evaluates interaction nets. This crate holds the parts of it that run a
built book on a WebGPU device and read the result back, proved with Verus:

| module | what it holds |
| --- | --- |
| `text` | numerals, searching, replacing and parsing |
| `hvm` | ports, pairs, numbers, definitions and books |
| `net` | the net that a program leaves behind |
| `readback` | trees, their text, and reading a net back as a tree |
| `pack` | a book as the words that the device reads |
| `wgsl` | the device program of a book |
| `wgsl_laws` | what holds of the device programs of books |
| `emit` | standalone C and CUDA programs |
| `snap` | snapshots of the device's memory and the free lists |
| `boot` | the memory at the start of a program and between workers |
| `session` | what the host decides between two dispatches |
| `config` | settings and the sizes that follow from them |
| `threads` | how many worker threads a machine is given |
| `supervise` | what the supervisors decide when a child process ends |
| `scripts` | the scripts that start supervisors on Windows |

The functions named `law_...` state what holds across functions: that a snapshot
is read as it was written, that a book can be unpacked from its words, that a
free list links every free slot, that interactions add up over all the workers of
a program, that each definition has one function and one case in the device
program, that supervisors come to an end.

Two functions in `snap` call `bytemuck` and are believed rather than proved.

The text of a finite floating-point number is asked of the caller: the functions
that show numbers and trees take a function from the bits of a binary32 number
to its text.

`app/` is the program around the library. It has no `run` and no `gen-rs`: the
evaluator and the generator that they need are not here. It reads a built book: its words in
the file that is named on the command line, the names of its definitions beside
it in `<file>.names`. The shader, the C and CUDA templates and their header are
read from the directory that `HVM_SHARE` names (`share` where it is not set).
`gen-c` and `gen-cu` also read the book's buffer from `<file>.buf`, and `gen-c`
the compiled calls from `<file>.calls`.
