# npu_kernels

Verified kernels of a transformer layer for a tensor processor with two clusters of 256 slices:

* the feed-forward block (`ffn7`): RMS norm, two block-scaled four-bit projections, the gated
  activation, the projection back, and the post-norm with the residual;
* the output projection of sliding attention (`output31`), with its post-norm and residual;
* the row layouts and the warm-up of the query, key and value projections (`qkv`).

A kernel is written over data memory (`tensor`), an arithmetic (`arith`) and a command stream
(`context`). Its contract says which formula ends up in which cell, whatever unwritten memory holds, and
which commands the kernel adds to the stream. It holds of every arithmetic that meets the trait `Arith`;
`Symbolic` and `Ideal` are proved to meet it. The floats of a host are outside the proof.

| Module | What it holds |
| --- | --- |
| `arith` | the operations of the tensor unit |
| `symbolic` | arithmetic that builds formulas |
| `ideal` | arithmetic on real numbers, for proofs |
| `exact` | when a split into terms loses nothing and a gain passes through a rounding |
| `nearest` | the functions that the operations stand for: root, error function, rounding to nearest |
| `rounding` | rounding to `f8e4m3` and `bf16`, and the two terms of a number |
| `quant` | the split of an activation into two terms |
| `ffn7`, `output31`, `qkv` | the kernels |
| `ffn7::exact`, `output31::exact` | what the kernels compute in exact arithmetic |
| `ffn7::symmetry`, `output31::symmetry` | how the results follow the signs and the order of the inputs |
| `ffn7::rescale` | how the feed-forward block follows its scales |
| `run` | what a stream leaves in its buffers, with and without warm-ups |
| `ffn7::meaning`, `output31::meaning` | what the commands mean, and that their streams compute what the kernels do |
| `ffn7::order`, `output31::order` | the command streams and what holds of their order |
| `ffn7::layout` | where rows and columns lie |

`app/` performs the command streams on the device, one command at a time, and runs the kernels on the
host with single-precision floats. `tests/` runs the kernels on floats and on formulas.
