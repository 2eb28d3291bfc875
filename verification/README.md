# voltic

A define-then-run machine-learning library: tensors are `Var` handles into a
`Context` that records their shapes and the operations between them; the
graph is then run forward and backward on a GPU.

- `src/` is the graph library, verified with Verus: shape inference and
  broadcasting, the operations and the kernel launches and buffers each needs,
  the layers and models (linear, convolutions, normalisation, attention, GPT,
  VAE, mixture of experts, state-space and memory blocks), the reduction plans
  of the backward pass, the optimizer's choice of variables, the checkpoint
  format and the tokenizers (BPE, WordPiece, prefix counting). Float values
  never enter it: initial values are described by `Fill`, scales live in
  `[1]`-shaped variables filled by the runner.
- `app/` runs the graph with wgpu: device and buffers, kernels read from a
  shader directory, forward and backward passes, SGD and Adam, reading values
  back, checkpoint files, and the float settings of layers.
- `tests/` exercises the library without a GPU.
