# wavescope

A wavelet scalogram viewer for WAV and FLAC audio that computes on the GPU.

The library (`src/`) holds what the viewer decides and computes, with contracts that
Verus proves:

- `plan`, `prepare`, `pow2`, `engine`, `gpu`: how a time window is decimated, cut into
  chunks and batches, and turned into kernel launches and buffers;
- `decimation`, `wavelet`, `squeeze`, `outputs`, `analysis`: the signal processing around
  the kernels;
- `audio`: loading of recordings;
- `colormap`, `extent`, `geometry`, `viewport`, `ridge`, `viewer`, `worker`: the images and
  the state of the viewer;
- `cuda`: the checks around the CUDA driver and cuFFT;
- `numeric`, `reals`, `text`: what the other modules share.

Arithmetic on real numbers is generic: a function takes the operators of its number type
and, where it needs more than those, the functions to apply. Its contract says which
operations are applied to which values and in which order.

`app/` is the program: the window, the GPU kernels, the files and the worker thread.
`tests/` runs the library, with the kernels interpreted on the CPU.
