# rust_sdt

The logic of a spike-driven transformer for CIFAR-10, with the tools around it, verified with
Verus: what is read and written, how the network is put together, which parameters are trained in
which order, which candidate is rated on which image with which seed, and what the reports say.

- `src/` is the library. Every function has a contract, and the properties that relate several
  functions are proof functions beside them.
  - Configuration and weights: `config`, `weights`, `slots`, `factored`, `params`, `init`, `names`.
  - Files: `text`, `npy`, `npy_write`, `npz`, `archive`, `store`, `loader`, `report`.
  - The network as a list of operations, what it computes, and the shapes of what they give:
    `net`, `meaning`, `shapes`.
  - Noise: `noise`, `draws`, `noise32`.
  - Plans and loops of a run: `options`, `schedule`, `epochs`, `es_plan`, `es_run`, `calibrate`,
    `train_plan`.
  - Memory pool and lazy streams: `alloc_sizes`, `pool`, `pool_report`, `pool_text`, `tables`,
    `streams`.
  - Paper search: `paper`.
- `tests/` runs the library on concrete values.
- `app/` is the command line: files, the network, tensors, floating point.

Floating-point numbers are held by their bits in the library, or as the text that is printed;
tensors are type parameters, and what is done to them comes in as a function.

Calls into other crates stand behind wrappers with stated contracts: shuffling (`rand`), arrays
(`ndarray`), archives (`zip`), hash maps and sets (`hashbrown`), short lists (`smallvec`), and three
functions of the standard library.
