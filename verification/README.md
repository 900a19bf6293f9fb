# gaugemc

The host side of a Monte Carlo simulation of lattice gauge theories in their dual,
integer valued form, for many replicas at once on a CUDA device.

The state of a replica is an integer on every plaquette of a four dimensional periodic
lattice. The device holds the states and updates them; the host decides what the device
does, keeps track of which state lives in which potential, and makes sense of what the
device sends back.

* `src/` is the verified library. Its central type, `backend::CudaBackend`, never talks to
  the device itself: its methods return lists of requests (`device::DeviceOp`) and take the
  numbers that the device sent back. Contracts say exactly which requests are made and
  what becomes of the numbers.
* `app/` performs the requests with `cudarc`, and does what floating point numbers
  decide: the acceptance of exchanges and the averages of probabilities.
* `tests/` runs the library against a device that is imitated on the host.

The modules of the library:

| module | what it holds |
| --- | --- |
| `arrays`, `mesh`, `sums` | arrays of integers, the order of their elements, sums over sites |
| `lattice`, `dual_state`, `violations` | plaquettes, edges and volumes; states; flux through edges |
| `redirect`, `tempering` | the potential of each state, and exchanging states |
| `sizes`, `device`, `buffers` | numbers of elements and threads; requests to the device, and the buffers that they need |
| `backend` | setting up, permuting, tempering |
| `updates`, `measure`, `counts`, `pairs`, `wilson` | the updates and the measurements |
| `histogram`, `random`, `error` | counting, random choices, errors |
