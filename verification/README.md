# slam_vision

A small computer-vision toolkit whose integer core is verified with Verus.

- `src/` is the verified library: oriented FAST corner detection on gray
  images, Hamming distances of binary descriptors, colour-to-gray
  conversion, integer image convolution, JPEG quantisation tables and chroma
  subsampling, the pixel graph of graph-cut segmentation and its maximum
  flow (through `rs_graph`), salt-and-pepper noise, and the buffers
  exchanged with a web front end. Every public function carries a contract;
  the `lemma_*` proof functions state the library's laws.
- `app/` is ordinary Rust around it: the floating-point geometry of
  structure from motion (eight-point fundamental matrices, pose recovery,
  triangulation, depth filtering, Levenberg-Marquardt), floating-point
  filters and transforms, and the browser entry points built on
  `web_sys::ImageData`.
- `tests/` exercises the library on concrete inputs.
