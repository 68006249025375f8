# convolve-rs

Smooth radio-astronomy images and spectral cubes to a common beam by convolution in
the UV plane.

The library under `src/` is written in Verus: it is verified throughout, and every
public function carries a contract that is proved. `app/` is the command line tool `convolvers` and the Python bindings around
it: FITS files, threads, and the floating-point formulas.

| Module | What it holds |
| --- | --- |
| `beam` | Beams, their validity, equality within a tolerance, deconvolution |
| `order`, `geometry`, `ellipse`, `common_beam` | Sorting, convex hull, enclosing ellipse, the common beam of a set |
| `plane`, `fft`, `convolve_uv`, `smooth` | Images, 2D transforms, UV-plane filtering with NaN handling, flux scaling |
| `fits_io`, `cube_io`, `beamlog` | Headers, beam tables and beamlogs; output names and contents |
| `targets`, `run`, `queue` | Target beams, channel plans, inputs and checks, memory budget |
| `ieee`, `text`, `path` | IEEE 754 bit patterns, text scanning, slash-separated paths |

Numbers are held as IEEE 754 bit patterns. Their class, order and byte layout are
proved; arithmetic on them is done by kernels (`BeamKernel`, `FftKernel` and those
built on them), traits whose methods promise nothing. Contracts state what the library
does with whatever a kernel computes.

Two items are trusted: the specification of `String::push`, and the bound on the result
of `rayon::current_num_threads`.
