# chronoxide_series

Verified codecs, planners and readers for the series metadata of a segment.

- `cold_v2`: the cold label stream. Keysets, value dictionaries and packed rows
  are planned from series entries, written at any offset, and read back entry by
  entry.
- `v3`: the paged layout. A fixed root lists hot pages (one record per series)
  and cold pages (the label stream); every page is authenticated by its checksum
  before a byte of it is used. `classifier` decides whether the chunks of a series
  are stored inline or in an overflow blob.
- `v3::runtime_reader`: query sessions over one segment. Roots are loaded and
  bound to each other, hot pages are planned, overflow blobs are resolved, and
  label rows are handed out only when they hash to the identity that the hot
  record stores.
- `v2_runtime`: the same for the layout with one series table and a chunk index.
- `health`, `v3::runtime_reader::guard`, `v2_runtime::guard`: a fault that was
  seen in an artifact stays with it and refuses every later read.
- `budget`: the memory that an operation asks for before it allocates. The caller
  answers; a refusal ends the operation and blames no artifact.
- `chunk`, `entry`, `symbols`, `count`, `bytes`, `error`: what these share.
- `checksum`, `capacity`, `clock`: what is taken from outside and not proved: the
  CRC-32C of the `crc32c` crate, allocation capacities and the monotonic clock.

Contracts are stated over `Seq` and over spec functions named `*_result`, which
give the value or the first error of an operation. Properties that span
operations are public proof functions named `*_law`.
