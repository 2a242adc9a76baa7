# pivot_com_types

Wire records shared between the Pivot engine and its clients, verified with
Verus.

Every command and response carries a 64 KiB inline payload. The library
builds those payloads and reads them back, lays out asset segments in shared
memory, and merges assets; each function states its result exactly, and the
laws that tie writers to readers are proved as public proof functions.

- `src/` — the verified library:
  - `bytes`, `text`: byte splicing, little-endian words, zero-terminated
    UTF-8 strings.
  - `buffer`: the inline payload and the fixed-width images of its records.
  - `fields`, `asset_ptr`, `asset_surface`, `asset_names`, `allocation`:
    identifiers, packed slab pointers, group records, allocation headers.
  - `command`: command, response and publish records for every operation.
  - `asset_meta`, `merge`, `regions`: the 32-byte-aligned asset layout and
    the merge of several assets into one, each section of the result the
    sections of the sources one after the other.
  - `com_types`: the compact 8-byte-aligned layout and its records.
- `app/` — the same records with the zero-copy marker traits (`bytemuck`,
  `iceoryx2`), the Python extraction of identifiers (`pyo3`), and the
  header methods that read and write the segment in place (section
  slices, group name). Merging works on slices: build one for the
  destination and one per source segment and call
  `AssetMeta::merge_assets`.
- `tests/` — tests of the library on concrete values.
