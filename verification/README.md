# emerald_legacy

The save-format and launcher logic of the Emerald Legacy launcher for
Minecraft Legacy Console Edition, written in Verus. The functions in `src/`
are verified against their contracts; the few calls into std, flate2 and
serde_json sit in small `external_body` wrappers whose contracts are
trusted, and each says in its doc comment what it claims. LZX decoding is
handed to an `LzxDecoder` that the caller supplies: `lzxd` can panic on
crafted data, so the application runs it where a panic can be caught. The
library calls the decoder through an `LzxSession`, which records each call
and its answer, and its contracts say exactly what the decoder was handed
and what is made of its answers. The library's laws
(round trips, what a read gives back of a write) are proof functions next to
the code they speak of.

- `src/` — the verified library.
  - `nbt`, `bytes`, `text`, `rle`, `compress`: NBT documents, byte and text
    helpers, the console run-length encoding, zlib/gzip calls.
  - `region`, `java_region`, `payload`: console region files and save
    containers, Java region files, the console's compressed chunk storage.
  - `chunk`, `block_mapping`, `anvil`, `modern_names`, `sign_text`: Java →
    console chunk conversion and its block mapping, console → Java chunk
    conversion with contextual block states.
  - `level_dat`, `convert`: `level.dat` conversion both ways, spawn height,
    save file tables, conversion plans and region names.
  - `console`: Xbox 360 / PS3 save import (STFS packages, XMemCompress and
    region chunk framing around LZX, region re-encoding, spawn relocation).
  - `servers`, `launcher`, `workshop`: `servers.db`, launch command lines
    and game output, GoldMapper mappings, workshop archive handling.
- `tests/` — tests run against the compiled library.
- `app/` — a command-line front end: file and process I/O around the
  library, and the `lzxd`-backed LZX decoder.
