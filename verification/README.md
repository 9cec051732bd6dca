# ftl_stats

Reads the statistics that Pi-hole's FTL daemon publishes in shared memory
(`/dev/shm/FTL-<pid>-*`, format version 14).

Platform: Linux, with FTL built for a 64-bit little-endian target (x86_64,
aarch64). The record layout in `src/layout.rs` is that of such a build; the
segments of a 32-bit build (32-bit ARM) are laid out differently and are not
read correctly.

- `src/` is the verified library (Verus). It decodes the byte images of the
  segments safely (`layout`), reads the shared string table (`shmem::strings`),
  and turns the records into statistics (`convert`): the summary, the newest
  queries, the busiest domains and clients, the upstream servers and the
  over-time series. The conversions state their results exactly in terms of
  the segment bytes they are given; the reader methods, which read memory that
  FTL keeps writing, state their results in terms of an image of the very
  segments they were built on (`shmem::mapped_image`: the bytes the mapping
  held at the moment of the read), and `is_process_running` states nothing of the file system's
  answer. `convert::top` proves that the "top N" selection is the
  stable descending order by count, and that this order is unique.
- `app/` opens the segments (memory mapping), reads the PID file and the
  environment, and presents the results with `SystemTime`, floating-point
  figures, hash maps, `thiserror` messages and `serde` support.
- `tests/` exercises the library on hand-built segment images.
