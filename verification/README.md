# Rustly storage

Content-addressed storage. Objects are named by their BLAKE3 hash, verified
whenever they are read, kept in memory, on disk or in an S3-compatible bucket, and
found across several sources.

The library under `src/` is written in Verus: what each function does is stated in
its contract and proved, and what the library promises as a whole is stated in its
public proof functions.

- `cid`, `manifest`, `provenance`: names, chunked descriptions, and how far an
  object may be trusted and may travel.
- `store`, `memory`, `filesystem`, `s3`, `layout`: what a store is, and what each
  kind of store decides.
- `resolve`: retrieving an object from the cheapest source that has it.
- `upload_protocol`, `gateway`: signed, short-lived upload grants and receipts, and
  the rules of the HTTP boundary.
- `json`: the members of a JSON object.
- `primitives`: the outside functions that tokens rest on, each with what is taken
  of it without proof. Hashing is in `cid` and building a client in `s3`.

`app/` is the artifact gateway around the library: HTTP, disk and network access,
and the encoding of stored metadata. `tests/` runs the library.
