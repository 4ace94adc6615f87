# mayastor

The label of a nexus and the storage pools below it, as a Verus library.

## Labels

A nexus puts a standard GPT label on its children: a header, a table of partitions (of
which two are used, `MayaMeta` and `MayaData`), and a backup of both at the end of the disk.

- `src/codec.rs`, `src/utf16.rs`, `src/text.rs`: little-endian integers, UTF-16,
  decimal numbers.
- `src/uuids.rs`, `src/crc32.rs`: what the `uuid` and `crc` crates compute.
- `src/guid.rs`, `src/header.rs`, `src/entry.rs`, `src/label.rs`: the parts of a label,
  how they stand on disk, and what is read back.

## Pools

A pool is an lvol store on a base bdev. Each operation on a pool is a state machine: a
step says what is to be done next, and the next step is taken when it is known how that
went.

- `src/pool.rs`: pools, and what is reported of them.
- `src/steps.rs`: actions, events and steps.
- `src/creation.rs`, `src/import.rs`, `src/destruction.rs`: the operations.
- `src/requests.rs`: the json-rpc methods that use them.

Functions named `law_...` state what holds of several functions together.

`app/` runs the operations: `app/pool.rs` performs the actions and registers the
methods, `app/spdk.rs` makes the SPDK calls, for which it needs the `spdk_sys` bindings,
and `app/label.rs` and `app/wire.rs` hold the serde values.
