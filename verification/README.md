# ms_pdb

Reading of the CodeView type information in PDB files, with its behaviour stated in contracts
and proved with Verus.

- `src/bytes.rs` – little-endian integers.
- `src/parser.rs` – a cursor over bytes: integers, type indices, numeric leaves, NUL-terminated
  strings.
- `src/types.rs` – type indices, type records, iteration of a record sequence and its table of
  record offsets.
- `src/fields.rs` – the items of an `LF_FIELDLIST` record and their iteration.
- `src/tpi.rs` – the TPI / IPI stream: its header, the checks made when it is parsed, record
  lookup, rechecking after the bytes change, and the in-memory streams of a PDB.
- `src/field_chain.rs` – iteration of field lists continued over several records, with cycle
  detection.
- `src/text.rs` – decimal numbers in error descriptions.
- `app/lib.rs` – file reading and text formatting around the library.
