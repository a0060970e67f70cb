# schema-language

The build-time schema language: typed schema values, the checks a lowered
schema must pass, schema edits and their receipts, minted nominal
identifiers with their name table, the name-free substrate and its
projection, family closures, and the reference-resolution grammar. The
library under `src/` is written in Verus; every public function carries a
contract and is proved against it.

Layout:

- `src/` the verified library, one module per concern (`schema`,
  `true_schema`, `checks`, `lowering`, `source`, `resolve`, `substrate`,
  `closure`, `identifier`, `identity`, `upgrade`, `grammar`, `validate`,
  `summary`, `module`, and their helpers).
- `tests/` ordinary Rust tests against the library.
- `app/` the parts that cannot be verified: reading a package's schema
  files from disk, and the archived (rkyv) bytes and core hash of a
  substrate.

Laws the library proves stand as public proof functions beside the code
they speak of, for example `substrate::lemma_projection_reads_names_only`,
`identifier::lemma_build_order_independent`,
`source::lemma_source_form_reads_back` and
`grammar_text::lemma_grammar_text_roundtrip`.

Decomposition (`TrueSchema::decompose`, in `decompose`) splits a lowered
schema into its substrate and a name table, keeping the identifiers a
prior table binds; projecting the substrate through the table gives the
schema back (`app/` hashes the substrate and the whole human view).

What this library does not do:

- It does not read `.schema` source text. Schema sources are built as
  values (`source::SchemaSource` and its parts) and lowered from there;
  the NOTA reader that turns text into those values is not part of it.
- It has no schema engine or environment: lowering runs against the
  imports a caller has already resolved, and loading a whole package set
  from disk is left to the caller (`app/` reads one package's files).
