# Phemius

The verified core of a local-first harness for long-form fiction. The canon of
a work is kept in Markdown files, language models propose candidates, and only
a human's command changes the canon.

- `src/` holds the rules: projects and changesets, validation, the apply
  journal and the steps of a transaction, source manifests and contexts, the
  near-copy scan, budgets, sessions, the chapter workflow, the REPL, tools,
  shell requests, skills and evaluations.
  Every function states what it returns, and Verus proves it.
- `app/` is the program around it: command line, files, processes, the network
  and the clock. It hands plain values to the library and carries out what the
  library decides.
- `tests/` run the library on examples, with the outside crates that it calls.

Facts about outside crates that the proofs rest on stand in doc comments above
the functions that call them.
