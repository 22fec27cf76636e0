# jarvis

The core of the Jarvis desktop assistant, written in Verus: the decisions the
assistant makes, each with a contract that Verus proves.

- `src/` is the verified library: provider selection and the agent rebuild
  signature, the permission gate's rules and its preference cache, chat
  history normalisation and compaction, the session store's row plans, the
  stream events sent to the front end, RAG bookkeeping (directory listing,
  containment checks, indexing runs, search hits), sandbox root
  synchronisation and the hardware state decisions. Files named `*_laws.rs`,
  and the `law_*` proof functions elsewhere, state what holds across calls.
- `tests/` runs the library on concrete values.
- `app/` is the application around it: Tauri commands, the database, file
  and network I/O, the language-model agent and platform calls. It hands the
  library plain values and acts on what the library decides.
