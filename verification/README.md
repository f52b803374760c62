# ffi_trace

The decisions of a supervisor that watches foreign code run inside of a traced
child process, verified with Verus.

While the child calls into foreign code, the pages that this code was handed
pointers into are inaccessible. Each access to them faults. The supervisor finds
out what the access was, puts it on record, opens the pages for just that one
instruction, closes them again, and lets the child run on. It also intercepts the
allocation functions of libc.

* `src/` is the verified library. Each procedure of a supervisor is a state
  machine: it asks a question (`query`), and is handed the answer (`advance` or
  `step`), upon which it gives commands and asks the next question, is done, or
  gives up. The contracts say exactly which commands come of which answer. Laws
  about whole runs, such as that the pages are never open to foreign code, are
  public proof functions named `law_*`.
  * `src/trace/` is a supervisor that records accesses, heap allocations and page
    mappings.
  * `src/native_lib/` is a supervisor that records accesses and sends calls of
    allocation functions to shims.
* `app/` performs the questions and commands with `ptrace`, and talks to the child
  over channels.
* `tests/` runs the library on concrete values.

Decoding instructions is left to Capstone; the items in `src/disasm.rs` that are
marked `external_body` say what is believed of it.
