# bootc

The decisions behind image-based systems that boot from a composefs repository, as a library whose
behaviour is proved with Verus: how boot entries are named, ordered and written, when a new image
is staged, what may be deleted, how `/etc` differs from the one it was made from, and the tools
around them.

- `src/` is the library. Its functions take and return plain values, and each states in its
  contract what it returns. Laws that relate several functions are the public proof functions
  whose names begin with `law_`.
- `tests/` runs the library on concrete values.
- `app/` is ordinary Rust around the library: command lines, files, devices and other programs.

Calls into other crates stand behind small wrappers, next to the logic that needs them. The doc
comment of a wrapper names the call and says what is taken on trust of it.
