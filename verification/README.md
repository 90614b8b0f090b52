# gitrs

A small content-addressed version control core, verified with Verus.

- `src/` is the verified library: object hashing (`internals::hash`), the
  stored forms of blobs, trees, nodes, file metadata and the index
  (`internals::objects`), the HEAD file format (`internals::head`), the
  difference between two snapshots of the staging area (`objects::diff`),
  and the command line lexer and parser (`cli`). Each public function states
  its result in its contract; the `law_*` proof functions state what holds
  across functions, such as reading back what was written.
- `app/` is the command line program around it: reading and writing the
  repository directory, walking the working tree and logging.
- `tests/` runs the library on concrete values.
