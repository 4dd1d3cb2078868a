# fastgrep-rs

A local text search: it walks a directory, searches every text file for a
regular expression and prints each line that matches as
`path:line_number:line`.

The search itself is a library verified with [Verus](https://github.com/verus-lang/verus).
It does no input or output of its own. Where something outside has to be done
(open a file, read, write, walk a directory), the library is a machine: it is
told what has happened and names what is to be done next.

- `src/lines.rs`, `src/input.rs`: how bytes fall into lines, and reading lines of
  limited length from an input that arrives in parts.
- `src/pattern.rs`: compiled patterns, on top of the `regex` crate.
- `src/search.rs`: the lines of an input that match.
- `src/output.rs`: what is printed for a match, with the codes of the `anstyle`
  crate.
- `src/file.rs`: the search of one file.
- `src/chunks.rs`: output that several searches share, in chunks of whole lines.
- `src/walk.rs`: the search of many files, in turn or at the same time.
- `src/size.rs`, `src/fault.rs`, `src/run.rs`: settings, failures and whole runs.
- `src/*_laws.rs`: what holds across these modules. Laws of a single module stand
  in the module itself, as proof functions whose names begin with `law_`.
- `app/`: the command line program. It reads, writes and walks directories.
- `tests/`: tests of the library, among them whole runs over files in memory.
