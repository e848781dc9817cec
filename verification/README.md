# aimf_compiler

Compiles a project directory into an AIMF navigation manifest: a compact text
document with a header (`@H`), resource groups (`@G`), an index of every file
(`@I`) and hot memory (`@M`) holding the content of the few files worth
loading up front.  This is version 1 of the format (header, groups, index,
hot memory); the navigation form with `@NAV` and `@CTX` sections and token
estimates is not part of it.

- `src/` is the library, verified with Verus: classification of files, group
  assignment, load policies, the choice of hot files, hot payloads, the text
  of every section, task hand-off documents, content hashes, ignore patterns,
  and the mining of mermaid diagrams from session logs.  Contracts are stated
  over `Seq<char>` models of the strings involved.
- `app/` is the command-line program: it walks the directory, reads files and
  session logs, and writes the manifest the library returns.
- `tests/` exercises the library on concrete inputs.
