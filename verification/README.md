# lcount

Counts blank, comment and code lines per language, in the manner of cloc.

- `src/` is the library, verified with Verus: language detection by extension and
  interpreter line (`language`), line classification (`counter`), file filters
  (`walker`), per-language aggregation and ordering (`stats`), CSV text and table
  layout (`output`), and the laws that tie them together.
- `app/` is the command-line program: argument parsing, directory walking, `git
  ls-files`, reading files, JSON output and printing.
- `tests/` exercises the library on concrete inputs.
