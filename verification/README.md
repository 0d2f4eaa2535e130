# imag

The decision logic of the imag personal information management suite,
written in Verus and proved against its specifications, with a thin command
line program around it.

## Layout

- `src/` is the verified library.
  - `header_filter/` is the query language of `imag-ids`: the syntax tree
    (`ast`), a parser on bytes with an exact specification (`grammar`), the
    evaluation of a query on an entry header (`eval`) and the properties of
    the language (`laws`).
  - `cli`, `commands`: the `imag` front end (help text, aliases from the
    configuration, the options forwarded to a subcommand, the list of
    `imag-*` commands).
  - `counter`, `diary`, `log`, `habit`, `timetrack`, `calendar`, `contact`,
    `tags`, `diagnostics`, `git`, `init`, `view`, `collections`: the
    decisions of the individual tools.
  - `datetime`, `text`, `pattern`, `toml_access`: plain-value dates and
    texts, and the calls into `chrono`, `regex`, `toml` and `toml-query`,
    each behind a small trusted item whose contract is documented.
- `tests/` holds the tests of the library.
- `app/` is the `imag` program: it reads files, the configuration, the
  environment and standard input, calls the library and prints the result.

## Checking

The library verifies with Verus; the tests run with the real outside crates
linked.
