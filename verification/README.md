# gorgeous

Grammar-driven pretty-printing with proofs. Parse trees become layout
documents, and `pprint` renders the documents to text. The library is written
in Verus: every function states its behaviour in `requires` / `ensures`, and
the verifier proves it.

## Layout

- `src/` — the verified library
  - `doc.rs`: layout documents, their mathematical view, concatenation, and
    rendering through `pprint`
  - `text.rs`: strings as character sequences, trimming, white space
  - `google_sheets.rs`: a Google Sheets formula grammar, a parser proved
    against it, and the layout of a formula; `google_sheets_text.rs` proves that
    the layout keeps every character of the formula but white space
  - `json.rs`: the JSON grammar, a parser proved against it, and the layout
    of a value, in full or for a range of the text; `json_text.rs` proves that
    the layout keeps every character of the value but white space;
    `json_range.rs` proves that a range covering the value lays it out in full
    and a range missing it keeps its text
  - `css_grammar.rs`, `css.rs`: the CSS stylesheet grammar (selectors and
    values as opaque spans), a parser proved against it, the layout of a
    stylesheet (in full or for a range of the text), and the splitting and
    layout of selector lists (one group, `, ` when it fits, one selector per
    line when it does not); `css_text.rs`
    proves that the layout keeps every character of the stylesheet but white
    space; `css_fast.rs`: the fast CSS grammar and its parser, whose layout
    keeps selector text as written
  - `vm.rs`: formatting the parse trees of the bytecode interpreter by the
    grammar's `@pretty` hints; `split.rs`: the balanced splitting that the
    `split("...")` hint applies, outside brackets and quoted strings
  - `builtin.rs`: the built-in languages and how a file name selects one
  - `cli.rs`: the command line of `gorg`
  - `jit.rs`: cache keys, cache paths, arguments and generated source pieces
    of the grammar compilation pipeline, the texts of the generated project,
    and the compile-once decision
- `app/` — the `gorg` program: argument and file handling, the parsers that
  `bbnf_derive` generates for the grammar notations (BNF, EBNF, BBNF), and the
  processes of the grammar pipeline
- `tests/` — tests of the library on concrete values

## Usage

```bash
gorg input.json                        # built-in, auto-detect by extension
gorg --lang css input.css              # built-in, explicit language
gorg --grammar my.bbnf input.txt       # compile a grammar, then format
gorg -w 120 -i 2 input.json            # custom width + indent
gorg --clear-cache                     # remove the compiled grammars
```
