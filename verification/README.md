# Carina

A reference manager for the terminal. Each reference is a directory holding a
PDF and an `info.toml` metadata file; a SQLite database is a disposable search
index. Browsing, picking and de-duplicating go through `fzf`, and a built-in
terminal browser offers the same with a preview pane and a tag picker.

The rules of the program are written in Verus and proved against their
contracts; the program around them does the input and output.

## Layout

- `src/` — the verified library.
  - `text` — strings as character sequences: trimming, words, joining,
    replacing, decimal notation, UTF-8 byte lengths.
  - `model` — the metadata of one reference.
  - `present` — picker lines, listings, the `show` page, BibTeX, citation keys,
    the completeness score.
  - `naming` — directory names (`{first-author}-{year}-{first-title-word}`) and
    their numbering when taken.
  - `dedup` — duplicate groups for `carina dedup`; `listing` — the report of
    `carina duplicates`.
  - `order` — the order of strings and sorted lists of distinct strings.
  - `tui` — the browser's state and how each key changes it; `screen` — what the
    browser draws.
  - `validate` — checking reference directories and the repairs of `--fix`.
  - `theme` — built-in palettes and theme files.
  - `cli` — picker arguments, shell quoting, finding a reference from a query,
    index rows and full-text queries, the steps of `carina dedup`.
- `app/` — the `carina` program: command line, configuration, files, the
  SQLite index, the external picker and the terminal.
- `tests/` — tests of the library on concrete values.

## Usage

```
carina                          # browse library in fzf
carina jepa                     # browse with "jepa" pre-filled
carina add paper.pdf            # import local PDF
carina open attention           # open PDF matching "attention"
carina edit attention           # edit metadata in $EDITOR
carina bib attention            # output BibTeX
carina cite --format typst      # pick a reference, output @cite-key
carina list --tag ml            # list papers tagged "ml"
carina duplicates               # list duplicate titles and DOIs
carina dedup                    # pick which duplicate to keep
carina reindex                  # rebuild search index from filesystem
```
