# sfodra

Drill logic for Ancient Greek morphology, verified with Verus.

`src/` is the library. Its modules:

- `diacritics` — answer checking: Unicode normalisation with optional
  removal of diacritics, the optional leading article, character diffs,
  edit distance and similarity.
- `paradigm` — nominal and verb paradigm tables built from word forms.
- `browse` — what the paradigm browser shows around the tables: gender
  columns, subtitle, chips that narrow the verb tables, cell marks.
- `builder` — the editor of custom paradigms: its cell map, cell keys,
  option lists and starting state.
- `catalog` — the catalogue of lemmas and forms, custom paradigms, and the
  selection of forms for a drill.
- `category` — the category forest assembled from stored categories.
- `filter` — study filters and their chips.
- `quiz` — drill order and multiple-choice options.
- `search` — lemma searches and ordering by headword.
- `study` — the decisions of the flashcard, fill-in and building drills.
- `sm2` — SM-2 spaced repetition and progress totals.
- `form`, `tags`, `settings`, `i18n`, `session`, `text` — data types,
  grammatical vocabulary, settings, interface texts and string helpers.

`tests/` exercises the library on concrete values; `app/` is a console
front end that reads the database dump, keeps the learner's data on disk
and runs the drills.
