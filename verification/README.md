# kazsearch_core

A suffix-stripping stemmer for Kazakh, written in Verus: Cyrillic words are
stemmed by a breadth-first search over layers of noun and verb suffixes with
vowel-harmony checks; Latin-script Kazakh is transliterated into Cyrillic
readings first. An optional lexicon of known stems confirms or vetoes strips.

Layout:

- `src/lib.rs` — configuration types and the stemming pipeline (`stem`).
- `src/explore.rs` — candidate scoring, sound-change repairs, lexicon checks
  and the search itself.
- `src/rules.rs` — the suffix tables.
- `src/text.rs` — vowel classes, syllables, harmony, prefix tables, trimming.
- `src/script.rs` — lowercasing, script classification, transliteration.
- `src/lexicon.rs` — the sorted lexicon and its text format.
- `src/config.rs` — names of settings (script modes, weights, dictionary
  parameters).
- `src/laws.rs` — properties proved for all inputs.
- `src/utf8.rs` — byte lengths of character sequences and string helpers.
- `app/` — the C ABI / JNI bindings for Elasticsearch and the PostgreSQL
  dictionary.

Penalty weights are fixed-point numbers in thousandths of a point.
