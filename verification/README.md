# rrlang_core

A measurement engine for positional structure in text: a text is cleaned
under declared case, hyphen, punctuation and whitespace policies, encoded into
label streams (UTF-8 bits, literal bits, graphemes, grapheme classes, word
boundaries, frequency classes), and each boolean event map of an encoding is
compared against null models (density shuffle, first- and second-order Markov
generators, gap-order shuffle) with evidence-tiered alerts.

## Layout

- `src/` — the library, with its contracts and proofs:
  - `text.rs` character classes, trimming, decimal numerals and parsing;
  - `types.rs` run options, policies, encodings, alerts, report metadata;
  - `encode.rs` preprocessing, tokenising and the six encodings;
  - `nulls.rs` the xorshift generator and the null-model generators;
  - `primes.rs` trial division and the sieve;
  - `metrics.rs` event positions, gaps, runs, counts, null-model selection
    and alert rules;
  - `pipeline.rs` input checks, capping, seeds and cross-encoding alerts;
  - `corpus.rs` corpus inspection;
  - `report.rs` JSON escaping, key/value lines, alerts and report headings;
  - `config.rs` reading options from configuration text;
  - `cli.rs` command-line option lookup and overrides, batch naming and the
    skip, stop and outcome decisions of a batch run.
- `tests/` — tests of the library on concrete values.
- `app/` — the `rrlang` program: file and directory access, the
  floating-point scores and statistics, report assembly and the command line.
