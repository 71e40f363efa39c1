# wetext_rs

Text normalization (TN: "2024年" to "二零二四年") and inverse text
normalization (ITN: "一百二十三" to "123") for Chinese, English and Japanese
speech synthesis, with its decision logic verified in Verus.

The normalization itself is done by weighted transducers stored as FST files.
The library decides everything around them and states it in contracts:

- `src/config.rs`: languages, operators and the options of a run.
- `src/normalizer.rs`: language detection, when a text needs tagging and
  verbalizing, and the `Normalizer` entry point.
- `src/pipeline.rs`: the pipeline as a step machine. `Normalization::start`
  and `Normalization::resume` return a `Step`: either the final result or a
  request to apply one transducer (by its path relative to the transducer
  directory) to one text. The specification `normalized` states the whole
  pipeline for any behaviour of the transducers, and the contracts of `start`
  and `resume` say that a run driven by the transducers' answers ends with
  exactly that result.
- `src/token_parser.rs`: the tagged-token format, its parser, and the
  reordering of token fields for the verbalizers; `src/token_laws.rs` proves
  that reordering is idempotent.
- `src/contractions.rs`: expansion of English contractions.
- `src/text.rs`: characters, white space and trimming.

`app/` is the driver: it loads the transducers from disk (through a
`Transducer` implementation supplied by the user), caches them in a
concurrent map shared between threads, and answers the requests of the runs.
