# firefox_brand_generator

Generates the brand folders of Firefox (one per brand) from a configuration of
transformations and a set of source assets.

- `src/` is the verified library: the configuration model (`config`), path
  joining and the walk up to the repository root (`paths`), `{{#str key}}`
  expansion (`template`), conditions and the preprocessing of copied files
  (`condition`, `preprocess`), the selection of
  transformations for a brand and platform (`filter`, `platform`), the
  planning and validation of a single transformation (`transformations`), the
  bookkeeping of a generation (`engine`), the brands of a brands folder (`brands`) and
  the sequence of a brand's run (`lib.rs`).
- `app/` is the command-line program: it reads the configuration files,
  detects the platform tools, carries out planned file work and prints
  progress, answering the requests of the library's run.
- `tests/` exercises the library on concrete values.
