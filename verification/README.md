# series_factory

Offline construction and auditing of market-data series: renko bars and their
calibration, volatility, merging of provider indexes, integrity checks, data
quality audits, storage migrations and backfills.

- `src/` is the library. The rules stand there as executable code with
  contracts that Verus proves. Prices and ratios are IEEE-754 bit patterns
  (`ieee::Double`, `ieee::Single`): the library orders, classifies and selects
  them exactly, and does no rounding arithmetic of its own. Procedures that need
  a rounded number, a file or a process are question-and-answer machines: they
  say what they need and take the answer back as a plain value.
- `app/` is the program around it: arguments, files, processes, network, and
  the rounded arithmetic that the library asks for.
- `tests/` runs the library on concrete values.

Calls into chrono, rayon, serde_yml and the standard library that Verus does not
know are wrapped in functions marked `external_body`; each says above it what is
claimed of the call. What serde_yml reads out of a text has a name, `yaml::yaml_tree`,
and nothing more is claimed of it. Properties that relate several functions are
public proof functions in the module they speak of.
