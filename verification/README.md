# sv2_conformance

Conformance oracles for the Stratum V2 mining protocol, written in Verus.

The library takes the reference crates of the protocol (`codec_sv2`, `noise_sv2`,
`channels_sv2` and others) through frames, handshakes, extranonce allocations and the life of
a mining job, and says which rule of the protocol they break first, if any. What the rules
say, that the verdicts are right, and what is fed to the crates is verified. What the crates
do is not: the doc comment of each `external_body` function, `assume_specification` and
`uninterp` name says what is taken for granted of the call that it stands for.

- `src/`: the library. Each oracle is a run (plain values that were seen), an ordered list of
  rules, a `judge_*` function that names the first rule that is broken, and `observe_*` and
  `check_*` functions that make the calls.
- `tests/`: every rule is broken once, and every oracle is run on the real crates.
- `app/`: a fuzz target that feeds the oracles, with what needs floating point or derives.
