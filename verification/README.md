# poseidon

The Poseidon hash over a prime field, written in Rust and verified with Verus.

- `src/` is the library. `field` and `params` hold the interfaces to a field and to a set of
  parameters, `sbox`, `inversion`, `mds` and `permutation` the permutation and what it is made of,
  `sponge` the sponge and the hash, `bn256` and `bn256_params` the scalar field of the BN256 curve
  with parameters over it. The modules named `*_laws` state what holds of these as a whole;
  `primes`, `primality`, `fermat` and `bn256_modulus` are the number theory behind them.
- `tests/` runs the library on concrete values.
- `app/` draws matrices from any generator of the `rand` crate.

Field arithmetic and random elements come from `pairing_ce` and `rand`, behind a few wrappers in
`src/bn256.rs` whose contracts are trusted; everything else in `src/` is proved.
