# revocation_bench

Benchmark suite for the anonymous revocation mechanisms compared for the EUDI
Wallet (CL-RSA-B and KB21 accumulators, BBS-2023 + Bulletproofs++ and ECDSA
signed pairs), with its revocation logic verified by Verus.

## Layout

- `src/` — the verified library.
  - `modarith.rs`, `fermat.rs`: units, inverses and powers modulo `m`;
    Fermat's little theorem and the RSA trapdoor (Euler) for `p * q`.
  - `bignum.rs`: signed big integers; every operation is carried out by
    `unknown_order`, behind contracts over the integer view.
  - `accumulator.rs`: the accumulator interface (`Accumulator`, `Additive`,
    `Subtractive`, `Positive`, `Negative`, `ZKPositive`).
  - `cl_rsa_b/`: the CL-RSA-B accumulator — insertion, removal, witnesses,
    holder updates, hash-to-prime (BLAKE3), the zero-knowledge membership
    proof, and the laws that tie them together (`laws.rs`).
  - `signed_pairs.rs`: the signed-gap revocation lists, the holder's scan,
    and the ECDSA (P-256) signing and checking of the gaps.
  - `schedule.rs`, `bench_cl_rsa_b.rs`, `params.rs`, `types.rs`: batch
    arithmetic, case labels, proof sizes and parameters of the runner.
- `tests/` — tests of the library on concrete values.
- `app/` — the mobile benchmark runner (`main`, timing, sleeping, thermal
  gate, JSON/CSV output) and the KB21 and BBS+BPP benchmark drivers, which
  call the docknetwork crates directly.
