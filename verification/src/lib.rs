//! Revocation-mechanism building blocks for the EUDI wallet comparison:
//! the CL-RSA-B accumulator, the signed-gap lists of the signed-pairs
//! schemes, and the arithmetic of the benchmark runner.
pub mod modarith;
pub mod fermat;
pub mod bignum;
pub mod accumulator;
pub mod cl_rsa_b;
pub mod params;
pub mod types;
pub mod signed_pairs;
pub mod bench_cl_rsa_b;
pub mod schedule;
