//! Prover side of a batched polynomial-commitment opening: for each distinct
//! evaluation point, one witness commitment that opens every polynomial
//! queried there.
//!
//! The prover is [`create_proof`]. It works over any scalars, points and
//! transcript that implement [`Scalar`], [`CurveAffine`] and
//! [`TranscriptWrite`]; the crate brings one of each, small enough to have
//! its laws proved: [`fp::Fp`], [`clear::ClearPoint`] and
//! [`MemoryTranscript`].
//!
//! What a run does is stated once, in [`prover::proof_outcome`]. The laws
//! that follow from it are proved beside it: the proof is a function of its
//! inputs, the clusters part the queries, division by the linear factor is
//! exact, and the transcript gains one challenge and then one point for each
//! cluster.

pub mod clear;
pub mod commitment;
pub mod curve;
pub mod domain;
pub mod field;
pub mod fp;
pub mod grouping;
pub mod opening;
pub mod pointer;
pub mod poly;
pub mod prover;
pub mod query;
pub mod transcript;

pub use commitment::Params;
pub use curve::CurveAffine;
pub use domain::{EvaluationDomain, Rotation};
pub use field::Scalar;
pub use grouping::{construct_intermediate_sets, Cluster};
pub use pointer::PolynomialPointer;
pub use poly::{eval_polynomial, kate_division, Polynomial};
pub use opening::{fold_cluster, open_cluster, Violation};
pub use prover::{create_proof, Error};
pub use query::{ProverQuery, Query};
pub use transcript::{Event, MemoryTranscript, TranscriptFull, TranscriptWrite};
