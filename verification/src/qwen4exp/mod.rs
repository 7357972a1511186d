//! One model family: how its planes are held, how a walk over its layers is laid out, and what its
//! streams remember.
pub mod attn;
pub mod config;
pub mod dense;
pub mod gdn;
pub mod kq;
pub mod meaning;
pub mod mix;
pub mod model;
pub mod moe;
pub mod ngram;
pub mod plan;
pub mod ple;
pub mod seam;
pub mod sizes;
pub mod stage;
pub mod switches;
pub mod walk;
