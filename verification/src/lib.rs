//! The logic of a build driver for container images on top of Buildah, which breaks layers
//! at explicit cache boundaries only.
//!
//! Consecutive instructions of a Dockerfile are grouped into chunks. A chunk starts at every
//! `FROM` and at every `# CHECKPOINT` comment, and becomes a single layer that is addressed
//! by a BLAKE3 hash of its base image, its instructions and the files that they bring into
//! the image. Where the cache knows the hash, the chunk is not executed.
//!
//! - [`parse`] reads a Dockerfile, [`substitute`] expands variables in its lines.
//! - [`driver`] divides the instructions into chunks, and decides on the work that is done
//!   beside the build.
//! - [`steps`] prepares the instructions of a chunk and says what each adds to its hash;
//!   [`copy`], [`digests`] and [`dockerignore`] say which files count, and how.
//! - [`commands`], [`healthcheck`] and [`actions`] say which command an instruction comes to.
//! - [`chunk`] executes a chunk, as a state machine that is told what came of its actions.
//! - [`prune`] and [`pruner`] decide which images go when the cache is cleaned up, [`lock`]
//!   how containers and images are marked as used.
//! - [`push`], [`pull`] and [`db`] name registries and files; [`duration`] and [`size`] read
//!   and write quantities.
//! - [`chunk_laws`], [`turn_laws`], [`step_laws`], [`command_laws`], [`parse_laws`],
//!   [`ignore_laws`] and [`text_laws`] hold what spans several turns, steps, commands, lines,
//!   rules or texts, and [`view_laws`] says what values stand for.
//! - [`external`] holds every call into another crate, with what is relied on of it.
pub mod actions;
pub mod chunk;
pub mod chunk_laws;
pub mod command_laws;
pub mod commands;
pub mod copy;
pub mod db;
pub mod digests;
pub mod dockerignore;
pub mod driver;
pub mod duration;
pub mod errors;
pub mod external;
pub mod healthcheck;
pub mod ignore_laws;
pub mod lock;
pub mod parse;
pub mod parse_laws;
pub mod paths;
pub mod prune;
pub mod pruner;
pub mod pull;
pub mod push;
pub mod size;
pub mod state;
pub mod step_laws;
pub mod steps;
pub mod substitute;
pub mod text;
pub mod text_laws;
pub mod textmap;
pub mod turn_laws;
pub mod view_laws;
