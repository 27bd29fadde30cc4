//! Discovery, validation and layered merging of agent skills.
//!
//! A skill is a directory holding a `SKILL.md` definition file: a structured
//! frontmatter block (name, description and a few optional fields) followed by
//! a free-text body. This crate parses such documents, enforces the naming and
//! size invariants, discovers skills under candidate roots through an injected
//! filesystem capability, merges layered collections with last-write-wins
//! precedence, resolves skill-relative paths safely, and projects a collection
//! into the sorted, truncated summary list handed to a prompt renderer.

pub mod text;
pub mod metadata;
pub mod yaml;
pub mod parse;
pub mod skill;
pub mod collection;
pub mod fsys;
pub mod discover;
pub mod format;
