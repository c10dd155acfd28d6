//! Declaration-to-descriptor compiler for classes registered with a host engine.
//!
//! Annotated declarations arrive as plain token sequences; the library resolves
//! their attributes into typed directives, validates and defaults them, and
//! assembles an immutable class descriptor or a list of located diagnostics.

/// Impl blocks: exposed functions, signals, lifecycle overrides.
pub mod api;
/// Attribute argument lists: `key`, `key = value`, `key(...)`.
pub mod attr;
/// Field resolution, validation and descriptor assembly.
pub mod class;
/// Located diagnostics.
pub mod diag;
/// Class, property, role-hint and default-value directives.
pub mod directive;
/// The export shorthand table and export resolution.
pub mod export;
/// Range and label-table hints, enum key resolution.
pub mod hint;
/// Construction policy and field roles.
pub mod model;
/// Words, decimal literals and numbers.
pub mod text;
/// Flat token sequences and bracket-aware argument splitting.
pub mod tokens;
