/// The run's directives as plain values.
pub mod args;
/// The configuration document and its mathematical views.
pub mod config;
/// Ordered string-keyed maps with unique keys, and their upsert laws.
pub mod kvmap;
/// The library's proved laws: idempotence, non-destructive merging, and the
/// alias and grouping properties.
pub mod laws;
/// The merge engine: importing selected models and the optional group.
pub mod merge;
/// The output policy: where the rendered document goes.
pub mod output;
/// Parsing and applying the run's override directives.
pub mod overrides;
/// The whole synthesis, one step after the other.
pub mod pipeline;
/// Choosing which discovered models to import.
pub mod selection;
/// Verified string helpers: trimming, splitting and replacement.
pub mod strutil;
/// Command templates and placeholder substitution.
pub mod template;
