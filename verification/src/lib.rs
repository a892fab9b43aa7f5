//! A changelog generator library: parses commit messages that follow the
//! `type(context): subject` convention, aggregates the parsed reports by
//! context and commit type, and renders a grouped Markdown changelog.

pub mod aggregator;
pub mod laws;
pub mod parser;
pub mod pipeline;
pub mod report;
pub mod split;
pub mod text;
