//! View-state engine for an interactively sortable, filterable table of
//! records: stable single-column sorting, per-column filters, the pipeline
//! that derives the rendered rows, and the small UI state machines around it.
pub mod text;
pub mod model;
pub mod sort;
pub mod filter;
pub mod popup;
pub mod view;
