//! A static site generation library: pages flow through a pipeline of stages
//! that copy, move, filter, rename, decorate and render them.

pub mod errors;
pub mod strings;
pub mod json;
pub mod pages;
pub mod bundle;
pub mod selectors;
pub mod md;
pub mod metadata;
pub mod metadata_tree;
pub mod shadow;
pub mod git;
pub mod queries;
pub mod templates;
pub mod assets;
pub mod hbs;
pub mod npm;
pub mod helpers;
pub mod paths;
pub mod stages;

pub mod indexes;
pub mod laws;
pub mod page_laws;
