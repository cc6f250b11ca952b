//! Verified core of a workflow that searches the Vue.js documentation:
//! the search-result model, HTML text decoding and truncation, breadcrumbs,
//! the grouping of results, and the list entries shown to the user.

pub mod algolia;
pub mod breadcrumb;
pub mod grouping;
pub mod items;
pub mod models;
pub mod text;
