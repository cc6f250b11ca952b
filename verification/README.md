# alfred_vue_docs

The verified core of an Alfred workflow that searches the Vue.js
documentation. Every function in `src/` carries a contract that Verus proves.

- `src/models.rs`: search hits and their seven-level hierarchy (root, deepest
  value, present values).
- `src/text.rs`: truncation to a number of Unicode scalars, and the HTML
  decoding of titles and breadcrumbs (numeric references are decoded only when
  terminated by `;` and not marked with an upper-case `X`; everything else goes
  through `htmlize::unescape`).
- `src/breadcrumb.rs`: breadcrumbs built from the hierarchy values other than
  the title, decoded, and cut to 75 scalars for display.
- `src/grouping.rs`: grouping of hits by root and then by breadcrumb, in
  first-seen order, with the laws that the grouping files every hit exactly once
  and exactly under its root and breadcrumb.
- `src/items.rs`: the list entries shown to the user (results, the placeholder,
  and the web search fallback whose address `url` builds).
- `src/algolia.rs`: the search client's configuration checks, read hosts and
  search route.

`app/` turns the entries into `alfred_workflow_rs` items for output and reads
search hits from JSON.
