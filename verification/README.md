# liveview_native_core

The core of a LiveView Native client, written in Verus: the virtual
document, the LiveView fragment protocol (merging the diffs a server sends
and rendering them to markup), string interning, the navigation history,
and the decisions a client takes while it fetches a page and talks to the
server.

## Layout

- `src/dom/`: the document (nodes, parents, children, identifiers), the
  builder used to edit it, attributes, selectors and selection, printing.
- `src/diff/fragment/`: fragments, components and their diffs; merging,
  rendering, and the mathematical model both are stated over.
- `src/diff/strict.rs`: the strict variant of the fragment protocol.
- `src/diff/patch.rs`: edits of a document and their effect.
- `src/diff/morph.rs`: the patches that turn one document into another.
- `src/diff/apply.rs`: merging a newer document into a document, patch by
  patch, telling the document's change handler of each change.
- `src/diff/fragment/fuel.rs`: rendering does not depend on the bound on its
  depth, and the shape of a rendered regular fragment; `Root::render_within`
  renders with an explicit bound.
- `src/navigation.rs`, `src/callbacks.rs`: the navigation history and the
  events it reports.
- `src/client/`: session data read from a dead render, the socket URLs,
  the fetch, event and reply decisions, upload inputs, and the phases of the
  client's background loop.
- `src/interner.rs`, `src/text.rs`, `src/config.rs`, `src/logging.rs`,
  `src/urls.rs`: interning, decimal text, settings, logging and the calls
  into the `url` crate.
- `app/`: the JSON wire format (serde), logger set-up and a read-only
  shared handle.
- `tests/`: behaviour on concrete values.
