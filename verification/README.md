# diagramme_core

Verified core of the Diagramme schematic exporter: it writes drawings as DXF
text that Revit and other Autodesk tools import, audits such text, and holds
the data rules of the schematic nodes (port rows, bundles, wire categories,
wiretag labels, new connections).

The library in `src/` is written in Verus. Every function there carries a
contract; Verus proves all of them except six small trusted wrappers around
std and `uuid` calls (`String::from_iter`, `str::to_uppercase`,
`str::to_lowercase`, the `Debug` forms of a `str` and of a `Vec<String>`, and
`Uuid::new_v4`), whose contracts are taken as given and say no more than
those functions' documentation. Coordinates reach the library as formatted
number texts, so no floating point is involved.

| module        | what it holds |
|---------------|---------------|
| `chars`       | character-level text helpers and their specifications |
| `document`    | the CAD document, its entities, the DXF writer, serialization into the drawing shell |
| `template`    | the AC1015 drawing shell and merging entities into it, `$HANDSEED` |
| `sanitize`    | Revit-safe post-processing: cleaned lines, SOLIDs first, unique handles |
| `audit`       | findings on DXF text that breaks CAD import |
| `debug_split` | layer / entity-type splits of a drawing and their manifest |
| `json`        | the JSON values node data is read from |
| `layout`      | device and AV plate column groups and body grids |
| `bundles`     | runs of rows spanned by a bundle bracket |
| `node_data`   | small readers of node data (patch panels, wiretags, gutters) |
| `node_text`   | the texts drawn on nodes: frame tags and titles, block labels, wiretag bands |
| `ports`       | port handle ids |
| `scene`       | text alignment mapping and scene text rules |
| `diagram`     | nodes and edges |
| `wires`       | wire categories, their colors, and mismatch detection |
| `labels`      | device tags and wiretag texts |
| `connect`     | building a new schematic edge |

`app/` wraps the library for callers that work in inches with `f64`,
`serde_json` values and files. `tests/` exercises the library on concrete
values.
