# clipfile

Validated, forward-compatible access to CLIP STUDIO PAINT files.

`src/` is the library. Every function in it is verified with Verus: parsers state exactly
which bytes they accept and what they return, and reads of the embedded database state
which outcomes each answer of the database can lead to. `app/` reads files, reports
errors, and computes with floating-point numbers.

| Modules | What they hold |
| --- | --- |
| `container`, `scan`, `external`, `blocks`, `rebuild` | the file envelope, external objects, and block data |
| `sql`, `transaction`, `database` | the embedded database, its schema, and the index of external objects |
| `model`, `links` | projects, canvases, and layer trees |
| `cmc` | page-management files |
| `correction`, `ruler`, `text`, `text_arrays`, `text_readback` | correction, ruler, and text layers |
| `timelapse`, `frames` | recordings and the frames in them |
| `mixer`, `camera`, `track_rows`, `animation`, `animation_reader` | timelines, tracks, and curves |
| `pixels`, `bitmap`, `pictures`, `attributes`, `tiles`, `tile_codec`, `raster` | bitmaps and their tiles |
| `raster_tree`, `raster_template`, `clone_ids`, `clone_plan`, `raster_clone`, `clip_writer` | cloning raster layers |
| `bytes`, `reals`, `text_codec`, `zlib`, `limits`, `message`, `error` | shared parts |

Outside crates are called through a few trusted functions, each of which says in its
documentation what is taken for granted: `sql` and `transaction` (rusqlite), `zlib`
(flate2), `pictures` (image).
