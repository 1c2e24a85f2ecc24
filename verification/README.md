# rsword-layout-core

The core of a DOCX layout engine: how a document occupies two-dimensional
space. Every length is in twips (1/1440 inch); vertical positions are
carried in fine units (1/7200 inch) where Word's baseline grid needs them.

`src/` is the verified library. The layout engine (`engine`) breaks
paragraphs into lines against a `FontMetrics` implementation, paginates
them and reports every fragment with its document-wide UTF-16 source
range; `paint` turns pages into draw commands, `record` flattens them into
the page / line / glyph record the comparator reads, and `oracle_json`
writes that record as the measuring tool's trace. `bridge` reads the
document model (`json`) into paragraphs, `anchor` turns anchored drawings
into wrap regions (`wrap`, `path`), `shape` shapes text with rustybuzz,
and `vertical` derives line metrics from what fonts declare.

`app/` holds what the library does not: conversion from `serde_json`
values, floating-point transforms, viewports and traces, the comparator's
verdict, finding font files on disk, and rasterization with skrifa and
zeno.
