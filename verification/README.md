# BoxDoc

A small document editor built around an object canvas: free-standing text,
image, rectangle and line objects on pages of a chosen paper format, with
multiple selection, copy and paste, undo and redo, the native `.boxdoc`
project format, OpenDocument (ODT) import and export, and PDF export.

The editing logic is a library verified with Verus; the window around it is
ordinary Rust.

## Layout

- `src/` – the verified library (`boxdoc`)
  - `model.rs` – documents, pages, elements, paper formats
  - `history.rs` – the bounded snapshot history behind undo and redo
  - `editor.rs` – the editor state and its operations (selection, adding
    and deleting objects, pages, copy and paste, undo and redo), with the
    invariant that element ids are unique and below the id counter, in the
    document and in every state the history can restore
  - `selection.rs` – what a pointer press does to the selection, and the
    text and font edits that apply to every selected text
  - `store.rs` – the image store (encoded bytes and pixel size per id)
  - `project.rs` – the `.boxdoc` project: images as Base64, loading with
    the next free id, the embedded guide for agents
  - `odt.rs` – the XML of an exported ODT document and the reading of
    frames, attributes and paragraphs from an imported one
  - `odt_roundtrip.rs`, `odt_frames.rs` – what the import reads back of an
    export: every frame, in order, with its text, position, size, rotation
    and picture
  - `codec.rs` – Base64 and image decoding, image signatures
  - `settings.rs` – user preferences
  - `text.rs` – string helpers and their specifications
- `app/` – the egui window: canvas drawing and pointer interaction (all
  floating-point geometry), menus and panels, file dialogs, JSON, ZIP and
  PDF files, themes and fonts
- `tests/` – tests of the library

Positions, sizes and angles are floating point; the library carries them as
an opaque geometry value and never looks inside.
