# quietmd

The logic of QuietMD, a read-only Markdown viewer for Windows, as a Verus library.

- `src/` is the verified library:
  - `events.rs` — the Markdown event stream (the one call into `pulldown_cmark`);
  - `markdown.rs`, `markdown_spec.rs` — the document model, the builder that turns
    events into styled blocks, and its specification;
  - `layout.rs` — the document text that selection, copy, search and sentence
    selection work on, and where each block's text lies in it;
  - `search.rs`, `sentence.rs` — find-in-document and sentence boundaries over UTF-16;
  - `decode.rs` — file bytes to text (UTF-8, UTF-8 BOM, UTF-16 LE/BE BOM) and the title;
  - `settings.rs`, `window.rs` — display settings, menu commands, window placement and
    the small decisions of the window (keys, menu items, mouse coordinates, DPI, selection).
  - `websearch.rs` — the address that searches the web for the selected text.
  - `text.rs` — UTF-16 lengths and encodings, trimming, joining.
- `app/` is the Win32 program around it: the window, Direct2D/DirectWrite drawing with
  its floating-point page geometry, dialogs, the clipboard and file access.
- `tests/` runs the library on concrete inputs.

Behaviour worth knowing:

- A link shows its destination after its text, as `text (destination)`, so that the
  destination stays visible and can be copied; an autolink, whose text already is the
  destination, shows it once.
- "Search the web" in the context menu opens
  `https://www.google.com/search?q=` followed by the selected text's UTF-8 bytes, with
  letters, digits and `-._~` kept and every other byte written as `%XX`.
- A table row is one block of text, its cells framed by `│`, and is copied in that form.
  The parser does not keep cells and alignments apart, so columns are not measured and
  cells do not wrap on their own.
