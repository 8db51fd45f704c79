# salvis

Downloads books from [znanium.ru](https://znanium.ru/), page by page, as PDF files.

An account with the purchased book is needed. Put the links to the books into
`links.txt`, one to a line, and run

    salvis LOGIN PASSWORD [--from N] [--pages N] [--dump-svg] [--no-merge] [--headless]

Each page goes to `Pages/<title>/page_NNNN.pdf` as soon as it was fetched, and the
whole book to `All-Books/<title>.pdf`.

## Layout

- `src/` is the library, verified with Verus. What it calls of other crates stands
  behind contracts that are believed, not proved: of `serde_json` in `cookies`, of
  `usvg` and `svg2pdf` in `render`, of `pdf_writer` in `writer`, and `String::push`
  in `text`. Pictures on which `usvg` or `svg2pdf` panics are left out by what
  `render_svg` and `BookJob::advance` require; the program stops on them.
  - `session`: getting into the account, as a state machine.
  - `cookies`: the file of a saved session.
  - `book`: fetching one book, as a state machine.
  - `range`, `names`, `links`: which pages, under which names, from which links.
  - `render`: from the SVG of a page to PDF objects.
  - `document`, `numbering`, `writer`: documents of several pages.
  - `text`, `decimal`: strings and decimal numbers.
- `app/` works the browser and the files as the library says.
- `tests/` runs the library.
