# pbn_to_pdf

Reads Portable Bridge Notation (PBN) files and lays their boards out as PDF
documents: an analysis layout (hands around the table, auction, contract,
lead and commentary) and bidding practice sheets.

- `src/` is the library, verified with Verus: the card, hand, deal, auction
  and board model; the PBN parsers (tag pairs, deals, auctions, play,
  commentary with its formatting tags, whole files); the analysis of sure,
  promotion and length winners; the bidding table's cells; the commentary
  tokenizer, glyph collection,
  board preparation and bidding-sheet instructions; and the command-line
  settings and board ranges. Public functions state their results in
  `ensures` over spec functions; the proof functions named `law_*` state
  properties that relate several functions.
- `app/` is the command-line program: argument parsing with clap, file
  input and output, and drawing on PDF pages with printpdf. Page geometry
  uses floating point and stays there.
- `tests/` runs the library on concrete inputs.
