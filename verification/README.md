# payme-qr

Offline generator of PayMe payment links and QR payment codes, following the
Slovak Banking Association's Payment Link Standard 2.0.

The library under `src/` is verified with Verus: every public function states
what it returns in its contract, and the properties that span functions are
proof functions (`lemma_*`) checked alongside the code.

- `spec`: payment types, attributes, presets and the requirement table.
- `iban`: normalising, checking and converting IBANs and Slovak BBANs.
- `reference`: the Slovak payment symbols and their canonical reference.
- `text`: folding free text to the recommended character set.
- `payment`: validation of a payment as typed, every problem at once.
- `link`: the payment link and its percent-encoding.
- `qr`: the QR symbol, its terminal drawing, its SVG and its raster.
- `contacts`: the remembered recipients and their YAML file.
- `cli`: the flags of the command line and the payment they describe.
- `tui`: the interactive form: text inputs, the state machine that keys
  drive, and what the form shows.

`app/` holds the program around the library: argument parsing, the terminal,
and reading and writing files. The form asks for writes through effects that
the program performs and reports back.
