# convert_tex

Converts a TeX source archive (`.tar.gz`) into a single HTML page with make4ht:
the archive is unpacked, its main TeX file is found, make4ht is run on it with a
configuration of its own, the page that comes out becomes `index.html`, and its
`img` tags are given dimensions that keep the aspect ratio of the images.

- `src/` is the library, verified with Verus. It decides and computes: names of
  archives and files, the main TeX file, the steps towards the index page,
  attributes and `img` tags, the headers of PNG, JPEG and SVG images, the display
  height, the style sheet rule, and the report on LaTeX errors. The public proof
  functions whose names begin with `law_` state what holds of these as a whole.
- `app/` is the program around it: arguments, files, processes, unpacking.
- `tests/` runs the library on concrete values.

What the proofs rest on besides Verus and its library are two statements about
the standard library: that `String::push` appends a character (`src/text.rs`),
and what `Path::file_name` gives for paths that every system reads alike
(`src/archive.rs`).
