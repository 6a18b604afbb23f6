# heif-convert

A command-line tool that converts HEIF images to JPG, PNG, WebP, GIF, TIFF,
BMP or ICO, in batches and with shell patterns.

The library under `src/` is verified with Verus:

- `cli` and `cmdline`: the output formats, the command-line grammar with its
  defaults (`{name}`, `{path}`, JPEG, quality 90, EXIF kept), the expansion of
  input patterns and the debug rendering of the arguments;
- `naming`: output names and directories from their templates, the stem,
  name and parent of a path, and the lexical normalization of absolute
  paths;
- `convert`: packing decoded HEIF planes into pictures and extracting the
  EXIF payload of a HEIF file;
- `encode`, `exif`, `output`: encoding a picture in each format (through the
  `image` and `ico` crates) and embedding EXIF metadata (through `img-parts`);
- `logging`: log levels and the layout of log lines;
- `text`: string utilities, among them Python's `repr` of a string.

`app/` holds the program: reading files with libheif, writing files, the
logger, and clap's help and usage texts.
