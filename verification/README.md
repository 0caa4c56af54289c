# hvat_backend

The logic of a server that lists, streams, uploads and downloads hyperspectral
images and runs segmentation models on them. The library under `src/` is written
and proved in Verus; the server around it, under `app/`, is ordinary Rust.

- `protocol`, `frame`, `bytes`: the frames that are sent over sockets.
- `catalog`, `paths`, `ordering`: which images a data directory holds, and their
  identifiers.
- `archive`, `zip_file`: downloads as archives, whole or in parts.
- `upload`, `upload_flow`: where uploads may go, their limits and their course.
- `pyramid`, `streaming`, `startup`: images at several resolutions, on disk and
  over sockets.
- `mux`, `connection`, `inference`, `plain`, `sam`, `json`: what is answered to
  the messages of a connection.
- `loaders`, `npy`, `pixels`, `images`: image files, their headers and thumbnails.
- `config`, `sam_config`, `capabilities`, `project_state`, `status`, `error`,
  `text`: what the rest needs.

Calls into other crates and into parts of the standard library that have no
specification stand behind functions whose contracts are trusted; each says so in
its doc comment.
