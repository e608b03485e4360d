# ahqstore_appimage

Builds the AHQ Store database of the AppImage catalogue
(`appimage.github.io`): reads each application page, picks its AppImage
downloads (directly, or from the assets of its GitHub release, through a
cache), and writes the store's map, search index, application records and
images.

- `src/` is the verified library: the rules and formats of the builder, each
  function with a Verus contract.
  - `pattern`: which asset name is an x86_64 or aarch64 AppImage.
  - `release`: the picks of a release, the release cache and its expiry, and
    the steps of a fetch.
  - `load`: the YAML front matter of a page, where its icon and screenshots
    lie, its image map, and the application record.
  - `store`: versions, downloads and display images of a store application.
  - `db`: the split of the map into files, and the texts and paths written.
  - `disposition`: the file name announced by a `Content-Disposition` header.
  - `text`: hexadecimal and decimal rendering, and string helpers.
  - `outside`: the trusted calls into `blake3`, `content_disposition`, `rand`
    and std.
- `app/` is the program around it: file and network I/O, the serde copies of
  the library's records, and the conversion to `ahqstore_types`.
- `tests/` runs the library against the real crates (including the `regex`
  crate for the asset patterns and std for the front matter rules).
