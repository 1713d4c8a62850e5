# platen

The catalog rules of platen, a self-hosted music library manager that keeps a catalog
of Tidal albums, finds them in a Music directory on disk, downloads missing ones through
Antra and imports a Jellyfin library. The rules are written in Verus and proved against
their contracts.

## Layout

- `src/` is the verified library. Each module states its rules as contracts over
  `Seq`, `Set` and `Map` models:
  - naming and reading back album directories (`filesystem`, `scan`, `scanner`, `text`),
  - reconciling a scan with the catalog and matching the rest against Tidal
    (`reconciliation`, `matching`, `workflow`, `repository`, `sort`),
  - Tidal and MusicBrainz documents and requests (`tidal`, `musicbrainz`, `mb_dto`),
  - downloads and their placement (`downloads`, `antra`),
  - Jellyfin imports, monitoring, discovery and album administration (`jellyfin`,
    `import_run`, `import_dto`, `monitoring`, `discovery`, `album_admin`, `artwork`),
  - release dates and settings (`release_date`, `config`).

  The proof functions whose names start with `law_` state properties that span
  functions or hold of every input, such as the sort keeping its elements, a
  reconciliation plan not depending on the order of its inputs, matching ignoring
  letter case and spacing, a placed album directory reading back as its title and year,
  and download progress reaching its completion without going back.
- `tests/` runs the library on concrete values.
- `app/` is a command-line program around the library: it reads settings from the
  environment, keeps the catalog in a JSON file, walks the Music directory, talks to
  Tidal, Antra, MusicBrainz and Jellyfin over HTTP, and offers the `scan`, `download`,
  `delete`, `jellyfin-import`, `monitor`, `monitor-artist`, `search-artists`,
  `artist-albums`, `mb-search-artist` and `mb-release-groups` commands.
