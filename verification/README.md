# keeline

Keeline manages the metadata of a small set of Debian-based runtime images
published to GHCR: it reads `image.toml` definitions, validates the catalog
they form, plans Docker builds, releases and multi-platform manifests, prints
the CI build matrix, and keeps the bundled tools (`tino`, `salus`, `motdyn`)
pinned to their newest releases.

The library under `src/` is written in Verus. Every function there carries a
contract; Verus proves them all, except for four small trusted wrappers around
outside calls (`regex::Regex::new`, `regex::Regex::is_match`,
`semver::Version::parse` and `String::push`), whose contracts are taken as
given and say what those functions are documented to do.

- `text` – string operations with contracts over `Seq<char>`.
- `paths` – paths compared by their components, as `Path` compares them, and
  sorted sets of paths that keep the first text of each path.
- `model` – raw definitions, image targets and the catalog, with their views.
- `discovery` – expanding definitions into targets, variant by variant, and
  the catalog sorted by id.
- `pattern`, `validate` – the catalog's rules, with the `regex` crate behind
  two trusted wrappers; laws on valid catalogs (unique ids, unique published
  tags, no banned tag, pinned init and health-check images).
- `sort` – a stable insertion sort and the order lemmas it rests on.
- `commands`, `plans`, `matrix`, `docker`, `summary`, `output` – release
  planning, the build matrix, Docker command lines, messages and tables.
- `tools`, `versions`, `declarations`, `checks` – pinned image references,
  percent-encoding, editing `[tools.<name>]` blocks, SemVer through the
  `semver` crate, the tool declarations of a catalog, and the checks and
  updates planned from a registry's tags.

`app/` is the command-line program around the library: argument parsing with
clap, reading `image.toml` files (walkdir, toml), the registry's HTTP API
(ureq, serde_json), JSON output and running Docker.
