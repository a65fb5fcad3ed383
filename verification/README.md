# spfs

A verified core of the spfs/spk storage tools: the rules that decide how data
is synced between repositories, how two file manifests differ, how the
configuration picks a repository, and how spk packages are laid out as spfs
tags. The functions of `src/` carry contracts that Verus proves, except the
few marked `#[verifier::external_body]`: each of those makes one call into
an outside crate or the system, and its contract is taken on trust. A few
constructors (such as the system defaults of the configuration) state only
part of what they give, where the rest depends on the machine.

Layout:

- `src/graph.rs`, `src/tracking.rs`: digests, stored objects, tag specs, and
  tracked manifests kept in path order.
- `src/text.rs`: path ordering, string building and replacement.
- `src/sync_summary.rs`, `src/sync_result.rs`: what a sync did, and the
  counts that summarize it.
- `src/sync.rs`: the syncer's options and the sync of layers, manifests,
  entries, blobs and payloads over any repository.
- `src/walk.rs`: the walk of a sync over environments, tags, objects and
  platforms.
- `src/upgrade.rs`: upgrading a package repository to one tag per component,
  and publishing a package build's tags.
- `src/tag_paths.rs`: the segments of tag paths, and what a listing of the
  tags below a path shows.
- `src/memory.rs`: repositories held in memory, for syncing and upgrading.
- `src/diff.rs`: the differences between two manifests.
- `src/config.rs`: user, storage and remote configuration; choosing the
  repository that a name or address stands for.
- `src/ident.rs`, `src/spk_storage.rs`: package identifiers and components,
  and their spfs tags.
- `src/meta.rs`: package metadata and labels.
- `src/misc.rs`: commands, migrations, build display and smaller items.
- `src/laws.rs`: properties that span several functions.
- `app/`: the command line program, configuration files, processes and
  progress display.
