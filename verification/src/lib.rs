//! Ecosystem-scale reverse-dependency analysis over a package registry
//! snapshot: an in-memory package index, a reverse-dependency graph,
//! ephemeral descriptor synthesis for an external resolver, a cache-aware
//! resolution planner, a failure classifier, and a breadth-first
//! reverse-dependency walker.

mod classify;
mod count;
mod graph;
mod index;
mod krate;
mod orchestrate;
mod record;
mod requirement;
mod synth;
mod toolchain;
mod version;
mod walker;

pub use classify::{classify, contains_pat, spec_classify, str_contains, ResolveError, ResolveErrorKind};
pub use count::{count_crates, is_crate_entry, spec_crate_count, spec_is_crate_entry};
pub use graph::{edge_at, edge_exists, target_selected, RevEntry, ReverseIndex};
pub use index::{lemma_versions_strictly_ascending, spec_all_from, spec_covers, PackageIndex, ParseError};
pub use krate::{lemma_version_string_unique, Krate};
pub use orchestrate::{decide, entry_covered, item_matches, item_ok, lemma_cache_idempotent, lemma_second_run_reuses, select_work, spec_decide, worker_of, CacheDecision, CacheState, RunState, WorkItem};
pub use record::{opt_str_view, strs_view, CrateVersion, DepKind, DepSpecView, DependencySpec, KrateVersion, RecordView, VersionRecord};
pub use requirement::{req_match, req_ok};
pub use synth::{platform_ok, spec_scratch_path, spec_source_id, spec_synth_ok, synth_dependencies, synth_features, synth_manifest, synth_manifest_metadata, synth_manifest_path, synth_package, synth_package_id, synth_rust_version, synth_source_id, synth_summary, synth_workspace, EphemeralWorkspace, SynthDependency, SynthError, SynthManifest, SynthMetadata, SynthPackage, SynthPackageId, SynthSummary};
pub use toolchain::{rust_version_compat, rust_version_ok};
pub use walker::{keep, msv_ok, reach_any, reach_n, reachable_dependent, seed_pair, spec_keep, spec_key_name, spec_latest_keep, spec_min_keep, walk, walk_core, WalkFilters};
pub use version::{lemma_version_transitive, lemma_version_trichotomy, semver_parse, spec_version_eq, spec_version_lt, str_eq, str_lex_lt, Version};
