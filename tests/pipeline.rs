use astrograph_engine::analysis::{analyze_path, build_output, check_root, entrypoint_ids, timestamp_or_unknown};
use astrograph_engine::cache::CacheIndex;
use astrograph_engine::{AnalysisCache, AnalysisError, AnalysisOutput, FileOutcome, ParsedFile};

fn empty_cache() -> AnalysisCache {
    AnalysisCache::new("0.1.0", "/r")
}

fn run(files: &[(&str, &[u8])], cache: Option<AnalysisCache>, manual: &[&str]) -> AnalysisOutput {
    let snapshot = cache.clone().unwrap_or_else(empty_cache);
    let index = CacheIndex::build(&snapshot);
    let outcomes: Vec<FileOutcome> = files
        .iter()
        .map(|(path, bytes)| analyze_path(path, bytes, &snapshot, &index).unwrap())
        .collect();
    let manual: Vec<String> = manual.iter().map(|s| s.to_string()).collect();
    build_output("/r", "2024-01-01T00:00:00Z".to_string(), cache, &outcomes, &manual)
}

const LIB_RS: &[u8] = b"pub fn main() { helper(); }\nfn helper() {}\n";

#[test]
fn rust_call_resolves_to_local_function() {
    let out = run(&[("src/lib.rs", LIB_RS)], None, &[]);
    let r = &out.result;
    assert_eq!(r.schema_version, "0.1.0");
    assert_eq!(r.root, "/r");
    assert_eq!(r.generated_at, "2024-01-01T00:00:00Z");
    let helper = r.symbols.iter().find(|s| s.name == "helper").unwrap();
    let main = r.symbols.iter().find(|s| s.name == "main").unwrap();
    assert_eq!(r.calls.len(), 1);
    assert_eq!(r.calls[0].caller_id, main.id);
    assert_eq!(r.calls[0].callee_id.as_ref(), Some(&helper.id));
    assert_eq!(r.entrypoints, vec![main.id.clone()]);
    assert_eq!(r.stats.file_count, 1);
    assert_eq!(r.stats.symbol_count, 2);
    assert_eq!(r.stats.call_count, 1);
    assert_eq!(r.stats.entrypoint_count, 1);
    assert_eq!(r.stats.reused_cache_files, 0);
    assert_eq!(r.stats.reanalyzed_files, 1);
    assert_eq!(r.files[0].path, "src/lib.rs");
    assert_eq!(r.files[0].byte_size, LIB_RS.len());
}

#[test]
fn typescript_this_call_resolves_by_last_segment() {
    let out = run(&[("a.ts", b"export class Foo { bar() { this.bar(); } }\n")], None, &[]);
    let bar = out.result.symbols.iter().find(|s| s.name == "bar").unwrap();
    assert_eq!(out.result.calls[0].callee_name, "this.bar");
    assert_eq!(out.result.calls[0].callee_id.as_ref(), Some(&bar.id));
}

#[test]
fn manual_entrypoint_overlay() {
    let out = run(&[("src/lib.rs", LIB_RS)], None, &["helper"]);
    let helper = out.result.symbols.iter().find(|s| s.name == "helper").unwrap();
    let main = out.result.symbols.iter().find(|s| s.name == "main").unwrap();
    assert!(helper.is_entrypoint);
    assert!(out.result.entrypoints.contains(&helper.id));
    assert!(out.result.entrypoints.contains(&main.id));
    assert_eq!(out.result.stats.entrypoint_count, 2);
}

#[test]
fn manual_entrypoint_by_qualified_name() {
    let out = run(&[("src/lib.rs", LIB_RS)], None, &["src::lib::helper"]);
    let helper = out.result.symbols.iter().find(|s| s.name == "helper").unwrap();
    assert!(helper.is_entrypoint);
}

#[test]
fn second_run_reuses_the_cache() {
    let first = run(&[("src/lib.rs", LIB_RS)], None, &[]);
    let second = run(&[("src/lib.rs", LIB_RS)], Some(first.cache.clone()), &[]);
    assert_eq!(second.result.stats.reused_cache_files, first.result.stats.file_count);
    assert_eq!(second.result.stats.reanalyzed_files, 0);
    assert_eq!(format!("{:?}", first.result.symbols), format!("{:?}", second.result.symbols));
    assert_eq!(format!("{:?}", first.result.calls), format!("{:?}", second.result.calls));
    assert_eq!(first.result.entrypoints, second.result.entrypoints);
    assert_eq!(format!("{:?}", first.result.files), format!("{:?}", second.result.files));
}

#[test]
fn renamed_file_is_analyzed_again() {
    let first = run(&[("a.rs", LIB_RS)], None, &[]);
    let second = run(&[("b.rs", LIB_RS)], Some(first.cache.clone()), &[]);
    assert_eq!(second.result.stats.reused_cache_files, 0);
    assert_eq!(second.result.stats.reanalyzed_files, 1);
    assert_eq!(second.cache.files.len(), 1);
    assert_eq!(second.cache.files[0].path, "b.rs");
}

#[test]
fn changed_file_is_analyzed_again_and_stale_entries_dropped() {
    let first = run(&[("a.rs", LIB_RS), ("gone.rs", b"fn x() {}\n")], None, &[]);
    assert_eq!(first.cache.files.len(), 2);
    let second = run(&[("a.rs", b"fn other() {}\n")], Some(first.cache.clone()), &[]);
    assert_eq!(second.result.stats.reanalyzed_files, 1);
    assert_eq!(second.cache.files.len(), 1);
    assert_eq!(second.cache.files[0].path, "a.rs");
    assert_eq!(second.cache.files[0].file.symbols.len(), 1);
    assert_eq!(second.cache.schema_version, "0.1.0");
    assert_eq!(second.cache.root, "/r");
}

#[test]
fn empty_run_has_zero_stats() {
    let out = run(&[], None, &[]);
    let r = &out.result;
    assert_eq!(r.stats.file_count, 0);
    assert_eq!(r.stats.symbol_count, 0);
    assert_eq!(r.stats.call_count, 0);
    assert_eq!(r.stats.entrypoint_count, 0);
    assert_eq!(r.stats.reused_cache_files, 0);
    assert_eq!(r.stats.reanalyzed_files, 0);
    assert!(r.files.is_empty());
    assert!(r.symbols.is_empty());
    assert!(r.calls.is_empty());
    assert!(r.entrypoints.is_empty());
    assert!(out.cache.files.is_empty());
}

#[test]
fn outputs_are_sorted() {
    let out = run(
        &[
            ("z.rs", b"pub fn zeta() { alpha(); beta(); }\n"),
            ("a.rs", b"pub fn alpha() { beta(); }\npub fn beta() {}\n"),
            ("m.ts", b"export function main() { alpha(); }\n"),
        ],
        None,
        &[],
    );
    let r = &out.result;
    let paths: Vec<&str> = r.files.iter().map(|f| f.path.as_str()).collect();
    assert_eq!(paths, vec!["a.rs", "m.ts", "z.rs"]);
    for w in r.symbols.windows(2) {
        assert!((&w[0].fq_name, &w[0].id) <= (&w[1].fq_name, &w[1].id));
    }
    for w in r.calls.windows(2) {
        assert!((&w[0].caller_id, &w[0].callee_name, &w[0].id) <= (&w[1].caller_id, &w[1].callee_name, &w[1].id));
    }
    for w in r.entrypoints.windows(2) {
        assert!(w[0] < w[1]);
    }
    assert_eq!(r.entrypoints.len(), 4);
    for c in &r.calls {
        assert!(r.symbols.iter().any(|s| s.id == c.caller_id));
        if let Some(id) = &c.callee_id {
            assert!(r.symbols.iter().any(|s| &s.id == id));
        }
        assert!(r.files.iter().any(|f| f.path == c.file));
    }
    let mut cache_paths: Vec<&str> = out.cache.files.iter().map(|e| e.path.as_str()).collect();
    cache_paths.sort();
    assert_eq!(cache_paths, paths);
}

#[test]
fn qualified_call_prefers_smallest_qualified_name() {
    let out = run(
        &[
            ("b.rs", b"pub fn run() {}\n"),
            ("a.rs", b"pub fn run() {}\nfn go() { b::run(); }\n"),
        ],
        None,
        &[],
    );
    let target = out.result.symbols.iter().find(|s| s.fq_name == "a::run").unwrap();
    let call = &out.result.calls[0];
    assert_eq!(call.callee_name, "b::run");
    assert_eq!(call.callee_id.as_ref(), Some(&target.id));
}

#[test]
fn unknown_callee_stays_unlinked() {
    let out = run(&[("a.rs", b"fn go() { missing(); }\n")], None, &[]);
    assert_eq!(out.result.calls[0].callee_id, None);
}

#[test]
fn unsupported_file_is_refused() {
    let cache = empty_cache();
    let index = CacheIndex::build(&cache);
    let r = analyze_path("README.md", b"# title\n", &cache, &index);
    assert!(matches!(r, Err(AnalysisError::UnsupportedFile)));
}

#[test]
fn outcome_records_hash_and_size() {
    let cache = empty_cache();
    let index = CacheIndex::build(&cache);
    let o = analyze_path("x.js", b"abc", &cache, &index).unwrap();
    assert_eq!(o.hash, "ba7816bf8f01cfea414140de5dae2223b00361a396177a9cb410ff61f20015ad");
    assert_eq!(o.byte_size, 3);
    assert!(!o.from_cache);
}

#[test]
fn cache_upsert_replaces_and_appends() {
    let mut cache = empty_cache();
    let parsed = || ParsedFile { symbols: Vec::new(), calls: Vec::new() };
    cache.upsert("a.rs".to_string(), "h1".to_string(), astrograph_engine::Language::Rust, parsed());
    cache.upsert("b.rs".to_string(), "h2".to_string(), astrograph_engine::Language::Rust, parsed());
    cache.upsert("a.rs".to_string(), "h3".to_string(), astrograph_engine::Language::Rust, parsed());
    assert_eq!(cache.files.len(), 2);
    assert_eq!(cache.files[0].path, "a.rs");
    assert_eq!(cache.files[0].file.hash, "h3");
    assert_eq!(cache.files[1].file.hash, "h2");
}

#[test]
fn entrypoint_ids_are_unique_and_ascending() {
    let out = run(&[("src/lib.rs", LIB_RS)], None, &[]);
    let mut symbols = out.result.symbols.clone();
    let mut dup = symbols[0].clone();
    dup.is_entrypoint = true;
    symbols.push(dup.clone());
    symbols.push(dup);
    let ids = entrypoint_ids(&symbols);
    for w in ids.windows(2) {
        assert!(w[0] < w[1]);
    }
    assert_eq!(ids.len(), 2);
}

#[test]
fn missing_timestamp_reads_unknown() {
    assert_eq!(timestamp_or_unknown(None), "unknown");
    assert_eq!(timestamp_or_unknown(Some("t".to_string())), "t");
}

#[test]
fn root_must_be_an_existing_directory() {
    assert!(check_root(true, true).is_ok());
    assert!(matches!(check_root(false, false), Err(AnalysisError::InvalidPath)));
    assert!(matches!(check_root(true, false), Err(AnalysisError::InvalidPath)));
}

#[test]
fn hashes_have_sixty_four_digits() {
    let h = astrograph_engine::ids::hash_bytes(b"some bytes");
    assert_eq!(h.len(), 64);
    assert!(h.chars().all(|c| c.is_ascii_digit() || ('a'..='f').contains(&c)));
}
