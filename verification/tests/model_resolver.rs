//! Models and adapters in a local directory or in the hub cache.

use spark_server::model_resolver::{
    resolve_adapter_dir, resolve_cache_root, resolve_model_dir, CacheEnv, PathFacts, Resolution,
    Sight,
};
use std::collections::BTreeMap;

/// A disk in memory: files with their text, and when each directory was last
/// modified.
#[derive(Default)]
struct Disk {
    files: BTreeMap<String, String>,
    dirs: BTreeMap<String, i128>,
}

impl Disk {
    fn dir(&mut self, path: &str, modified: i128) {
        let parts: Vec<&str> = path.split('/').collect();
        for n in 2..=parts.len() {
            self.dirs.entry(parts[..n].join("/")).or_insert(modified);
        }
        self.dirs.insert(path.to_string(), modified);
    }

    fn file(&mut self, path: &str, text: &str) {
        let dir = path.rsplit_once('/').unwrap().0;
        if !self.dirs.contains_key(dir) {
            self.dir(dir, 0);
        }
        self.files.insert(path.to_string(), text.to_string());
    }

    fn look(&self, path: &str) -> PathFacts {
        let is_dir = self.dirs.contains_key(path);
        let prefix = format!("{path}/");
        let names = self
            .files
            .keys()
            .chain(self.dirs.keys())
            .filter_map(|p| p.strip_prefix(&prefix))
            .filter(|rest| !rest.contains('/'))
            .map(|rest| rest.to_string())
            .collect();
        PathFacts {
            is_dir,
            exists: is_dir || self.files.contains_key(path),
            text: self.files.get(path).cloned(),
            names: if is_dir { Some(names) } else { None },
            modified: self.dirs.get(path).copied(),
        }
    }
}

fn env(cache_dir: Option<&str>) -> CacheEnv {
    CacheEnv {
        cache_dir: cache_dir.map(|s| s.to_string()),
        hf_hub_cache: None,
        hf_home: None,
        home: None,
    }
}

/// Answers the questions of a resolution until it is settled.
fn settle(disk: &Disk, step: impl Fn(&Vec<Sight>) -> Resolution) -> Result<String, String> {
    let mut seen: Vec<Sight> = Vec::new();
    loop {
        match step(&seen) {
            Resolution::Look(path) => {
                assert!(seen.iter().all(|s| s.path != path), "asked twice for {path}");
                let facts = disk.look(&path);
                seen.push(Sight { path, facts });
            }
            Resolution::Found(dir) => return Ok(dir),
            Resolution::Failed(why) => return Err(why),
        }
    }
}

fn resolve(disk: &Disk, model: &str, cache_dir: Option<&str>) -> Result<String, String> {
    settle(disk, |seen| resolve_model_dir(model, &env(cache_dir), seen))
}

fn adapter(disk: &Disk, spec: &str, cache_dir: Option<&str>) -> Result<String, String> {
    settle(disk, |seen| resolve_adapter_dir(spec, &env(cache_dir), seen))
}

/// An entry of the cache without weights.
fn setup_mock_cache_no_weights(disk: &mut Disk, org: &str, name: &str, hash: &str) -> String {
    let entry = format!("/cache/models--{org}--{name}");
    let snapshot = format!("{entry}/snapshots/{hash}");
    disk.file(&format!("{entry}/refs/main"), hash);
    disk.dir(&snapshot, 1);
    disk.file(&format!("{snapshot}/config.json"), "{}");
    disk.file(&format!("{snapshot}/tokenizer.json"), "{}");
    snapshot
}

fn setup_mock_cache(disk: &mut Disk, org: &str, name: &str, hash: &str) -> String {
    let snapshot = setup_mock_cache_no_weights(disk, org, name, hash);
    disk.file(&format!("{snapshot}/model.safetensors"), "weights");
    snapshot
}

#[test]
fn resolve_local_directory() {
    let mut disk = Disk::default();
    disk.file("/models/mine/config.json", "{}");
    assert_eq!(resolve(&disk, "/models/mine", None).unwrap(), "/models/mine");
}

#[test]
fn resolve_hf_model_id() {
    let mut disk = Disk::default();
    let expected = setup_mock_cache(
        &mut disk,
        "nvidia",
        "Qwen3-Next-80B-A3B-Instruct-NVFP4",
        "abc123",
    );
    let result = resolve(
        &disk,
        "nvidia/Qwen3-Next-80B-A3B-Instruct-NVFP4",
        Some("/cache"),
    );
    assert_eq!(result.unwrap(), expected);
}

#[test]
fn resolve_missing_model_gives_download_hint() {
    let disk = Disk::default();
    let err = resolve(&disk, "nonexistent/model", Some("/cache")).unwrap_err();
    assert!(err.contains("not found in HF cache"));
    assert!(err.contains("huggingface-cli download"));
}

#[test]
fn resolve_missing_config_json() {
    let mut disk = Disk::default();
    disk.dir("/cache/models--org--model/snapshots/abc", 1);
    disk.file("/cache/models--org--model/refs/main", "abc");
    let err = resolve(&disk, "org/model", Some("/cache")).unwrap_err();
    assert!(err.contains("missing config.json"));
}

#[test]
fn cache_dir_arg_takes_precedence() {
    let mut disk = Disk::default();
    let _expected = setup_mock_cache(&mut disk, "org", "model", "hash1");
    let result = resolve(&disk, "org/model", Some("/cache"));
    assert!(result.unwrap().starts_with("/cache"));
}

#[test]
fn falls_back_to_sibling_snapshot_with_weights() {
    // refs/main points at a metadata-only snapshot; a sibling snapshot has the
    // weights.
    let mut disk = Disk::default();
    let bad = setup_mock_cache_no_weights(&mut disk, "nvidia", "Gemma-4-31B-IT-NVFP4", "05fa17");
    let snapshots = bad.rsplit_once('/').unwrap().0.to_string();
    let good = format!("{snapshots}/1365cf");
    disk.dir(&good, 2);
    disk.file(&format!("{good}/config.json"), "{}");
    disk.file(&format!("{good}/model-00001-of-00004.safetensors"), "shard");
    let result = resolve(&disk, "nvidia/Gemma-4-31B-IT-NVFP4", Some("/cache"));
    assert_eq!(result.unwrap(), good);
}

#[test]
fn bails_when_all_snapshots_lack_weights() {
    let mut disk = Disk::default();
    setup_mock_cache_no_weights(&mut disk, "org", "model", "h1");
    let err = resolve(&disk, "org/model", Some("/cache")).unwrap_err();
    assert!(
        err.contains("no weight files") || err.contains("metadata-only"),
        "expected weight-files error, got: {err}"
    );
    assert!(err.contains("huggingface-cli download"));
}

#[test]
fn the_newest_sibling_wins() {
    let mut disk = Disk::default();
    setup_mock_cache_no_weights(&mut disk, "o", "m", "h1");
    for (hash, modified) in [("a", 5), ("b", 9), ("c", 7)] {
        let dir = format!("/cache/models--o--m/snapshots/{hash}");
        disk.dir(&dir, modified);
        disk.file(&format!("{dir}/consolidated.safetensors"), "w");
    }
    let result = resolve(&disk, "o/m", Some("/cache"));
    assert_eq!(result.unwrap(), "/cache/models--o--m/snapshots/b");
}

#[test]
fn a_reference_without_a_snapshot_is_reported() {
    let mut disk = Disk::default();
    disk.file("/cache/models--o--m/refs/main", " gone\n");
    let err = resolve(&disk, "o/m", Some("/cache")).unwrap_err();
    assert_eq!(
        err,
        "Snapshot directory not found: /cache/models--o--m/snapshots/gone\n\
         refs/main points to hash 'gone' but that snapshot doesn't exist."
    );
    let mut disk = Disk::default();
    disk.dir("/cache/models--o--m", 1);
    let err = resolve(&disk, "o/m", Some("/cache")).unwrap_err();
    assert!(err.starts_with("No default revision for 'o/m'."), "{err}");
}

#[test]
fn cache_roots_in_order() {
    let mut e = env(None);
    assert_eq!(resolve_cache_root(&e), None);
    e.home = Some("/home/me".into());
    assert_eq!(
        resolve_cache_root(&e).as_deref(),
        Some("/home/me/.cache/huggingface/hub")
    );
    e.hf_home = Some("/hf/".into());
    assert_eq!(resolve_cache_root(&e).as_deref(), Some("/hf/hub"));
    e.hf_hub_cache = Some("/hub".into());
    assert_eq!(resolve_cache_root(&e).as_deref(), Some("/hub"));
    e.cache_dir = Some("/arg".into());
    assert_eq!(resolve_cache_root(&e).as_deref(), Some("/arg"));
}

#[test]
fn no_home_no_cache() {
    let disk = Disk::default();
    assert_eq!(
        resolve(&disk, "o/m", None).unwrap_err(),
        "Cannot determine home directory: $HOME is not set"
    );
}

#[test]
fn adapters_need_their_own_files() {
    let mut disk = Disk::default();
    disk.dir("/ad", 1);
    let err = adapter(&disk, "/ad", None).unwrap_err();
    assert!(err.contains("not a PEFT adapter"), "{err}");
    disk.file("/ad/adapter_config.json", "{}");
    let err = adapter(&disk, "/ad", None).unwrap_err();
    assert_eq!(err, "Adapter '/ad' has no adapter_model.safetensors in /ad");
    disk.file("/ad/adapter_model.bin", "p");
    let err = adapter(&disk, "/ad", None).unwrap_err();
    assert!(err.contains("torch pickle"), "{err}");
    disk.file("/ad/adapter_model.safetensors", "w");
    assert_eq!(adapter(&disk, "/ad", None).unwrap(), "/ad");
}

#[test]
fn adapters_from_the_cache() {
    let mut disk = Disk::default();
    let err = adapter(&disk, "o/a", Some("/cache")).unwrap_err();
    assert!(err.starts_with("Adapter 'o/a' not found in HF cache at /cache."), "{err}");
    disk.file("/cache/models--o--a/refs/main", "h");
    disk.dir("/cache/models--o--a/snapshots/h", 1);
    let err = adapter(&disk, "o/a", Some("/cache")).unwrap_err();
    assert!(err.contains("not a PEFT adapter repo"), "{err}");
    disk.file("/cache/models--o--a/snapshots/h/adapter_config.json", "{}");
    disk.file("/cache/models--o--a/snapshots/h/adapter_model.safetensors", "w");
    assert_eq!(
        adapter(&disk, "o/a", Some("/cache")).unwrap(),
        "/cache/models--o--a/snapshots/h"
    );
}
