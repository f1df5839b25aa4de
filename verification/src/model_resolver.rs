//! Resolves a model specifier, a local path or the id of a model in the hub
//! cache, to a directory that holds its configuration and weights.
//!
//! The rules are a function of what has been seen on disk. When they need a
//! path that nobody has looked at yet they name it; the caller looks, adds what
//! it saw, and asks again.
//!
//! Layout of the cache: `{root}/models--{org}--{name}/snapshots/{hash}/`, with
//! the hash of the active snapshot in `refs/main`.

use crate::text;
use crate::text::{chars_of, same_text, text_at, text_of, trimmed};
use vstd::prelude::*;
use vstd::string::*;

verus! {

/// What was seen at a path.
pub struct PathFacts {
    pub is_dir: bool,
    pub exists: bool,
    /// The contents of a readable text file.
    pub text: Option<String>,
    /// The names in a readable directory.
    pub names: Option<Vec<String>>,
    /// When it was last modified, in nanoseconds since the epoch.
    pub modified: Option<i128>,
}

/// A path that was looked at.
pub struct Sight {
    pub path: String,
    pub facts: PathFacts,
}

/// Where the cache may be: the command line and the environment.
pub struct CacheEnv {
    pub cache_dir: Option<String>,
    pub hf_hub_cache: Option<String>,
    pub hf_home: Option<String>,
    pub home: Option<String>,
}

/// How far the resolution has come.
pub enum Resolution {
    /// This path has to be looked at first.
    Look(String),
    /// The directory.
    Found(String),
    /// Why there is none.
    Failed(String),
}

/// Whether a directory holds weights.
pub enum Weights {
    Look(String),
    Present,
    Absent,
}

#[verifier::ext_equal]
pub struct FactsView {
    pub is_dir: bool,
    pub exists: bool,
    pub text: Option<Seq<char>>,
    pub names: Option<Seq<Seq<char>>>,
    pub modified: Option<i128>,
}

#[verifier::ext_equal]
pub struct SightView {
    pub path: Seq<char>,
    pub facts: FactsView,
}

#[verifier::ext_equal]
pub struct EnvView {
    pub cache_dir: Option<Seq<char>>,
    pub hf_hub_cache: Option<Seq<char>>,
    pub hf_home: Option<Seq<char>>,
    pub home: Option<Seq<char>>,
}

pub enum ResolutionView {
    Look(Seq<char>),
    Found(Seq<char>),
    Failed(Seq<char>),
}

pub enum WeightsView {
    Look(Seq<char>),
    Present,
    Absent,
}

impl View for PathFacts {
    type V = FactsView;

    open spec fn view(&self) -> FactsView {
        FactsView {
            is_dir: self.is_dir,
            exists: self.exists,
            text: text::opt_text(self.text),
            names: match self.names {
                Some(v) => Some(text::texts(v@)),
                None => None,
            },
            modified: self.modified,
        }
    }
}

impl View for Sight {
    type V = SightView;

    open spec fn view(&self) -> SightView {
        SightView { path: self.path@, facts: self.facts@ }
    }
}

impl View for CacheEnv {
    type V = EnvView;

    open spec fn view(&self) -> EnvView {
        EnvView {
            cache_dir: text::opt_text(self.cache_dir),
            hf_hub_cache: text::opt_text(self.hf_hub_cache),
            hf_home: text::opt_text(self.hf_home),
            home: text::opt_text(self.home),
        }
    }
}

impl View for Resolution {
    type V = ResolutionView;

    open spec fn view(&self) -> ResolutionView {
        match self {
            Resolution::Look(p) => ResolutionView::Look(p@),
            Resolution::Found(p) => ResolutionView::Found(p@),
            Resolution::Failed(m) => ResolutionView::Failed(m@),
        }
    }
}

impl View for Weights {
    type V = WeightsView;

    open spec fn view(&self) -> WeightsView {
        match self {
            Weights::Look(p) => WeightsView::Look(p@),
            Weights::Present => WeightsView::Present,
            Weights::Absent => WeightsView::Absent,
        }
    }
}

/// All that was seen.
pub open spec fn sights(disk: Seq<Sight>) -> Seq<SightView> {
    disk.map_values(|s: Sight| s@)
}

/// What was seen at a path, in the sights from `i` on.
pub open spec fn seen_from(disk: Seq<SightView>, path: Seq<char>, i: int) -> Option<FactsView>
    decreases disk.len() - i,
{
    if i < 0 || i >= disk.len() {
        None
    } else if disk[i].path == path {
        Some(disk[i].facts)
    } else {
        seen_from(disk, path, i + 1)
    }
}

/// What was seen at a path.
pub open spec fn seen(disk: Seq<SightView>, path: Seq<char>) -> Option<FactsView> {
    seen_from(disk, path, 0)
}

fn find_sight<'a>(disk: &'a Vec<Sight>, path: &str) -> (r: Option<&'a PathFacts>)
    ensures
        match r {
            Some(f) => seen(sights(disk@), path@) == Some(f@),
            None => seen(sights(disk@), path@) is None,
        },
{
    let mut i: usize = 0;
    while i < disk.len()
        invariant
            i <= disk@.len(),
            seen(sights(disk@), path@) == seen_from(sights(disk@), path@, i as int),
        decreases disk@.len() - i,
    {
        assert(sights(disk@)[i as int] == disk@[i as int]@);
        if same_text(disk[i].path.as_str(), path) {
            return Some(&disk[i].facts);
        }
        i = i + 1;
    }
    None
}

// ── paths ──

/// The path `b` below `a`; an absolute `b` stands alone.
pub open spec fn path_join(a: Seq<char>, b: Seq<char>) -> Seq<char> {
    if b.len() > 0 && b[0] == '/' {
        b
    } else if a.len() == 0 || a.last() == '/' {
        a + b
    } else {
        a + "/"@ + b
    }
}

fn join_path(a: &str, b: &str) -> (r: String)
    ensures
        r@ == path_join(a@, b@),
{
    let ac: Vec<char> = chars_of(a);
    let bc: Vec<char> = chars_of(b);
    if bc.len() > 0 && bc[0] == '/' {
        return b.to_owned();
    }
    let mut r: String = a.to_owned();
    if ac.len() > 0 && ac[ac.len() - 1] != '/' {
        r.append("/");
    }
    r.append(b);
    r
}

/// `s` with two hyphens for each slash.
pub open spec fn hyphenated(s: Seq<char>) -> Seq<char>
    decreases s.len(),
{
    if s.len() == 0 {
        Seq::empty()
    } else {
        hyphenated(s.drop_last()) + if s.last() == '/' {
            "--"@
        } else {
            seq![s.last()]
        }
    }
}

/// The name of a model's directory in the cache.
pub open spec fn cache_name(model_id: Seq<char>) -> Seq<char> {
    "models--"@ + hyphenated(model_id)
}

fn write_cache_name(model_id: &str) -> (r: String)
    ensures
        r@ == cache_name(model_id@),
{
    let s: Vec<char> = chars_of(model_id);
    let mut out: String = "models--".to_owned();
    let mut i: usize = 0;
    assert(s@.take(0) =~= Seq::<char>::empty());
    assert(out@ =~= "models--"@ + hyphenated(s@.take(0)));
    while i < s.len()
        invariant
            i <= s@.len(),
            out@ == "models--"@ + hyphenated(s@.take(i as int)),
        decreases s@.len() - i,
    {
        assert(s@.take(i + 1).drop_last() =~= s@.take(i as int));
        if s[i] == '/' {
            out.append("--");
        } else {
            out.push(s[i]);
        }
        i = i + 1;
        assert(out@ =~= "models--"@ + hyphenated(s@.take(i as int)));
    }
    assert(s@.take(i as int) =~= s@);
    out
}

/// The root of the cache: the argument, then the two variables of the hub, then
/// the default below the home directory.
pub open spec fn cache_root(env: EnvView) -> Option<Seq<char>> {
    match (env.cache_dir, env.hf_hub_cache, env.hf_home, env.home) {
        (Some(dir), _, _, _) => Some(dir),
        (None, Some(dir), _, _) => Some(dir),
        (None, None, Some(dir), _) => Some(path_join(dir, "hub"@)),
        (None, None, None, Some(dir)) => Some(path_join(dir, ".cache/huggingface/hub"@)),
        (None, None, None, None) => None,
    }
}

/// The root of the cache; `None` when not even the home directory is known.
pub fn resolve_cache_root(env: &CacheEnv) -> (r: Option<String>)
    ensures
        text::opt_text(r) == cache_root(env@),
{
    if let Some(dir) = &env.cache_dir {
        return Some(dir.as_str().to_owned());
    }
    if let Some(dir) = &env.hf_hub_cache {
        return Some(dir.as_str().to_owned());
    }
    if let Some(dir) = &env.hf_home {
        return Some(join_path(dir.as_str(), "hub"));
    }
    match &env.home {
        Some(dir) => Some(join_path(dir.as_str(), ".cache/huggingface/hub")),
        None => None,
    }
}

// ── weights ──

/// The file names that are weights by themselves.
pub open spec fn weight_names() -> Seq<Seq<char>> {
    seq![
        "model.safetensors"@,
        "model.safetensors.index.json"@,
        "consolidated.safetensors"@,
        "consolidated.safetensors.index.json"@,
    ]
}

/// `s` ends with `suffix`.
pub open spec fn ends_with(s: Seq<char>, suffix: Seq<char>) -> bool {
    text::matches_at(s, suffix, s.len() - suffix.len())
}

/// The name is that of a shard.
pub open spec fn is_shard(name: Seq<char>) -> bool {
    ends_with(name, ".safetensors"@)
}

/// Some name of the list is that of a shard.
pub open spec fn lists_shard(names: Seq<Seq<char>>) -> bool {
    exists|i: int| 0 <= i < names.len() && is_shard(#[trigger] names[i])
}

/// Whether a directory holds weights, of the known names those from `i` on
/// considered: one of them, or any shard.
pub open spec fn weights_from(disk: Seq<SightView>, dir: Seq<char>, i: int) -> WeightsView
    decreases weight_names().len() - i,
{
    if 0 <= i < weight_names().len() {
        let p = path_join(dir, weight_names()[i]);
        match seen(disk, p) {
            None => WeightsView::Look(p),
            Some(f) => if f.exists {
                WeightsView::Present
            } else {
                weights_from(disk, dir, i + 1)
            },
        }
    } else {
        match seen(disk, dir) {
            None => WeightsView::Look(dir),
            Some(f) => match f.names {
                None => WeightsView::Absent,
                Some(names) => if lists_shard(names) {
                    WeightsView::Present
                } else {
                    WeightsView::Absent
                },
            },
        }
    }
}

/// Whether a directory holds weights.
pub open spec fn weights_of(disk: Seq<SightView>, dir: Seq<char>) -> WeightsView {
    weights_from(disk, dir, 0)
}

fn is_shard_name(name: &str) -> (r: bool)
    ensures
        r == is_shard(name@),
{
    let s: Vec<char> = chars_of(name);
    let ext: &str = ".safetensors";
    let n: usize = chars_of(ext).len();
    s.len() >= n && text_at(&s, ext, s.len() - n)
}

fn has_shard(names: &Vec<String>) -> (r: bool)
    ensures
        r == lists_shard(text::texts(names@)),
{
    let mut i: usize = 0;
    while i < names.len()
        invariant
            i <= names@.len(),
            forall|k: int| 0 <= k < i ==> !is_shard(#[trigger] text::texts(names@)[k]),
        decreases names@.len() - i,
    {
        assert(text::texts(names@)[i as int] == names@[i as int]@);
        if is_shard_name(names[i].as_str()) {
            assert(is_shard(text::texts(names@)[i as int]));
            return true;
        }
        i = i + 1;
    }
    false
}

/// Whether a directory holds at least one weight file that can be loaded.
pub fn snapshot_has_weights(disk: &Vec<Sight>, dir: &str) -> (w: Weights)
    ensures
        w@ == weights_of(sights(disk@), dir@),
{
    let known: [&str; 4] = [
        "model.safetensors",
        "model.safetensors.index.json",
        "consolidated.safetensors",
        "consolidated.safetensors.index.json",
    ];
    let mut i: usize = 0;
    while i < 4
        invariant
            i <= 4,
            known@.len() == 4,
            forall|k: int| 0 <= k < 4 ==> (#[trigger] known@[k])@ == weight_names()[k],
            weights_of(sights(disk@), dir@) == weights_from(sights(disk@), dir@, i as int),
        decreases 4 - i,
    {
        let p: String = join_path(dir, known[i]);
        match find_sight(disk, p.as_str()) {
            None => {
                return Weights::Look(p);
            },
            Some(f) => {
                if f.exists {
                    return Weights::Present;
                }
            },
        }
        i = i + 1;
    }
    match find_sight(disk, dir) {
        None => Weights::Look(dir.to_owned()),
        Some(f) => match &f.names {
            None => Weights::Absent,
            Some(names) => if has_shard(names) {
                Weights::Present
            } else {
                Weights::Absent
            },
        },
    }
}

/// How far the search of the snapshots has come: a path to look at, or the
/// newest snapshot with weights so far.
pub enum ScanView {
    Look(Seq<char>),
    Best(Option<(i128, Seq<char>)>),
}

/// The search after one more snapshot. Of two that were modified at the same
/// time the later one in the list wins.
pub open spec fn scan_step(
    disk: Seq<SightView>,
    root: Seq<char>,
    name: Seq<char>,
    best: Option<(i128, Seq<char>)>,
) -> ScanView {
    let p = path_join(root, name);
    match seen(disk, p) {
        None => ScanView::Look(p),
        Some(f) => if !f.is_dir {
            ScanView::Best(best)
        } else {
            match (weights_of(disk, p), f.modified, best) {
                (WeightsView::Look(q), _, _) => ScanView::Look(q),
                (WeightsView::Present, Some(t), Some(b)) => if t >= b.0 {
                    ScanView::Best(Some((t, p)))
                } else {
                    ScanView::Best(best)
                },
                (WeightsView::Present, Some(t), None) => ScanView::Best(Some((t, p))),
                _ => ScanView::Best(best),
            }
        },
    }
}

/// The search over the first `n` snapshots.
pub open spec fn scanned(
    disk: Seq<SightView>,
    root: Seq<char>,
    names: Seq<Seq<char>>,
    n: int,
) -> ScanView
    decreases n,
{
    if n <= 0 {
        ScanView::Best(None)
    } else {
        match scanned(disk, root, names, n - 1) {
            ScanView::Look(p) => ScanView::Look(p),
            ScanView::Best(best) => scan_step(disk, root, names[n - 1], best),
        }
    }
}

/// The newest snapshot with weights below `root`.
pub open spec fn newest_with_weights(disk: Seq<SightView>, root: Seq<char>) -> ScanView {
    match seen(disk, root) {
        None => ScanView::Look(root),
        Some(f) => match f.names {
            None => ScanView::Best(None),
            Some(names) => scanned(disk, root, names, names.len() as int),
        },
    }
}

/// How far the search of the snapshots has come.
pub enum Scan {
    Look(String),
    Best(Option<(i128, String)>),
}

impl View for Scan {
    type V = ScanView;

    open spec fn view(&self) -> ScanView {
        match self {
            Scan::Look(p) => ScanView::Look(p@),
            Scan::Best(b) => ScanView::Best(
                match b {
                    Some(x) => Some((x.0, x.1@)),
                    None => None,
                },
            ),
        }
    }
}

fn scan_snapshot(
    disk: &Vec<Sight>,
    root: &str,
    name: &str,
    best: Option<(i128, String)>,
) -> (r: Scan)
    ensures
        r@ == scan_step(
            sights(disk@),
            root@,
            name@,
            match best {
                Some(x) => Some((x.0, x.1@)),
                None => None,
            },
        ),
{
    let p: String = join_path(root, name);
    match find_sight(disk, p.as_str()) {
        None => Scan::Look(p),
        Some(f) => {
            if !f.is_dir {
                return Scan::Best(best);
            }
            match snapshot_has_weights(disk, p.as_str()) {
                Weights::Look(q) => Scan::Look(q),
                Weights::Absent => Scan::Best(best),
                Weights::Present => match f.modified {
                    None => Scan::Best(best),
                    Some(t) => match best {
                        None => Scan::Best(Some((t, p))),
                        Some(b) => if t >= b.0 {
                            Scan::Best(Some((t, p)))
                        } else {
                            Scan::Best(Some(b))
                        },
                    },
                },
            }
        },
    }
}

/// The newest snapshot below `root` that holds weights.
pub fn find_snapshot_with_weights(disk: &Vec<Sight>, root: &str) -> (r: Scan)
    ensures
        r@ == newest_with_weights(sights(disk@), root@),
{
    match find_sight(disk, root) {
        None => Scan::Look(root.to_owned()),
        Some(f) => match &f.names {
            None => Scan::Best(None),
            Some(names) => {
                let ghost all = text::texts(names@);
                let mut best: Scan = Scan::Best(None);
                let mut i: usize = 0;
                while i < names.len()
                    invariant
                        i <= names@.len(),
                        all == text::texts(names@),
                        best@ == scanned(sights(disk@), root@, all, i as int),
                    decreases names@.len() - i,
                {
                    assert(all[i as int] == names@[i as int]@);
                    best = match best {
                        Scan::Look(p) => Scan::Look(p),
                        Scan::Best(b) => scan_snapshot(disk, root, names[i].as_str(), b),
                    };
                    i = i + 1;
                }
                best
            },
        },
    }
}

// ── the active snapshot ──

/// The kind of thing that is resolved.
#[derive(Debug, Clone, Copy, PartialEq, Eq, Structural)]
pub enum Artifact {
    Model,
    Adapter,
}

/// The active snapshot of an entry of the cache, or what stands in its way.
pub enum ActiveView {
    Stopped(ResolutionView),
    Snapshot { snapshots: Seq<char>, hash: Seq<char>, dir: Seq<char> },
}

/// Nothing of that id is in the cache.
pub open spec fn not_in_cache(what: Artifact, id: Seq<char>, root: Seq<char>) -> Seq<char> {
    (match what {
        Artifact::Model => "Model '"@,
        Artifact::Adapter => "Adapter '"@,
    }) + id + "' not found in HF cache at "@ + root
        + ".\nDownload it first:\n  huggingface-cli download "@ + id
}

/// The entry names no active snapshot.
pub open spec fn no_revision(what: Artifact, id: Seq<char>, ref_path: Seq<char>) -> Seq<char> {
    (match what {
        Artifact::Model => "No default revision for '"@,
        Artifact::Adapter => "No default revision for adapter '"@,
    }) + id + "'. Expected refs/main at "@ + ref_path + (match what {
        Artifact::Model => ".\nThe model may not have been fully downloaded."@,
        Artifact::Adapter => ".\nThe adapter may not have been fully downloaded."@,
    })
}

/// The active snapshot does not exist.
pub open spec fn no_snapshot(dir: Seq<char>, hash: Seq<char>) -> Seq<char> {
    "Snapshot directory not found: "@ + dir + "\nrefs/main points to hash '"@ + hash
        + "' but that snapshot doesn't exist."@
}

/// The active snapshot of the entry `id` in the cache.
pub open spec fn active_snapshot(
    what: Artifact,
    id: Seq<char>,
    env: EnvView,
    disk: Seq<SightView>,
) -> ActiveView {
    match cache_root(env) {
        None => ActiveView::Stopped(
            ResolutionView::Failed("Cannot determine home directory: $HOME is not set"@),
        ),
        Some(root) => {
            let entry = path_join(root, cache_name(id));
            let ref_path = path_join(entry, "refs/main"@);
            match (seen(disk, entry), seen(disk, ref_path)) {
                (None, _) => ActiveView::Stopped(ResolutionView::Look(entry)),
                (Some(e), r) => if !e.is_dir {
                    ActiveView::Stopped(ResolutionView::Failed(not_in_cache(what, id, root)))
                } else {
                    match r {
                        None => ActiveView::Stopped(ResolutionView::Look(ref_path)),
                        Some(f) => match f.text {
                            None => ActiveView::Stopped(
                                ResolutionView::Failed(no_revision(what, id, ref_path)),
                            ),
                            Some(t) => {
                                let hash = text::trim(t);
                                let snapshots = path_join(entry, "snapshots"@);
                                let dir = path_join(snapshots, hash);
                                match seen(disk, dir) {
                                    None => ActiveView::Stopped(ResolutionView::Look(dir)),
                                    Some(d) => if d.is_dir {
                                        ActiveView::Snapshot { snapshots, hash, dir }
                                    } else {
                                        ActiveView::Stopped(
                                            ResolutionView::Failed(no_snapshot(dir, hash)),
                                        )
                                    },
                                }
                            },
                        },
                    }
                },
            }
        },
    }
}

/// The active snapshot of an entry of the cache, or what stands in its way.
pub enum Active {
    Stopped(Resolution),
    Snapshot { snapshots: String, hash: String, dir: String },
}

impl View for Active {
    type V = ActiveView;

    open spec fn view(&self) -> ActiveView {
        match self {
            Active::Stopped(r) => ActiveView::Stopped(r@),
            Active::Snapshot { snapshots, hash, dir } => ActiveView::Snapshot {
                snapshots: snapshots@,
                hash: hash@,
                dir: dir@,
            },
        }
    }
}

fn write_not_in_cache(what: Artifact, id: &str, root: &str) -> (m: String)
    ensures
        m@ == not_in_cache(what, id@, root@),
{
    let mut m: String = match what {
        Artifact::Model => "Model '".to_owned(),
        Artifact::Adapter => "Adapter '".to_owned(),
    };
    m.append(id);
    m.append("' not found in HF cache at ");
    m.append(root);
    m.append(".\nDownload it first:\n  huggingface-cli download ");
    m.append(id);
    m
}

fn write_no_revision(what: Artifact, id: &str, ref_path: &str) -> (m: String)
    ensures
        m@ == no_revision(what, id@, ref_path@),
{
    let mut m: String = match what {
        Artifact::Model => "No default revision for '".to_owned(),
        Artifact::Adapter => "No default revision for adapter '".to_owned(),
    };
    m.append(id);
    m.append("'. Expected refs/main at ");
    m.append(ref_path);
    match what {
        Artifact::Model => {
            m.append(".\nThe model may not have been fully downloaded.");
        },
        Artifact::Adapter => {
            m.append(".\nThe adapter may not have been fully downloaded.");
        },
    }
    m
}

fn write_no_snapshot(dir: &str, hash: &str) -> (m: String)
    ensures
        m@ == no_snapshot(dir@, hash@),
{
    let mut m: String = "Snapshot directory not found: ".to_owned();
    m.append(dir);
    m.append("\nrefs/main points to hash '");
    m.append(hash);
    m.append("' but that snapshot doesn't exist.");
    m
}

fn find_active_snapshot(what: Artifact, id: &str, env: &CacheEnv, disk: &Vec<Sight>) -> (r: Active)
    ensures
        r@ == active_snapshot(what, id@, env@, sights(disk@)),
{
    let root: String = match resolve_cache_root(env) {
        Some(root) => root,
        None => {
            return Active::Stopped(
                Resolution::Failed("Cannot determine home directory: $HOME is not set".to_owned()),
            );
        },
    };
    let name: String = write_cache_name(id);
    let entry: String = join_path(root.as_str(), name.as_str());
    match find_sight(disk, entry.as_str()) {
        None => {
            return Active::Stopped(Resolution::Look(entry));
        },
        Some(f) => {
            if !f.is_dir {
                let m: String = write_not_in_cache(what, id, root.as_str());
                return Active::Stopped(Resolution::Failed(m));
            }
        },
    }
    let ref_path: String = join_path(entry.as_str(), "refs/main");
    let hash: String = match find_sight(disk, ref_path.as_str()) {
        None => {
            return Active::Stopped(Resolution::Look(ref_path));
        },
        Some(f) => match &f.text {
            None => {
                let m: String = write_no_revision(what, id, ref_path.as_str());
                return Active::Stopped(Resolution::Failed(m));
            },
            Some(t) => {
                let c: Vec<char> = trimmed(&chars_of(t.as_str()));
                text_of(&c)
            },
        },
    };
    let snapshots: String = join_path(entry.as_str(), "snapshots");
    let dir: String = join_path(snapshots.as_str(), hash.as_str());
    match find_sight(disk, dir.as_str()) {
        None => Active::Stopped(Resolution::Look(dir)),
        Some(f) => {
            if f.is_dir {
                Active::Snapshot { snapshots, hash, dir }
            } else {
                let m: String = write_no_snapshot(dir.as_str(), hash.as_str());
                Active::Stopped(Resolution::Failed(m))
            }
        },
    }
}

// ── models ──

/// Whether `yes` exists below `dir`, or else `other` does.
pub open spec fn either_exists(
    disk: Seq<SightView>,
    dir: Seq<char>,
    yes: Seq<char>,
    other: Seq<char>,
) -> WeightsView {
    match (seen(disk, path_join(dir, yes)), seen(disk, path_join(dir, other))) {
        (None, _) => WeightsView::Look(path_join(dir, yes)),
        (Some(f), g) => if f.exists {
            WeightsView::Present
        } else {
            match g {
                None => WeightsView::Look(path_join(dir, other)),
                Some(h) => if h.exists {
                    WeightsView::Present
                } else {
                    WeightsView::Absent
                },
            }
        },
    }
}

/// The snapshot has no configuration.
pub open spec fn no_config(dir: Seq<char>) -> Seq<char> {
    "Model directory exists but is missing config.json or params.json: "@ + dir
        + "\nThe download may be incomplete."@
}

/// No snapshot has weights.
pub open spec fn no_weights(
    hash: Seq<char>,
    id: Seq<char>,
    dir: Seq<char>,
    snapshots: Seq<char>,
) -> Seq<char> {
    "Snapshot '"@ + hash + "' for "@ + id
        + " has no weight files (no model.safetensors / consolidated.safetensors / *.safetensors found in "@
        + dir + "). Sibling snapshots in "@ + snapshots
        + " also lack weights — refresh the cache:\n  huggingface-cli download "@ + id
        + " --revision main"@
}

/// The directory of a model in the cache: its active snapshot, or the newest
/// one with weights when the active one has none.
pub open spec fn cached_model(id: Seq<char>, env: EnvView, disk: Seq<SightView>) -> ResolutionView {
    match active_snapshot(Artifact::Model, id, env, disk) {
        ActiveView::Stopped(r) => r,
        ActiveView::Snapshot { snapshots, hash, dir } => match either_exists(
            disk,
            dir,
            "config.json"@,
            "params.json"@,
        ) {
            WeightsView::Look(p) => ResolutionView::Look(p),
            WeightsView::Absent => ResolutionView::Failed(no_config(dir)),
            WeightsView::Present => match weights_of(disk, dir) {
                WeightsView::Look(p) => ResolutionView::Look(p),
                WeightsView::Present => ResolutionView::Found(dir),
                WeightsView::Absent => match newest_with_weights(disk, snapshots) {
                    ScanView::Look(p) => ResolutionView::Look(p),
                    ScanView::Best(Some(b)) => ResolutionView::Found(b.1),
                    ScanView::Best(None) => ResolutionView::Failed(
                        no_weights(hash, id, dir, snapshots),
                    ),
                },
            },
        },
    }
}

/// The directory of a model: the specifier itself when it is a directory with a
/// configuration, else what the cache has.
pub open spec fn model_dir(model: Seq<char>, env: EnvView, disk: Seq<SightView>) -> ResolutionView {
    let config = path_join(model, "config.json"@);
    match (seen(disk, model), seen(disk, config)) {
        (None, _) => ResolutionView::Look(model),
        (Some(d), c) => if !d.is_dir {
            cached_model(model, env, disk)
        } else {
            match c {
                None => ResolutionView::Look(config),
                Some(f) => if f.exists {
                    ResolutionView::Found(model)
                } else {
                    cached_model(model, env, disk)
                },
            }
        },
    }
}

fn check_either(disk: &Vec<Sight>, dir: &str, yes: &str, other: &str) -> (w: Weights)
    ensures
        w@ == either_exists(sights(disk@), dir@, yes@, other@),
{
    let p: String = join_path(dir, yes);
    match find_sight(disk, p.as_str()) {
        None => {
            return Weights::Look(p);
        },
        Some(f) => {
            if f.exists {
                return Weights::Present;
            }
        },
    }
    let q: String = join_path(dir, other);
    match find_sight(disk, q.as_str()) {
        None => Weights::Look(q),
        Some(f) => if f.exists {
            Weights::Present
        } else {
            Weights::Absent
        },
    }
}

fn write_no_config(dir: &str) -> (m: String)
    ensures
        m@ == no_config(dir@),
{
    let mut m: String =
        "Model directory exists but is missing config.json or params.json: ".to_owned();
    m.append(dir);
    m.append("\nThe download may be incomplete.");
    m
}

fn write_no_weights(hash: &str, id: &str, dir: &str, snapshots: &str) -> (m: String)
    ensures
        m@ == no_weights(hash@, id@, dir@, snapshots@),
{
    let mut m: String = "Snapshot '".to_owned();
    m.append(hash);
    m.append("' for ");
    m.append(id);
    m.append(
        " has no weight files (no model.safetensors / consolidated.safetensors / *.safetensors found in ",
    );
    m.append(dir);
    m.append("). Sibling snapshots in ");
    m.append(snapshots);
    m.append(" also lack weights — refresh the cache:\n  huggingface-cli download ");
    m.append(id);
    m.append(" --revision main");
    m
}

fn resolve_from_hf_cache(id: &str, env: &CacheEnv, disk: &Vec<Sight>) -> (r: Resolution)
    ensures
        r@ == cached_model(id@, env@, sights(disk@)),
{
    match find_active_snapshot(Artifact::Model, id, env, disk) {
        Active::Stopped(r) => r,
        Active::Snapshot { snapshots, hash, dir } => {
            match check_either(disk, dir.as_str(), "config.json", "params.json") {
                Weights::Look(p) => {
                    return Resolution::Look(p);
                },
                Weights::Absent => {
                    return Resolution::Failed(write_no_config(dir.as_str()));
                },
                Weights::Present => {},
            }
            match snapshot_has_weights(disk, dir.as_str()) {
                Weights::Look(p) => Resolution::Look(p),
                Weights::Present => Resolution::Found(dir),
                Weights::Absent => match find_snapshot_with_weights(disk, snapshots.as_str()) {
                    Scan::Look(p) => Resolution::Look(p),
                    Scan::Best(Some(b)) => Resolution::Found(b.1),
                    Scan::Best(None) => Resolution::Failed(
                        write_no_weights(hash.as_str(), id, dir.as_str(), snapshots.as_str()),
                    ),
                },
            }
        },
    }
}

/// Resolves a model specifier to a directory, as far as what was seen on disk
/// allows.
pub fn resolve_model_dir(model: &str, env: &CacheEnv, disk: &Vec<Sight>) -> (r: Resolution)
    ensures
        r@ == model_dir(model@, env@, sights(disk@)),
{
    match find_sight(disk, model) {
        None => Resolution::Look(model.to_owned()),
        Some(d) => {
            if d.is_dir {
                let config: String = join_path(model, "config.json");
                match find_sight(disk, config.as_str()) {
                    None => {
                        return Resolution::Look(config);
                    },
                    Some(f) => {
                        if f.exists {
                            return Resolution::Found(model.to_owned());
                        }
                    },
                }
            }
            resolve_from_hf_cache(model, env, disk)
        },
    }
}

// ── adapters ──

/// The adapter's weights are a torch pickle.
pub open spec fn pickled(spec: Seq<char>) -> Seq<char> {
    "Adapter '"@ + spec
        + "' ships adapter_model.bin (torch pickle) — unsupported. Re-export with save_pretrained(..., safe_serialization=True)."@
}

/// The adapter directory, once its weights have been checked.
pub open spec fn checked_adapter(
    dir: Seq<char>,
    spec: Seq<char>,
    disk: Seq<SightView>,
) -> ResolutionView {
    let good = path_join(dir, "adapter_model.safetensors"@);
    let bad = path_join(dir, "adapter_model.bin"@);
    match (seen(disk, good), seen(disk, bad)) {
        (None, _) => ResolutionView::Look(good),
        (Some(f), b) => if f.exists {
            ResolutionView::Found(dir)
        } else {
            match b {
                None => ResolutionView::Look(bad),
                Some(g) => if g.exists {
                    ResolutionView::Failed(pickled(spec))
                } else {
                    ResolutionView::Failed(
                        "Adapter '"@ + spec + "' has no adapter_model.safetensors in "@ + dir,
                    )
                },
            }
        },
    }
}

/// The directory of an adapter: the specifier itself when it is a directory,
/// else the active snapshot of the cache.
pub open spec fn adapter_dir(spec: Seq<char>, env: EnvView, disk: Seq<SightView>) -> ResolutionView {
    match seen(disk, spec) {
        None => ResolutionView::Look(spec),
        Some(d) => if d.is_dir {
            let config = path_join(spec, "adapter_config.json"@);
            match seen(disk, config) {
                None => ResolutionView::Look(config),
                Some(f) => if f.exists {
                    checked_adapter(spec, spec, disk)
                } else {
                    ResolutionView::Failed(
                        "Adapter directory "@ + spec
                            + " has no adapter_config.json — not a PEFT adapter"@,
                    )
                },
            }
        } else {
            match active_snapshot(Artifact::Adapter, spec, env, disk) {
                ActiveView::Stopped(r) => r,
                ActiveView::Snapshot { snapshots, hash, dir } => {
                    let config = path_join(dir, "adapter_config.json"@);
                    match seen(disk, config) {
                        None => ResolutionView::Look(config),
                        Some(f) => if f.exists {
                            checked_adapter(dir, spec, disk)
                        } else {
                            ResolutionView::Failed(
                                "'"@ + spec + "' resolved to "@ + dir
                                    + " but it has no adapter_config.json — not a PEFT adapter repo"@,
                            )
                        },
                    }
                },
            }
        },
    }
}

fn validate_adapter_dir(dir: String, spec: &str, disk: &Vec<Sight>) -> (r: Resolution)
    ensures
        r@ == checked_adapter(dir@, spec@, sights(disk@)),
{
    let good: String = join_path(dir.as_str(), "adapter_model.safetensors");
    match find_sight(disk, good.as_str()) {
        None => {
            return Resolution::Look(good);
        },
        Some(f) => {
            if f.exists {
                return Resolution::Found(dir);
            }
        },
    }
    let bad: String = join_path(dir.as_str(), "adapter_model.bin");
    match find_sight(disk, bad.as_str()) {
        None => Resolution::Look(bad),
        Some(f) => {
            let mut m: String = "Adapter '".to_owned();
            m.append(spec);
            if f.exists {
                m.append(
                    "' ships adapter_model.bin (torch pickle) — unsupported. Re-export with save_pretrained(..., safe_serialization=True).",
                );
            } else {
                m.append("' has no adapter_model.safetensors in ");
                m.append(dir.as_str());
            }
            Resolution::Failed(m)
        },
    }
}

/// Resolves an adapter specifier to a directory, as far as what was seen on
/// disk allows.
pub fn resolve_adapter_dir(spec: &str, env: &CacheEnv, disk: &Vec<Sight>) -> (r: Resolution)
    ensures
        r@ == adapter_dir(spec@, env@, sights(disk@)),
{
    match find_sight(disk, spec) {
        None => {
            return Resolution::Look(spec.to_owned());
        },
        Some(d) => {
            if d.is_dir {
                let config: String = join_path(spec, "adapter_config.json");
                return match find_sight(disk, config.as_str()) {
                    None => Resolution::Look(config),
                    Some(f) => {
                        if f.exists {
                            validate_adapter_dir(spec.to_owned(), spec, disk)
                        } else {
                            let mut m: String = "Adapter directory ".to_owned();
                            m.append(spec);
                            m.append(" has no adapter_config.json — not a PEFT adapter");
                            Resolution::Failed(m)
                        }
                    },
                };
            }
        },
    }
    match find_active_snapshot(Artifact::Adapter, spec, env, disk) {
        Active::Stopped(r) => r,
        Active::Snapshot { snapshots, hash, dir } => {
            let config: String = join_path(dir.as_str(), "adapter_config.json");
            match find_sight(disk, config.as_str()) {
                None => Resolution::Look(config),
                Some(f) => {
                    if f.exists {
                        validate_adapter_dir(dir, spec, disk)
                    } else {
                        let mut m: String = "'".to_owned();
                        m.append(spec);
                        m.append("' resolved to ");
                        m.append(dir.as_str());
                        m.append(" but it has no adapter_config.json — not a PEFT adapter repo");
                        Resolution::Failed(m)
                    }
                },
            }
        },
    }
}

// ── laws ──

proof fn lemma_seen_grows(disk: Seq<SightView>, extra: Seq<SightView>, path: Seq<char>, i: int)
    requires
        0 <= i <= disk.len(),
    ensures
        seen_from(disk, path, i) is Some ==> seen_from(disk + extra, path, i) == seen_from(
            disk,
            path,
            i,
        ),
    decreases disk.len() - i,
{
    if i < disk.len() {
        assert((disk + extra)[i] == disk[i]);
        lemma_seen_grows(disk, extra, path, i + 1);
    }
}

proof fn lemma_weights(disk: Seq<SightView>, extra: Seq<SightView>, dir: Seq<char>, i: int)
    requires
        0 <= i <= weight_names().len(),
    ensures
        weights_from(disk, dir, i) matches WeightsView::Look(p) ==> seen(disk, p) is None,
        weights_from(disk, dir, i) !is Look ==> weights_from(disk + extra, dir, i)
            == weights_from(disk, dir, i),
    decreases weight_names().len() - i,
{
    if i < weight_names().len() {
        lemma_seen_grows(disk, extra, path_join(dir, weight_names()[i]), 0);
        lemma_weights(disk, extra, dir, i + 1);
    } else {
        lemma_seen_grows(disk, extra, dir, 0);
    }
}

proof fn lemma_scanned(
    disk: Seq<SightView>,
    extra: Seq<SightView>,
    root: Seq<char>,
    names: Seq<Seq<char>>,
    n: int,
)
    requires
        0 <= n <= names.len(),
    ensures
        scanned(disk, root, names, n) matches ScanView::Look(p) ==> seen(disk, p) is None,
        scanned(disk, root, names, n) !is Look ==> scanned(disk + extra, root, names, n)
            == scanned(disk, root, names, n),
        scanned(disk, root, names, n) matches ScanView::Best(Some(b)) ==> weights_of(disk, b.1)
            == WeightsView::Present,
    decreases n,
{
    if n > 0 {
        lemma_scanned(disk, extra, root, names, n - 1);
        let p = path_join(root, names[n - 1]);
        lemma_seen_grows(disk, extra, p, 0);
        lemma_weights(disk, extra, p, 0);
    }
}

proof fn lemma_newest(disk: Seq<SightView>, extra: Seq<SightView>, root: Seq<char>)
    ensures
        newest_with_weights(disk, root) matches ScanView::Look(p) ==> seen(disk, p) is None,
        newest_with_weights(disk, root) !is Look ==> newest_with_weights(disk + extra, root)
            == newest_with_weights(disk, root),
        newest_with_weights(disk, root) matches ScanView::Best(Some(b)) ==> weights_of(disk, b.1)
            == WeightsView::Present,
{
    lemma_seen_grows(disk, extra, root, 0);
    if let Some(f) = seen(disk, root) {
        if let Some(names) = f.names {
            lemma_scanned(disk, extra, root, names, names.len() as int);
        }
    }
}

proof fn lemma_active(
    what: Artifact,
    id: Seq<char>,
    env: EnvView,
    disk: Seq<SightView>,
    extra: Seq<SightView>,
)
    ensures
        active_snapshot(what, id, env, disk) matches ActiveView::Stopped(ResolutionView::Look(p))
            ==> seen(disk, p) is None,
        active_snapshot(what, id, env, disk) !is Stopped || active_snapshot(
            what,
            id,
            env,
            disk,
        )->Stopped_0 !is Look ==> active_snapshot(what, id, env, disk + extra) == active_snapshot(
            what,
            id,
            env,
            disk,
        ),
        active_snapshot(what, id, env, disk) matches ActiveView::Stopped(r) ==> r !is Found,
{
    if let Some(root) = cache_root(env) {
        let entry = path_join(root, cache_name(id));
        let ref_path = path_join(entry, "refs/main"@);
        lemma_seen_grows(disk, extra, entry, 0);
        lemma_seen_grows(disk, extra, ref_path, 0);
        if let Some(f) = seen(disk, ref_path) {
            if let Some(t) = f.text {
                let dir = path_join(path_join(entry, "snapshots"@), text::trim(t));
                lemma_seen_grows(disk, extra, dir, 0);
            }
        }
    }
}

proof fn lemma_cached(id: Seq<char>, env: EnvView, disk: Seq<SightView>, extra: Seq<SightView>)
    ensures
        cached_model(id, env, disk) matches ResolutionView::Look(p) ==> seen(disk, p) is None,
        cached_model(id, env, disk) !is Look ==> cached_model(id, env, disk + extra)
            == cached_model(id, env, disk),
        cached_model(id, env, disk) matches ResolutionView::Found(p) ==> weights_of(disk, p)
            == WeightsView::Present,
{
    lemma_active(Artifact::Model, id, env, disk, extra);
    if let ActiveView::Snapshot { snapshots, hash, dir } = active_snapshot(
        Artifact::Model,
        id,
        env,
        disk,
    ) {
        lemma_seen_grows(disk, extra, path_join(dir, "config.json"@), 0);
        lemma_seen_grows(disk, extra, path_join(dir, "params.json"@), 0);
        lemma_weights(disk, extra, dir, 0);
        lemma_newest(disk, extra, snapshots);
    }
}

/// The resolver asks only for a path that nobody has looked at: every question
/// that is answered brings it further.
pub proof fn resolver_asks_nothing_twice(model: Seq<char>, env: EnvView, disk: Seq<SightView>)
    ensures
        model_dir(model, env, disk) matches ResolutionView::Look(p) ==> seen(disk, p) is None,
        adapter_dir(model, env, disk) matches ResolutionView::Look(p) ==> seen(disk, p) is None,
{
    lemma_cached(model, env, disk, Seq::empty());
    lemma_active(Artifact::Adapter, model, env, disk, Seq::empty());
}

/// An answer is final: what is seen later does not change it.
pub proof fn answers_are_final(
    model: Seq<char>,
    env: EnvView,
    disk: Seq<SightView>,
    extra: Seq<SightView>,
)
    ensures
        model_dir(model, env, disk) !is Look ==> model_dir(model, env, disk + extra) == model_dir(
            model,
            env,
            disk,
        ),
        adapter_dir(model, env, disk) !is Look ==> adapter_dir(model, env, disk + extra)
            == adapter_dir(model, env, disk),
{
    lemma_cached(model, env, disk, extra);
    lemma_active(Artifact::Adapter, model, env, disk, extra);
    lemma_seen_grows(disk, extra, model, 0);
    lemma_seen_grows(disk, extra, path_join(model, "config.json"@), 0);
    lemma_seen_grows(disk, extra, path_join(model, "adapter_config.json"@), 0);
    lemma_checked_adapter(model, model, disk, extra);
    if let ActiveView::Snapshot { snapshots, hash, dir } = active_snapshot(
        Artifact::Adapter,
        model,
        env,
        disk,
    ) {
        lemma_seen_grows(disk, extra, path_join(dir, "adapter_config.json"@), 0);
        lemma_checked_adapter(dir, model, disk, extra);
    }
}

proof fn lemma_checked_adapter(
    dir: Seq<char>,
    spec: Seq<char>,
    disk: Seq<SightView>,
    extra: Seq<SightView>,
)
    ensures
        checked_adapter(dir, spec, disk) !is Look ==> checked_adapter(dir, spec, disk + extra)
            == checked_adapter(dir, spec, disk),
{
    lemma_seen_grows(disk, extra, path_join(dir, "adapter_model.safetensors"@), 0);
    lemma_seen_grows(disk, extra, path_join(dir, "adapter_model.bin"@), 0);
}

/// A model that is found can be loaded: it is the local directory that was
/// named, with its configuration, or a snapshot with weights.
pub proof fn found_model_is_usable(model: Seq<char>, env: EnvView, disk: Seq<SightView>)
    ensures
        model_dir(model, env, disk) matches ResolutionView::Found(p) ==> {
            ||| p == model && (seen(disk, path_join(model, "config.json"@)) matches Some(f)
                && f.exists)
            ||| weights_of(disk, p) == WeightsView::Present
        },
{
    lemma_cached(model, env, disk, Seq::empty());
}

/// When a snapshot was modified, for one that is a directory with weights.
pub open spec fn usable_since(disk: Seq<SightView>, root: Seq<char>, name: Seq<char>) -> Option<
    i128,
> {
    let p = path_join(root, name);
    match seen(disk, p) {
        Some(f) => if f.is_dir && weights_of(disk, p) is Present {
            f.modified
        } else {
            None
        },
        None => None,
    }
}

/// The search of the snapshots `names` came to the newest that is usable.
pub open spec fn is_newest(
    disk: Seq<SightView>,
    root: Seq<char>,
    names: Seq<Seq<char>>,
    n: int,
    best: Option<(i128, Seq<char>)>,
) -> bool {
    &&& forall|k: int|
        0 <= k < n ==> (usable_since(disk, root, #[trigger] names[k]) matches Some(t) ==> best is Some
            && t <= (best->0).0)
    &&& best matches Some(b) ==> exists|k: int|
        0 <= k < n && usable_since(disk, root, #[trigger] names[k]) == Some(b.0) && b.1
            == path_join(root, names[k])
}

proof fn lemma_scan_is_newest(
    disk: Seq<SightView>,
    root: Seq<char>,
    names: Seq<Seq<char>>,
    n: int,
)
    requires
        0 <= n <= names.len(),
    ensures
        scanned(disk, root, names, n) matches ScanView::Best(best) ==> is_newest(
            disk,
            root,
            names,
            n,
            best,
        ),
    decreases n,
{
    if n > 0 {
        lemma_scan_is_newest(disk, root, names, n - 1);
        if let ScanView::Best(best) = scanned(disk, root, names, n) {
            let before = scanned(disk, root, names, n - 1)->Best_0;
            if best == before && best is Some {
                let k = choose|k: int|
                    0 <= k < n - 1 && usable_since(disk, root, #[trigger] names[k]) == Some(
                        (best->0).0,
                    ) && (best->0).1 == path_join(root, names[k]);
                assert(usable_since(disk, root, names[k]) == Some((best->0).0));
            } else if best is Some {
                assert(usable_since(disk, root, names[n - 1]) == Some((best->0).0));
            }
        }
    }
}

/// The snapshot that the search names is a usable one of the list and was
/// modified no earlier than any other; it names none only when none is usable.
pub proof fn found_snapshot_is_the_newest(disk: Seq<SightView>, root: Seq<char>)
    ensures
        seen(disk, root) matches Some(f) ==> (f.names matches Some(names) ==> (newest_with_weights(
            disk,
            root,
        ) matches ScanView::Best(best) ==> is_newest(
            disk,
            root,
            names,
            names.len() as int,
            best,
        ))),
{
    if let Some(f) = seen(disk, root) {
        if let Some(names) = f.names {
            lemma_scan_is_newest(disk, root, names, names.len() as int);
        }
    }
}

/// The file was seen and exists.
pub open spec fn is_there(disk: Seq<SightView>, path: Seq<char>) -> bool {
    seen(disk, path) matches Some(f) && f.exists
}

/// The path was seen and is no directory, or nothing.
pub open spec fn is_no_dir(disk: Seq<SightView>, path: Seq<char>) -> bool {
    seen(disk, path) matches Some(f) && !f.is_dir
}

/// The path was seen and is a directory.
pub open spec fn is_dir_there(disk: Seq<SightView>, path: Seq<char>) -> bool {
    seen(disk, path) matches Some(f) && f.is_dir
}

/// The directory holds weights: one of the known files, or a shard by its name.
/// All of it was seen.
pub open spec fn holds_weights(disk: Seq<SightView>, dir: Seq<char>) -> bool {
    ||| is_there(disk, path_join(dir, "model.safetensors"@))
    ||| is_there(disk, path_join(dir, "model.safetensors.index.json"@))
    ||| is_there(disk, path_join(dir, "consolidated.safetensors"@))
    ||| is_there(disk, path_join(dir, "consolidated.safetensors.index.json"@))
    ||| seen(disk, dir) matches Some(f) && (f.names matches Some(names) && exists|i: int|
        0 <= i < names.len() && ends_with(#[trigger] names[i], ".safetensors"@))
}

/// Everything that tells whether a directory holds weights was seen.
pub open spec fn weights_seen(disk: Seq<SightView>, dir: Seq<char>) -> bool {
    &&& seen(disk, dir) is Some
    &&& seen(disk, path_join(dir, "model.safetensors"@)) is Some
    &&& seen(disk, path_join(dir, "model.safetensors.index.json"@)) is Some
    &&& seen(disk, path_join(dir, "consolidated.safetensors"@)) is Some
    &&& seen(disk, path_join(dir, "consolidated.safetensors.index.json"@)) is Some
}

/// A directory that was seen whole has weights exactly when one of the known
/// files is there or its listing names a shard.
pub proof fn weights_are_recognised(disk: Seq<SightView>, dir: Seq<char>)
    requires
        weights_seen(disk, dir),
    ensures
        weights_of(disk, dir) is Present <==> holds_weights(disk, dir),
        weights_of(disk, dir) is Absent <==> !holds_weights(disk, dir),
{
    reveal_with_fuel(weights_from, 6);
    let names = weight_names();
    assert(names[0] == "model.safetensors"@);
    assert(names[1] == "model.safetensors.index.json"@);
    assert(names[2] == "consolidated.safetensors"@);
    assert(names[3] == "consolidated.safetensors.index.json"@);
    let f = seen(disk, dir)->0;
    if let Some(listed) = f.names {
        if lists_shard(listed) {
            let i = choose|i: int| 0 <= i < listed.len() && is_shard(#[trigger] listed[i]);
            assert(ends_with(listed[i], ".safetensors"@));
        }
        if exists|i: int| 0 <= i < listed.len() && ends_with(#[trigger] listed[i], ".safetensors"@) {
            let i = choose|i: int|
                0 <= i < listed.len() && ends_with(#[trigger] listed[i], ".safetensors"@);
            assert(is_shard(listed[i]));
        }
    }
}

/// The root of the cache is the first that is given of: the command line, the
/// two variables of the hub, and the place below the home directory.
pub proof fn cache_roots_go_by_rank(env: EnvView)
    ensures
        env.cache_dir matches Some(d) ==> cache_root(env) == Some(d),
        env.cache_dir is None ==> (env.hf_hub_cache matches Some(d) ==> cache_root(env) == Some(d)),
        env.cache_dir is None && env.hf_hub_cache is None ==> (env.hf_home matches Some(d)
            ==> cache_root(env) == Some(path_join(d, "hub"@))),
        env.cache_dir is None && env.hf_hub_cache is None && env.hf_home is None ==> (
        env.home matches Some(d) ==> cache_root(env) == Some(
            path_join(d, ".cache/huggingface/hub"@),
        )),
        env.cache_dir is None && env.hf_hub_cache is None && env.hf_home is None && env.home is None
            ==> cache_root(env) is None,
{
}

/// The name of an entry of the cache: a name without slashes is kept, and parts
/// that a slash joins are joined by two hyphens.
pub proof fn cache_names_join_by_hyphens(a: Seq<char>, b: Seq<char>)
    ensures
        hyphenated(a + seq!['/'] + b) == hyphenated(a) + "--"@ + hyphenated(b),
        !a.contains('/') ==> hyphenated(a) == a,
{
    lemma_hyphens_add(a + seq!['/'], b);
    lemma_hyphens_add(a, seq!['/']);
    assert(seq!['/'].drop_last() =~= Seq::<char>::empty());
    assert(hyphenated(seq!['/'].drop_last()) =~= Seq::<char>::empty());
    assert(hyphenated(seq!['/']) =~= "--"@);
    if !a.contains('/') {
        lemma_no_hyphens(a);
    }
}

proof fn lemma_hyphens_add(a: Seq<char>, b: Seq<char>)
    ensures
        hyphenated(a + b) == hyphenated(a) + hyphenated(b),
    decreases b.len(),
{
    if b.len() == 0 {
        assert(a + b =~= a);
        assert(hyphenated(a) + hyphenated(b) =~= hyphenated(a));
    } else {
        assert((a + b).drop_last() =~= a + b.drop_last());
        assert((a + b).last() == b.last());
        lemma_hyphens_add(a, b.drop_last());
        assert(hyphenated(a + b) =~= hyphenated(a) + hyphenated(b));
    }
}

proof fn lemma_no_hyphens(a: Seq<char>)
    requires
        !a.contains('/'),
    ensures
        hyphenated(a) == a,
    decreases a.len(),
{
    if a.len() > 0 {
        let most = a.drop_last();
        assert(!most.contains('/')) by {
            if most.contains('/') {
                let k = choose|k: int| 0 <= k < most.len() && most[k] == '/';
                assert(a[k] == '/');
            }
        }
        lemma_no_hyphens(most);
        assert(a[a.len() - 1] != '/');
        assert(hyphenated(a) =~= a);
    }
}

/// A local model is found where it was named: a directory with a configuration
/// is the answer, whatever the cache holds.
pub proof fn local_models_are_found(model: Seq<char>, env: EnvView, disk: Seq<SightView>)
    requires
        is_dir_there(disk, model),
        is_there(disk, path_join(model, "config.json"@)),
    ensures
        model_dir(model, env, disk) == ResolutionView::Found(model),
{
}

/// The snapshot that an entry of the cache has active, below `root`.
pub open spec fn active_dir(root: Seq<char>, id: Seq<char>, hash: Seq<char>) -> Seq<char> {
    path_join(path_join(path_join(root, cache_name(id)), "snapshots"@), hash)
}

/// The cache at `root` holds the entry, and its main revision is `hash`.
pub open spec fn main_revision(
    disk: Seq<SightView>,
    root: Seq<char>,
    id: Seq<char>,
    hash: Seq<char>,
) -> bool {
    let entry = path_join(root, cache_name(id));
    &&& is_dir_there(disk, entry)
    &&& seen(disk, path_join(entry, "refs/main"@)) matches Some(f) && (f.text matches Some(t)
        && text::trim(t) == hash)
    &&& is_dir_there(disk, active_dir(root, id, hash))
}

/// A model in the cache is found at its main revision when that has a
/// configuration and weights; without weights the newest snapshot that has some
/// takes its place, and without any, or without configuration, it fails.
pub proof fn cached_models_are_found(
    model: Seq<char>,
    env: EnvView,
    disk: Seq<SightView>,
    root: Seq<char>,
    hash: Seq<char>,
)
    requires
        is_no_dir(disk, model),
        cache_root(env) == Some(root),
        main_revision(disk, root, model, hash),
        weights_seen(disk, active_dir(root, model, hash)),
        seen(disk, path_join(active_dir(root, model, hash), "config.json"@)) is Some,
        seen(disk, path_join(active_dir(root, model, hash), "params.json"@)) is Some,
    ensures
        ({
            let dir = active_dir(root, model, hash);
            let snapshots = path_join(path_join(root, cache_name(model)), "snapshots"@);
            let configured = is_there(disk, path_join(dir, "config.json"@)) || is_there(
                disk,
                path_join(dir, "params.json"@),
            );
            &&& configured && holds_weights(disk, dir) ==> model_dir(model, env, disk)
                == ResolutionView::Found(dir)
            &&& configured && !holds_weights(disk, dir) ==> {
                &&& newest_with_weights(disk, snapshots) matches ScanView::Best(Some(b))
                    ==> model_dir(model, env, disk) == ResolutionView::Found(b.1)
                &&& newest_with_weights(disk, snapshots) == ScanView::Best(None) ==> model_dir(
                    model,
                    env,
                    disk,
                ) is Failed
            }
            &&& !configured ==> model_dir(model, env, disk) is Failed
        }),
{
    weights_are_recognised(disk, active_dir(root, model, hash));
}

/// A model that neither is a local directory nor has an entry in the cache is
/// refused, and so is any without a cache.
pub proof fn unknown_models_are_refused(
    model: Seq<char>,
    env: EnvView,
    disk: Seq<SightView>,
    root: Seq<char>,
)
    requires
        is_no_dir(disk, model),
    ensures
        cache_root(env) is None ==> model_dir(model, env, disk) is Failed && adapter_dir(
            model,
            env,
            disk,
        ) is Failed,
        cache_root(env) == Some(root) && is_no_dir(disk, path_join(root, cache_name(model))) ==> {
            &&& model_dir(model, env, disk) is Failed
            &&& adapter_dir(model, env, disk) is Failed
        },
{
}

/// An adapter directory with its configuration and safe weights is found where
/// it was named; one with pickled weights or none is refused.
pub proof fn local_adapters_are_checked(spec: Seq<char>, env: EnvView, disk: Seq<SightView>)
    requires
        is_dir_there(disk, spec),
        seen(disk, path_join(spec, "adapter_config.json"@)) is Some,
        seen(disk, path_join(spec, "adapter_model.safetensors"@)) is Some,
        seen(disk, path_join(spec, "adapter_model.bin"@)) is Some,
    ensures
        adapter_dir(spec, env, disk) == ResolutionView::Found(spec) <==> is_there(
            disk,
            path_join(spec, "adapter_config.json"@),
        ) && is_there(disk, path_join(spec, "adapter_model.safetensors"@)),
        adapter_dir(spec, env, disk) is Failed <==> !(is_there(
            disk,
            path_join(spec, "adapter_config.json"@),
        ) && is_there(disk, path_join(spec, "adapter_model.safetensors"@))),
{
}

/// An adapter in the cache is found at its main revision, checked like a local
/// one.
pub proof fn cached_adapters_are_found(
    spec: Seq<char>,
    env: EnvView,
    disk: Seq<SightView>,
    root: Seq<char>,
    hash: Seq<char>,
)
    requires
        is_no_dir(disk, spec),
        cache_root(env) == Some(root),
        main_revision(disk, root, spec, hash),
        is_there(disk, path_join(active_dir(root, spec, hash), "adapter_config.json"@)),
        is_there(disk, path_join(active_dir(root, spec, hash), "adapter_model.safetensors"@)),
    ensures
        adapter_dir(spec, env, disk) == ResolutionView::Found(active_dir(root, spec, hash)),
{
}

/// An adapter that is found can be loaded: its configuration and its weights are
/// there.
pub proof fn found_adapter_is_usable(spec: Seq<char>, env: EnvView, disk: Seq<SightView>)
    ensures
        adapter_dir(spec, env, disk) matches ResolutionView::Found(p) ==> is_there(
            disk,
            path_join(p, "adapter_config.json"@),
        ) && is_there(disk, path_join(p, "adapter_model.safetensors"@)),
{
}

} // verus!
