//! Workspaces and the registry that owns them.

use vstd::prelude::*;
use crate::path::{
    components, file_name, join_strings, path_components, path_file_name, path_starts_with,
    relative_to, starts_with,
};
use crate::text::{lower_hex, push_char, push_radix, push_text, same_text, view_prefix, view_prefix_string};

verus! {

/// What hashing a path with the standard library's default hasher gives.
pub uninterp spec fn path_hash(p: Seq<char>) -> u64;

/// Relies on `BuildHasher::hash_one` with the standard library's
/// `DefaultHasher` built by `default()` over `Hash for Path`: every hasher
/// built that way starts from the same keys, so the number depends on the
/// path alone.
#[verifier::external_body]
fn hash_path(p: &str) -> (r: u64)
    ensures
        r == path_hash(p@),
{
    std::hash::BuildHasher::hash_one(
        &std::hash::BuildHasherDefault::<std::collections::hash_map::DefaultHasher>::default(),
        std::path::Path::new(p),
    )
}

pub open spec fn default_workspace_name() -> Seq<char> {
    seq!['w', 'o', 'r', 'k', 's', 'p', 'a', 'c', 'e']
}

/// The display name of a workspace: the last component of its root.
pub open spec fn workspace_name_of(root: Seq<char>) -> Seq<char> {
    match file_name(root) {
        Some(n) => n,
        None => default_workspace_name(),
    }
}

/// The id of the workspace rooted at `root`: its name, a dash, and the low
/// sixteen bits of the path's hash in lower-case hex.
pub open spec fn workspace_id_of(root: Seq<char>) -> Seq<char> {
    workspace_name_of(root) + seq!['-'] + lower_hex((path_hash(root) % 65536) as nat)
}

pub fn workspace_name(root: &str) -> (r: String)
    ensures
        r@ == workspace_name_of(root@),
{
    match path_file_name(root) {
        Some(n) => n,
        None => {
            let d = "workspace";
            proof {
                reveal_strlit("workspace");
            }
            let r = String::from_str(d);
            assert(r@ =~= default_workspace_name());
            r
        },
    }
}

/// The id of the workspace rooted at `root` when its path hashes to `hash`.
pub fn workspace_id_with_hash(root: &str, hash: u64) -> (r: String)
    ensures
        r@ == workspace_name_of(root@) + seq!['-'] + lower_hex((hash % 65536) as nat),
{
    let mut out = workspace_name(root);
    push_char(&mut out, '-');
    let low = hash & 0xFFFF;
    assert(low == hash % 65536) by (bit_vector)
        requires
            low == hash & 0xFFFF,
    ;
    push_radix(&mut out, low, 16);
    out
}

pub fn generate_workspace_id(root: &str) -> (r: String)
    ensures
        r@ == workspace_id_of(root@),
{
    let h = hash_path(root);
    workspace_id_with_hash(root, h)
}

/// Why a workspace operation was refused.
#[derive(Clone, Copy, Debug, PartialEq, Eq, Structural)]
pub enum SyncError {
    /// The path could not be canonicalized or is not a directory.
    InvalidPath,
    /// Unknown workspace, or a path outside its root or missing.
    NotFound,
    /// The active file lies under no registered workspace.
    NotInAnyWorkspace,
}

/// What callers learn of a workspace.
#[derive(Clone, Debug)]
pub struct WorkspaceDescriptor {
    pub id: String,
    pub name: String,
    pub root_dir: String,
}

/// The mathematical form of a workspace's identity.
pub struct WorkspaceInfo {
    pub id: Seq<char>,
    pub name: Seq<char>,
    pub root_dir: Seq<char>,
}

impl View for WorkspaceDescriptor {
    type V = WorkspaceInfo;

    open spec fn view(&self) -> WorkspaceInfo {
        WorkspaceInfo { id: self.id@, name: self.name@, root_dir: self.root_dir@ }
    }
}

/// A registered workspace and the handle of its change watcher, which it owns.
pub struct Workspace<H> {
    pub id: String,
    pub root_dir: String,
    pub name: String,
    pub watch_handle: H,
}

impl<H> Workspace<H> {
    pub open spec fn info(&self) -> WorkspaceInfo {
        WorkspaceInfo { id: self.id@, name: self.name@, root_dir: self.root_dir@ }
    }
}

/// The entry that registering `root` creates.
pub open spec fn entry_for(root: Seq<char>) -> WorkspaceInfo {
    WorkspaceInfo { id: workspace_id_of(root), name: workspace_name_of(root), root_dir: root }
}

pub open spec fn has_id(s: Seq<WorkspaceInfo>, id: Seq<char>) -> bool {
    exists|i: int| 0 <= i < s.len() && #[trigger] s[i].id == id
}

/// Ids are unique, and each id and name is the one derived from the root.
pub open spec fn registry_wf(s: Seq<WorkspaceInfo>) -> bool {
    &&& forall|i: int, j: int| 0 <= i < s.len() && 0 <= j < s.len() && i != j ==> #[trigger] s[i].id != #[trigger] s[j].id
    &&& forall|i: int| 0 <= i < s.len() ==> #[trigger] s[i] == entry_for(s[i].root_dir)
}

/// The registry after registering `root`: unchanged when its id is present.
pub open spec fn registered(s: Seq<WorkspaceInfo>, root: Seq<char>) -> Seq<WorkspaceInfo> {
    if has_id(s, workspace_id_of(root)) {
        s
    } else {
        s.push(entry_for(root))
    }
}

/// Whether the workspace at `i` has a root that holds `p` and no deeper such
/// root exists; among equally deep ones the earliest registered wins.
pub open spec fn is_best_root(s: Seq<WorkspaceInfo>, p: Seq<char>, i: int) -> bool {
    &&& 0 <= i < s.len()
    &&& starts_with(p, s[i].root_dir)
    &&& forall|j: int|
        0 <= j < s.len() && #[trigger] starts_with(p, s[j].root_dir) ==> {
            &&& components(s[j].root_dir).len() <= components(s[i].root_dir).len()
            &&& j < i ==> components(s[j].root_dir).len() < components(s[i].root_dir).len()
        }
}

/// The viewer URL of a file of a workspace.
pub open spec fn file_url(id: Seq<char>, rel: Seq<char>) -> Seq<char> {
    view_prefix() + id + seq!['/'] + rel
}

/// The outcome of registering a directory.
pub struct Registration {
    pub descriptor: WorkspaceDescriptor,
    /// Whether a change watcher was started for it.
    pub started: bool,
}

/// Where an active file was found.
#[derive(Clone, Debug)]
pub struct ActiveFile {
    pub workspace_id: String,
    pub file_path: String,
    pub url: String,
}

/// The live workspaces, in order of registration. `H` is the handle by which
/// a workspace's change watcher is stopped.
pub struct WorkspaceRegistry<H> {
    workspaces: Vec<Workspace<H>>,
}

impl<H> View for WorkspaceRegistry<H> {
    type V = Seq<WorkspaceInfo>;

    closed spec fn view(&self) -> Seq<WorkspaceInfo> {
        self.workspaces@.map_values(|w: Workspace<H>| w.info())
    }
}

impl<H> WorkspaceRegistry<H> {
    /// The watcher handles, in the order of `view`.
    pub closed spec fn handles(&self) -> Seq<H> {
        self.workspaces@.map_values(|w: Workspace<H>| w.watch_handle)
    }

    pub open spec fn wf(&self) -> bool {
        registry_wf(self@) && self.handles().len() == self@.len()
    }

    pub fn new() -> (r: Self)
        ensures
            r.wf(),
            r@ == Seq::<WorkspaceInfo>::empty(),
    {
        let r = WorkspaceRegistry { workspaces: Vec::new() };
        assert(r@ =~= Seq::<WorkspaceInfo>::empty());
        r
    }

    pub fn len(&self) -> (r: usize)
        ensures
            r == self@.len(),
    {
        self.workspaces.len()
    }

    fn index_of(&self, id: &str) -> (r: Option<usize>)
        ensures
            r.is_none() <==> !has_id(self@, id@),
            r.is_some() ==> r.unwrap() < self@.len() && self@[r.unwrap() as int].id == id@,
    {
        let mut i: usize = 0;
        while i < self.workspaces.len()
            invariant
                i <= self.workspaces.len(),
                forall|j: int| 0 <= j < i ==> self@[j].id != id@,
            decreases self.workspaces.len() - i,
        {
            assert(self@[i as int] == self.workspaces@[i as int].info());
            if same_text(self.workspaces[i].id.as_str(), id) {
                assert(self@[i as int].id == id@);
                assert(has_id(self@, id@));
                return Some(i);
            }
            i = i + 1;
        }
        None
    }

    fn descriptor_at(&self, i: usize) -> (r: WorkspaceDescriptor)
        requires
            i < self@.len(),
        ensures
            r@ == self@[i as int],
    {
        let w = &self.workspaces[i];
        WorkspaceDescriptor { id: w.id.clone(), name: w.name.clone(), root_dir: w.root_dir.clone() }
    }

    /// Registers the directory whose canonical form is `canonical_root`
    /// (`None` when it could not be canonicalized). A root whose id is already
    /// present gives back the existing workspace and starts nothing; otherwise
    /// `start_watcher` is called once with the new id and root, and its handle
    /// is kept with the new workspace.
    pub fn register<F: FnOnce(String, String) -> H>(
        &mut self,
        canonical_root: Option<String>,
        is_dir: bool,
        start_watcher: F,
    ) -> (r: Result<Registration, SyncError>)
        requires
            old(self).wf(),
            forall|id: String, root: String| call_requires(start_watcher, (id, root)),
        ensures
            final(self).wf(),
            match r {
                Err(e) => {
                    &&& e == SyncError::InvalidPath
                    &&& canonical_root.is_none() || !is_dir
                    &&& final(self)@ == old(self)@
                    &&& final(self).handles() == old(self).handles()
                },
                Ok(reg) => {
                    let root = canonical_root.unwrap()@;
                    let id = workspace_id_of(root);
                    &&& canonical_root.is_some() && is_dir
                    &&& final(self)@ == registered(old(self)@, root)
                    &&& reg.started == !has_id(old(self)@, id)
                    &&& reg.descriptor.id@ == id
                    &&& reg.started ==> reg.descriptor@ == entry_for(root)
                    &&& reg.started ==> exists|h: H, a: String, b: String|
                        a@ == id && b@ == root && call_ensures(start_watcher, (a, b), h)
                            && final(self).handles() == old(self).handles().push(h)
                    &&& !reg.started ==> final(self).handles() == old(self).handles()
                    &&& !reg.started ==> exists|i: int|
                        0 <= i < old(self)@.len() && old(self)@[i] == reg.descriptor@
                },
            },
    {
        let root = match canonical_root {
            Some(root) => root,
            None => return Err(SyncError::InvalidPath),
        };
        if !is_dir {
            return Err(SyncError::InvalidPath);
        }
        let id = generate_workspace_id(root.as_str());
        match self.index_of(id.as_str()) {
            Some(i) => {
                let descriptor = self.descriptor_at(i);
                Ok(Registration { descriptor, started: false })
            },
            None => {
                let name = workspace_name(root.as_str());
                let handle = start_watcher(id.clone(), root.clone());
                let descriptor = WorkspaceDescriptor {
                    id: id.clone(),
                    name: name.clone(),
                    root_dir: root.clone(),
                };
                let ghost old_ws = self.workspaces@;
                self.workspaces.push(Workspace { id, root_dir: root, name, watch_handle: handle });
                proof {
                    assert(self@ =~= old(self)@.push(entry_for(root@)));
                    assert(self.handles() =~= old(self).handles().push(handle));
                    let s = self@;
                    assert forall|a: int, b: int|
                        0 <= a < s.len() && 0 <= b < s.len() && a != b implies #[trigger] s[a].id
                        != #[trigger] s[b].id by {
                        if a == s.len() - 1 {
                            assert(s[b] == old(self)@[b]);
                        } else if b == s.len() - 1 {
                            assert(s[a] == old(self)@[a]);
                        }
                    }
                    assert forall|a: int| 0 <= a < s.len() implies #[trigger] s[a] == entry_for(
                        s[a].root_dir,
                    ) by {
                        if a < s.len() - 1 {
                            assert(s[a] == old(self)@[a]);
                        }
                    }
                }
                Ok(Registration { descriptor, started: true })
            },
        }
    }

    /// Removes the workspace with this id and hands back its watcher handle,
    /// which the caller signals to stop. An unknown id changes nothing.
    pub fn unregister(&mut self, id: &str) -> (r: Option<Workspace<H>>)
        requires
            old(self).wf(),
        ensures
            final(self).wf(),
            !has_id(final(self)@, id@),
            r.is_none() <==> !has_id(old(self)@, id@),
            r.is_none() ==> final(self)@ == old(self)@ && final(self).handles() == old(self).handles(),
            r.is_some() ==> exists|i: int|
                0 <= i < old(self)@.len() && old(self)@[i].id == id@ && r.unwrap().info() == old(self)@[i]
                    && r.unwrap().watch_handle == old(self).handles()[i] && final(self)@ == old(
                    self,
                )@.remove(i) && final(self).handles() == old(self).handles().remove(i),
    {
        match self.index_of(id) {
            None => None,
            Some(i) => {
                let w = self.workspaces.remove(i);
                proof {
                    assert(self@ =~= old(self)@.remove(i as int));
                    assert(self.handles() =~= old(self).handles().remove(i as int));
                    let s = self@;
                    let o = old(self)@;
                    assert forall|k: int| 0 <= k < s.len() implies #[trigger] s[k].id != id@ by {
                        if k < i {
                            assert(s[k] == o[k]);
                        } else {
                            assert(s[k] == o[k + 1]);
                        }
                    }
                    assert forall|a: int, b: int|
                        0 <= a < s.len() && 0 <= b < s.len() && a != b implies #[trigger] s[a].id
                        != #[trigger] s[b].id by {
                        let oa = if a < i { a } else { a + 1 };
                        let ob = if b < i { b } else { b + 1 };
                        assert(s[a] == o[oa]);
                        assert(s[b] == o[ob]);
                    }
                    assert forall|a: int| 0 <= a < s.len() implies #[trigger] s[a] == entry_for(
                        s[a].root_dir,
                    ) by {
                        let oa = if a < i { a } else { a + 1 };
                        assert(s[a] == o[oa]);
                    }
                }
                Some(w)
            },
        }
    }

    /// The workspace with this id, if registered.
    pub fn lookup(&self, id: &str) -> (r: Option<WorkspaceDescriptor>)
        ensures
            r.is_none() <==> !has_id(self@, id@),
            r.is_some() ==> r.unwrap()@.id == id@ && exists|i: int|
                0 <= i < self@.len() && self@[i] == r.unwrap()@,
    {
        match self.index_of(id) {
            None => None,
            Some(i) => Some(self.descriptor_at(i)),
        }
    }

    /// A snapshot of the registry, in order of registration.
    pub fn list(&self) -> (r: Vec<WorkspaceDescriptor>)
        ensures
            r@.len() == self@.len(),
            forall|i: int| 0 <= i < r@.len() ==> #[trigger] r@[i]@ == self@[i],
    {
        let mut out: Vec<WorkspaceDescriptor> = Vec::new();
        let mut i: usize = 0;
        while i < self.workspaces.len()
            invariant
                i <= self.workspaces.len(),
                out@.len() == i,
                forall|j: int| 0 <= j < i ==> #[trigger] out@[j]@ == self@[j],
            decreases self.workspaces.len() - i,
        {
            let d = self.descriptor_at(i);
            out.push(d);
            i = i + 1;
        }
        out
    }

    /// Finds the workspace holding `canonical_path`, the canonical form of a
    /// file that an editor reports: the deepest root that holds it, the
    /// earliest registered among equally deep ones.
    pub fn resolve_active(&self, canonical_path: &str) -> (r: Result<ActiveFile, SyncError>)
        ensures
            match r {
                Ok(a) => exists|i: int|
                    #[trigger] is_best_root(self@, canonical_path@, i) && a.workspace_id@ == self@[i].id
                        && a.file_path@ == relative_to(canonical_path@, self@[i].root_dir)
                        && a.url@ == file_url(a.workspace_id@, a.file_path@),
                Err(e) => e == SyncError::NotInAnyWorkspace && forall|i: int|
                    0 <= i < self@.len() ==> !#[trigger] starts_with(canonical_path@, self@[i].root_dir),
            },
    {
        let p = canonical_path;
        let mut best: Option<usize> = None;
        let mut best_depth: usize = 0;
        let mut i: usize = 0;
        while i < self.workspaces.len()
            invariant
                i <= self.workspaces.len(),
                best.is_none() ==> forall|j: int|
                    0 <= j < i ==> !#[trigger] starts_with(p@, self@[j].root_dir),
                best.is_some() ==> {
                    let b = best.unwrap() as int;
                    &&& b < i
                    &&& starts_with(p@, self@[b].root_dir)
                    &&& best_depth == components(self@[b].root_dir).len()
                    &&& forall|j: int|
                        0 <= j < i && #[trigger] starts_with(p@, self@[j].root_dir) ==> {
                            &&& components(self@[j].root_dir).len() <= best_depth
                            &&& j < b ==> components(self@[j].root_dir).len() < best_depth
                        }
                },
            decreases self.workspaces.len() - i,
        {
            let root = self.workspaces[i].root_dir.as_str();
            assert(root@ == self@[i as int].root_dir);
            if path_starts_with(p, root) {
                let d = path_components(root).len();
                if best.is_none() || d > best_depth {
                    best = Some(i);
                    best_depth = d;
                }
            }
            i = i + 1;
        }
        match best {
            None => Err(SyncError::NotInAnyWorkspace),
            Some(b) => {
                let w = &self.workspaces[b];
                assert(w.info() == self@[b as int]);
                let cs = path_components(p);
                let rel = join_strings(&cs, best_depth);
                let mut url = view_prefix_string();
                push_text(&mut url, w.id.as_str());
                push_char(&mut url, '/');
                push_text(&mut url, rel.as_str());
                let a = ActiveFile { workspace_id: w.id.clone(), file_path: rel, url };
                assert(a.url@ =~= file_url(a.workspace_id@, a.file_path@));
                assert(is_best_root(self@, canonical_path@, b as int));
                Ok(a)
            },
        }
    }
}

/// Registering the same root twice is idempotent: the first call leaves
/// exactly one workspace with the root's id, and the second finds it, so it
/// starts no watcher and changes nothing.
pub proof fn lemma_register_idempotent(s: Seq<WorkspaceInfo>, root: Seq<char>)
    requires
        registry_wf(s),
    ensures
        has_id(registered(s, root), workspace_id_of(root)),
        registered(registered(s, root), root) == registered(s, root),
        forall|i: int, j: int|
            0 <= i < registered(s, root).len() && 0 <= j < registered(s, root).len()
                && #[trigger] registered(s, root)[i].id == workspace_id_of(root)
                && #[trigger] registered(s, root)[j].id == workspace_id_of(root) ==> i == j,
{
    let s1 = registered(s, root);
    let id = workspace_id_of(root);
    if !has_id(s, id) {
        assert(s1[s.len() as int].id == id);
        assert forall|i: int, j: int|
            0 <= i < s1.len() && 0 <= j < s1.len() && #[trigger] s1[i].id == id && #[trigger] s1[j].id
                == id implies i == j by {
            if i < s.len() {
                assert(s1[i] == s[i]);
            }
            if j < s.len() {
                assert(s1[j] == s[j]);
            }
        }
    }
}

} // verus!
