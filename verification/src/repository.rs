//! What the storage layer reports about a repository, as plain values, and
//! the decisions that are taken on them.

use vstd::prelude::*;

use crate::text::str_eq;

verus! {

/// Supported backend types.
#[derive(Debug, Clone, Copy, PartialEq, Eq, Structural)]
pub enum BackendType {
    /// Native backend
    Native,
    /// Git backend
    Git,
}

/// Repository information.
#[derive(Debug, Clone)]
pub struct RepoInfo {
    pub name: String,
    pub owner: String,
    pub path: String,
    pub backend_type: BackendType,
}

/// Repository storage configuration.
#[derive(Debug, Clone)]
pub struct StorageConfig {
    /// Root directory for all repositories
    pub repos_root: String,
}

impl Default for StorageConfig {
    fn default() -> (config: Self)
        ensures
            config.repos_root@ == "/var/forjj/repos"@,
    {
        StorageConfig { repos_root: "/var/forjj/repos".to_owned() }
    }
}

/// Kind of tree entry.
#[derive(Debug, Clone, Copy, PartialEq, Eq, Structural)]
pub enum TreeEntryKind {
    /// Regular file
    File,
    /// Subdirectory
    Tree,
    /// Conflicted entry
    Conflict,
}

/// Entry in a tree.
#[derive(Debug, Clone)]
pub struct TreeEntry {
    /// The path of the entry relative to the tree root.
    pub path: String,
    /// The kind of entry.
    pub kind: TreeEntryKind,
}

/// `text` without its leading and trailing whitespace, as `str::trim`
/// defines it.
pub uninterp spec fn trimmed(text: Seq<char>) -> Seq<char>;

/// The lowercase form of `text`, as `str::to_lowercase` defines it.
pub uninterp spec fn lowercased(text: Seq<char>) -> Seq<char>;

/// `str::trim`: the text without leading and trailing Unicode whitespace.
#[verifier::external_body]
fn trim(text: &str) -> (r: &str)
    ensures
        r@ == trimmed(text@),
{
    text.trim()
}

/// `str::to_lowercase`: the Unicode lowercase form of the text.
#[verifier::external_body]
fn to_lowercase(text: &str) -> (r: String)
    ensures
        r@ == lowercased(text@),
{
    text.to_lowercase()
}

impl BackendType {
    /// The name under which the store records the backend.
    pub open spec fn name(self) -> Seq<char> {
        match self {
            BackendType::Native => "simple"@,
            BackendType::Git => "git"@,
        }
    }

    /// The backend that the store type `name` stands for: `simple` is the
    /// native backend, and everything else is taken for git.
    pub open spec fn named(name: Seq<char>) -> BackendType {
        if name == "simple"@ {
            BackendType::Native
        } else {
            BackendType::Git
        }
    }

    /// The backend that the store type `name` names, if it names one.
    pub open spec fn known(name: Seq<char>) -> Option<BackendType> {
        if name == "simple"@ {
            Some(BackendType::Native)
        } else if name == "git"@ {
            Some(BackendType::Git)
        } else {
            None
        }
    }

    /// The backend that the content of a store's type file stands for. The
    /// content is read without surrounding whitespace and without regard to
    /// case; a store without a type file is taken for git.
    pub open spec fn detected(content: Option<Seq<char>>) -> BackendType {
        match content {
            Some(text) => Self::named(lowercased(trimmed(text))),
            None => BackendType::Git,
        }
    }

    /// The name under which the store records the backend.
    pub fn as_str(&self) -> (name: &'static str)
        ensures
            name@ == self.name(),
    {
        match self {
            BackendType::Native => "simple",
            BackendType::Git => "git",
        }
    }

    /// The backend that the store type `name` stands for.
    pub fn from_name(name: &str) -> (backend: BackendType)
        ensures
            backend == Self::named(name@),
    {
        if str_eq(name, "simple") {
            BackendType::Native
        } else {
            BackendType::Git
        }
    }

    /// The backend that the store type `name` names, if it names one.
    pub fn recognize(name: &str) -> (backend: Option<BackendType>)
        ensures
            backend == Self::known(name@),
    {
        if str_eq(name, "simple") {
            Some(BackendType::Native)
        } else if str_eq(name, "git") {
            Some(BackendType::Git)
        } else {
            None
        }
    }

    /// The backend that the content of a store's type file names, if it
    /// names one. The content is read without surrounding whitespace and
    /// without regard to case.
    pub fn detect_known(content: &str) -> (backend: Option<BackendType>)
        ensures
            backend == Self::known(lowercased(trimmed(content@))),
    {
        let lower = to_lowercase(trim(content));
        Self::recognize(lower.as_str())
    }

    /// A store type that names a backend stands for that backend, and every
    /// other one for git.
    pub proof fn lemma_named_is_known_or_git(name: Seq<char>)
        ensures
            Self::named(name) == match Self::known(name) {
                Some(backend) => backend,
                None => BackendType::Git,
            },
    {
    }

    /// The backend that the content of a store's type file stands for, where
    /// `None` says that the store has no type file.
    pub fn detect(content: Option<&str>) -> (backend: BackendType)
        ensures
            backend == Self::detected(
                match content {
                    Some(text) => Some(text@),
                    None => None,
                },
            ),
    {
        match content {
            Some(text) => {
                let lower = to_lowercase(trim(text));
                Self::from_name(lower.as_str())
            },
            None => BackendType::Git,
        }
    }

    /// Each backend is read back from its own name.
    pub proof fn lemma_name_round_trip(self)
        ensures
            Self::named(self.name()) == self,
    {
        reveal_strlit("simple");
        reveal_strlit("git");
        assert("simple"@.len() == 6);
        assert("git"@.len() == 3);
    }
}

/// What the store says of the value at one path of a tree.
#[derive(Debug, Clone, Copy)]
pub struct TreeValue {
    /// Whether the value is a subdirectory.
    pub is_tree: bool,
    /// Whether the value is free of conflicts.
    pub is_resolved: bool,
}

/// One path of a tree with its value, which is absent where the store could
/// not read it.
#[derive(Debug)]
pub struct TreeItem {
    pub path: String,
    pub value: Option<TreeValue>,
}

impl TreeEntryKind {
    /// The kind of entry that a value makes: a subdirectory is a tree, any
    /// other resolved value counts as a file, and the rest is a conflict.
    pub open spec fn kind_of(value: TreeValue) -> TreeEntryKind {
        if value.is_tree {
            TreeEntryKind::Tree
        } else if value.is_resolved {
            TreeEntryKind::File
        } else {
            TreeEntryKind::Conflict
        }
    }

    /// The kind of entry that a value makes.
    pub fn classify(value: TreeValue) -> (kind: TreeEntryKind)
        ensures
            kind == Self::kind_of(value),
    {
        if value.is_tree {
            TreeEntryKind::Tree
        } else if value.is_resolved {
            TreeEntryKind::File
        } else {
            TreeEntryKind::Conflict
        }
    }
}

/// The paths and kinds of the readable items among the first `upto` of
/// `items`, in order.
pub open spec fn entries_of(items: Seq<TreeItem>, upto: nat) -> Seq<(Seq<char>, TreeEntryKind)>
    decreases upto,
{
    if upto == 0 {
        Seq::empty()
    } else {
        let earlier = entries_of(items, (upto - 1) as nat);
        match items[upto - 1].value {
            Some(value) => earlier.push((items[upto - 1].path@, TreeEntryKind::kind_of(value))),
            None => earlier,
        }
    }
}

/// The paths and kinds of `entries`, in order.
pub open spec fn entry_views(entries: Seq<TreeEntry>) -> Seq<(Seq<char>, TreeEntryKind)> {
    entries.map_values(|e: TreeEntry| (e.path@, e.kind))
}

/// List the entries of a tree. Items that could not be read are skipped.
pub fn list_tree_entries(items: &Vec<TreeItem>) -> (entries: Vec<TreeEntry>)
    ensures
        entry_views(entries@) == entries_of(items@, items@.len()),
{
    let mut entries: Vec<TreeEntry> = Vec::new();
    let mut i: usize = 0;
    while i < items.len()
        invariant
            i <= items.len(),
            entry_views(entries@) == entries_of(items@, i as nat),
        decreases items.len() - i,
    {
        match items[i].value {
            Some(value) => {
                let ghost before = entries@;
                let entry = TreeEntry {
                    path: items[i].path.clone(),
                    kind: TreeEntryKind::classify(value),
                };
                entries.push(entry);
                assert(entry_views(entries@) =~= entry_views(before).push(
                    (items@[i as int].path@, TreeEntryKind::kind_of(value)),
                ));
            },
            None => {},
        }
        i += 1;
    }
    entries
}

/// A head commit as the store reports it. The parents are absent where the
/// commit could not be read.
#[derive(Debug)]
pub struct HeadCommit {
    pub id: Vec<u8>,
    pub parent_ids: Option<Vec<Vec<u8>>>,
}

/// Whether `head` is what a fresh repository has for a head: the root commit
/// itself, or a commit whose only parent is the root.
pub open spec fn is_fresh_head(root_id: Seq<u8>, head: HeadCommit) -> bool {
    head.id@ == root_id || (head.parent_ids matches Some(parents) && parents@.len() == 1
        && parents@[0]@ == root_id)
}

/// Whether `a` and `b` hold the same bytes.
pub fn bytes_eq(a: &Vec<u8>, b: &Vec<u8>) -> (same: bool)
    ensures
        same == (a@ == b@),
{
    if a.len() != b.len() {
        return false;
    }
    let mut i: usize = 0;
    while i < a.len()
        invariant
            i <= a.len(),
            a@.len() == b@.len(),
            forall|k: int| 0 <= k < i ==> a@[k] == b@[k],
        decreases a.len() - i,
    {
        if a[i] != b[i] {
            return false;
        }
        i += 1;
    }
    assert(a@ =~= b@);
    true
}

/// A copy of `bytes`.
pub fn copy_bytes(bytes: &Vec<u8>) -> (copy: Vec<u8>)
    ensures
        copy@ == bytes@,
{
    let mut copy: Vec<u8> = Vec::with_capacity(bytes.len());
    let mut i: usize = 0;
    while i < bytes.len()
        invariant
            i <= bytes.len(),
            copy@ == bytes@.subrange(0, i as int),
        decreases bytes.len() - i,
    {
        copy.push(bytes[i]);
        assert(bytes@.subrange(0, i + 1) =~= bytes@.subrange(0, i as int).push(bytes@[i as int]));
        i += 1;
    }
    assert(bytes@.subrange(0, bytes@.len() as int) =~= bytes@);
    copy
}

/// Check if this is a fresh repository with no user commits: every head is
/// the root commit or a commit whose only parent is the root. A head that
/// could not be read is not fresh.
pub fn is_fresh(root_id: &Vec<u8>, heads: &Vec<HeadCommit>) -> (fresh: bool)
    ensures
        fresh == forall|i: int| 0 <= i < heads@.len() ==> is_fresh_head(root_id@, #[trigger] heads@[i]),
{
    let mut i: usize = 0;
    while i < heads.len()
        invariant
            i <= heads.len(),
            forall|k: int| 0 <= k < i ==> is_fresh_head(root_id@, #[trigger] heads@[k]),
        decreases heads.len() - i,
    {
        let head = &heads[i];
        let fresh = if bytes_eq(&head.id, root_id) {
            true
        } else {
            match &head.parent_ids {
                Some(parents) => parents.len() == 1 && bytes_eq(&parents[0], root_id),
                None => false,
            }
        };
        if !fresh {
            assert(!is_fresh_head(root_id@, heads@[i as int]));
            return false;
        }
        i += 1;
    }
    true
}

/// A bookmark as the store reports it. The target is absent where the
/// bookmark does not point at exactly one commit.
#[derive(Debug)]
pub struct BookmarkTarget {
    pub name: String,
    pub target: Option<Vec<u8>>,
}

/// A bookmark and the commit it stands for.
#[derive(Debug)]
pub struct Bookmark {
    pub name: String,
    pub commit_id: Vec<u8>,
}

/// The commit that a bookmark stands for: its target, or the root commit
/// where it has none.
pub open spec fn bookmark_commit(root_id: Seq<u8>, bookmark: BookmarkTarget) -> Seq<u8> {
    match bookmark.target {
        Some(id) => id@,
        None => root_id,
    }
}

/// Get all bookmarks with the commits they stand for.
pub fn bookmarks(root_id: &Vec<u8>, targets: &Vec<BookmarkTarget>) -> (list: Vec<Bookmark>)
    ensures
        list@.len() == targets@.len(),
        forall|i: int|
            0 <= i < targets@.len() ==> (#[trigger] list@[i]).name@ == targets@[i].name@
                && list@[i].commit_id@ == bookmark_commit(root_id@, targets@[i]),
{
    let mut list: Vec<Bookmark> = Vec::new();
    let mut i: usize = 0;
    while i < targets.len()
        invariant
            i <= targets.len(),
            list@.len() == i,
            forall|k: int|
                0 <= k < i ==> (#[trigger] list@[k]).name@ == targets@[k].name@
                    && list@[k].commit_id@ == bookmark_commit(root_id@, targets@[k]),
        decreases targets.len() - i,
    {
        let commit_id = match &targets[i].target {
            Some(id) => copy_bytes(id),
            None => copy_bytes(root_id),
        };
        list.push(Bookmark { name: targets[i].name.clone(), commit_id });
        i += 1;
    }
    list
}

/// The identifiers of `heads`, in order.
pub open spec fn head_ids(heads: Seq<HeadCommit>) -> Seq<Seq<u8>> {
    heads.map_values(|head: HeadCommit| head.id@)
}

/// The byte strings of `list`, in order.
pub open spec fn byte_views(list: Seq<Vec<u8>>) -> Seq<Seq<u8>> {
    list.map_values(|bytes: Vec<u8>| bytes@)
}

/// What was read of an opened repository: the values that the store
/// reported, on which the questions about the repository are answered.
pub struct Repository {
    info: RepoInfo,
    root_id: Vec<u8>,
    heads: Vec<HeadCommit>,
    bookmark_targets: Vec<BookmarkTarget>,
    operation_id: Vec<u8>,
    operation_heads: Vec<Vec<u8>>,
}

impl Repository {
    /// The repository information.
    pub closed spec fn info_spec(self) -> RepoInfo {
        self.info
    }

    /// The identifier of the root commit.
    pub closed spec fn root(self) -> Seq<u8> {
        self.root_id@
    }

    /// The visible heads.
    pub closed spec fn head_commits(self) -> Seq<HeadCommit> {
        self.heads@
    }

    /// The bookmarks as the store reported them.
    pub closed spec fn targets(self) -> Seq<BookmarkTarget> {
        self.bookmark_targets@
    }

    /// The identifier of the current operation.
    pub closed spec fn operation(self) -> Seq<u8> {
        self.operation_id@
    }

    /// The identifiers of the operation heads.
    pub closed spec fn op_heads(self) -> Seq<Vec<u8>> {
        self.operation_heads@
    }

    /// Put together what was read of a repository.
    pub fn new(
        info: RepoInfo,
        root_id: Vec<u8>,
        heads: Vec<HeadCommit>,
        bookmark_targets: Vec<BookmarkTarget>,
        operation_id: Vec<u8>,
        operation_heads: Vec<Vec<u8>>,
    ) -> (repository: Self)
        ensures
            repository.info_spec() == info,
            repository.root() == root_id@,
            repository.head_commits() == heads@,
            repository.targets() == bookmark_targets@,
            repository.operation() == operation_id@,
            repository.op_heads() == operation_heads@,
    {
        Repository { info, root_id, heads, bookmark_targets, operation_id, operation_heads }
    }

    /// Get the repository information.
    pub fn info(&self) -> (info: &RepoInfo)
        ensures
            *info == self.info_spec(),
    {
        &self.info
    }

    /// Get the identifier of the root commit.
    pub fn root_id(&self) -> (id: &Vec<u8>)
        ensures
            id@ == self.root(),
    {
        &self.root_id
    }

    /// Get all visible heads.
    pub fn heads(&self) -> (ids: Vec<Vec<u8>>)
        ensures
            byte_views(ids@) == head_ids(self.head_commits()),
    {
        let mut ids: Vec<Vec<u8>> = Vec::new();
        let mut i: usize = 0;
        while i < self.heads.len()
            invariant
                i <= self.heads.len(),
                ids@.len() == i,
                forall|k: int| 0 <= k < i ==> (#[trigger] ids@[k])@ == self.heads@[k].id@,
            decreases self.heads.len() - i,
        {
            ids.push(copy_bytes(&self.heads[i].id));
            i += 1;
        }
        assert(byte_views(ids@) =~= head_ids(self.heads@));
        ids
    }

    /// Get all bookmarks with the commits they stand for.
    pub fn bookmarks(&self) -> (list: Vec<Bookmark>)
        ensures
            list@.len() == self.targets().len(),
            forall|i: int|
                0 <= i < self.targets().len() ==> (#[trigger] list@[i]).name@ == self.targets()[i].name@
                    && list@[i].commit_id@ == bookmark_commit(self.root(), self.targets()[i]),
    {
        bookmarks(&self.root_id, &self.bookmark_targets)
    }

    /// Get the current operation ID.
    pub fn operation_id(&self) -> (id: &Vec<u8>)
        ensures
            id@ == self.operation(),
    {
        &self.operation_id
    }

    /// Get all operation heads.
    pub fn operation_heads(&self) -> (heads: &Vec<Vec<u8>>)
        ensures
            heads@ == self.op_heads(),
    {
        &self.operation_heads
    }

    /// List all entries in a tree. Items that could not be read are skipped.
    pub fn list_tree_entries(&self, tree: &Vec<TreeItem>) -> (entries: Vec<TreeEntry>)
        ensures
            entry_views(entries@) == entries_of(tree@, tree@.len()),
    {
        list_tree_entries(tree)
    }

    /// Check if this is a fresh repository with no user commits.
    pub fn is_fresh(&self) -> (fresh: bool)
        ensures
            fresh == forall|i: int|
                0 <= i < self.head_commits().len() ==> is_fresh_head(
                    self.root(),
                    #[trigger] self.head_commits()[i],
                ),
    {
        let fresh = is_fresh(&self.root_id, &self.heads);
        proof {
            let heads = self.head_commits();
            if fresh {
                assert forall|i: int| 0 <= i < heads.len() implies is_fresh_head(
                    self.root(),
                    #[trigger] heads[i],
                ) by {
                    assert(is_fresh_head(self.root_id@, self.heads@[i]));
                }
            } else {
                let i = choose|i: int|
                    0 <= i < self.heads@.len() && !is_fresh_head(
                        self.root_id@,
                        #[trigger] self.heads@[i],
                    );
                assert(!is_fresh_head(self.root(), heads[i]));
            }
        }
        fresh
    }
}

} // verus!
