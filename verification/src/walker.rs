//! The scanned tree, and the rules that decide what is scanned.

use vstd::prelude::*;

use crate::paths::{name_of, shown_name};
use crate::stamp::LocalTime;
use crate::text::{
    chars_of, has_prefix, same_text, starts_with, starts_with_char, starts_with_text, texts,
    trim_end_char, without_trailing,
};

verus! {

/// A file or a directory.
#[derive(Debug)]
pub struct Node {
    pub path: String,
    pub name: String,
    pub size: u64,
    pub is_dir: bool,
    pub modified: Option<LocalTime>,
    /// Unix permission bits.
    pub mode: Option<u32>,
    pub children: Vec<Node>,
}

/// What a node says of itself, without its children.
#[verifier::ext_equal]
pub struct NodeHead {
    pub path: Seq<char>,
    pub name: Seq<char>,
    pub size: u64,
    pub is_dir: bool,
    pub modified: Option<LocalTime>,
    pub mode: Option<u32>,
}

/// What a node says of itself.
pub open spec fn head(n: Node) -> NodeHead {
    NodeHead {
        path: n.path@,
        name: n.name@,
        size: n.size,
        is_dir: n.is_dir,
        modified: n.modified,
        mode: n.mode,
    }
}

/// What each node of a list says of itself.
pub open spec fn heads(s: Seq<Node>) -> Seq<NodeHead> {
    s.map_values(|n: Node| head(n))
}

/// The head of a node that is named after its path.
pub open spec fn new_head(
    path: Seq<char>,
    is_dir: bool,
    size: u64,
    modified: Option<LocalTime>,
    mode: Option<u32>,
) -> NodeHead {
    NodeHead { path, name: shown_name(path), size, is_dir, modified, mode }
}

/// The number of files in a tree.
pub open spec fn file_total(n: Node) -> nat
    decreases n,
{
    if n.is_dir {
        files_in(n.children@)
    } else {
        1
    }
}

/// The number of files in a list of trees.
pub open spec fn files_in(s: Seq<Node>) -> nat
    decreases s,
{
    if s.len() == 0 {
        0
    } else {
        files_in(s.drop_last()) + file_total(s.last())
    }
}

/// The number of directories in a tree, its root counted.
pub open spec fn dir_total(n: Node) -> nat
    decreases n,
{
    if n.is_dir {
        1 + dirs_in(n.children@)
    } else {
        0
    }
}

/// The number of directories in a list of trees.
pub open spec fn dirs_in(s: Seq<Node>) -> nat
    decreases s,
{
    if s.len() == 0 {
        0
    } else {
        dirs_in(s.drop_last()) + dir_total(s.last())
    }
}

/// The files of a tree, in the order of the tree.
pub open spec fn files_of(n: Node) -> Seq<Node>
    decreases n,
{
    if n.is_dir {
        files_among(n.children@)
    } else {
        seq![n]
    }
}

/// The files of a list of trees, in order.
pub open spec fn files_among(s: Seq<Node>) -> Seq<Node>
    decreases s,
{
    if s.len() == 0 {
        Seq::empty()
    } else {
        files_among(s.drop_last()) + files_of(s.last())
    }
}

/// The sum of the sizes of a list of nodes.
pub open spec fn total_size(s: Seq<Node>) -> nat
    decreases s.len(),
{
    if s.len() == 0 {
        0
    } else {
        total_size(s.drop_last()) + s.last().size as nat
    }
}

/// Every directory whose children are known is as large as they are together.
pub open spec fn sizes_add_up(n: Node) -> bool
    decreases n,
{
    &&& n.children@.len() > 0 ==> n.size == total_size(n.children@)
    &&& all_add_up(n.children@)
}

/// [`sizes_add_up`] holds of every tree of a list.
pub open spec fn all_add_up(s: Seq<Node>) -> bool
    decreases s,
{
    s.len() > 0 ==> all_add_up(s.drop_last()) && sizes_add_up(s.last())
}

/// The permission bits that deserve attention: writable by everyone, or
/// running as its owner or group.
pub open spec fn unusual_bits(m: u32) -> bool {
    m & 0o002 != 0 || m & 0o4000 != 0 || m & 0o2000 != 0
}

impl Node {
    /// The counts of files and directories are machine numbers.
    pub open spec fn countable(self) -> bool {
        file_total(self) <= usize::MAX && dir_total(self) <= usize::MAX
    }

    fn new(
        path: String,
        is_dir: bool,
        size: u64,
        modified: Option<LocalTime>,
        mode: Option<u32>,
    ) -> (r: Node)
        ensures
            head(r) == new_head(path@, is_dir, size, modified, mode),
            r.children@.len() == 0,
    {
        let name = name_of(&path);
        Node { path, name, size, is_dir, modified, mode, children: Vec::new() }
    }

    /// Whether the node carries permission bits that deserve attention.
    pub fn has_unusual_perms(&self) -> (r: bool)
        ensures
            r == (self.mode is Some && unusual_bits(self.mode->0)),
    {
        match self.mode {
            Some(m) => m & 0o002 != 0 || m & 0o4000 != 0 || m & 0o2000 != 0,
            None => false,
        }
    }

    /// The empty directory that stands in for one that is still being scanned.
    pub fn placeholder(path: String) -> (r: Node)
        ensures
            head(r) == new_head(path@, true, 0, None, None),
            r.children@.len() == 0,
    {
        Node::new(path, true, 0, None, None)
    }

    /// The number of files below.
    pub fn file_count(&self) -> (r: usize)
        requires
            file_total(*self) <= usize::MAX,
        ensures
            r == file_total(*self),
        decreases *self,
    {
        if !self.is_dir {
            return 1;
        }
        let mut sum: usize = 0;
        let mut i: usize = 0;
        assert(self.children@.take(0) =~= Seq::<Node>::empty());
        while i < self.children.len()
            invariant
                i <= self.children@.len(),
                sum == files_in(self.children@.take(i as int)),
                files_in(self.children@) <= usize::MAX,
            decreases self.children@.len() - i,
        {
            proof {
                lemma_files_grow(self.children@, i + 1);
                assert(self.children@.take(i + 1).drop_last() =~= self.children@.take(i as int));
            }
            sum = sum + self.children[i].file_count();
            i = i + 1;
        }
        assert(self.children@.take(i as int) =~= self.children@);
        sum
    }

    /// The number of directories, this one counted.
    pub fn dir_count(&self) -> (r: usize)
        requires
            dir_total(*self) <= usize::MAX,
        ensures
            r == dir_total(*self),
        decreases *self,
    {
        if !self.is_dir {
            return 0;
        }
        let mut sum: usize = 1;
        let mut i: usize = 0;
        assert(self.children@.take(0) =~= Seq::<Node>::empty());
        while i < self.children.len()
            invariant
                i <= self.children@.len(),
                sum == 1 + dirs_in(self.children@.take(i as int)),
                1 + dirs_in(self.children@) <= usize::MAX,
            decreases self.children@.len() - i,
        {
            proof {
                lemma_dirs_grow(self.children@, i + 1);
                assert(self.children@.take(i + 1).drop_last() =~= self.children@.take(i as int));
            }
            sum = sum + self.children[i].dir_count();
            i = i + 1;
        }
        assert(self.children@.take(i as int) =~= self.children@);
        sum
    }

    /// All files below.
    pub fn all_files(&self) -> (r: Vec<&Node>)
        ensures
            r@.map_values(|n: &Node| *n) == files_of(*self),
    {
        let mut out: Vec<&Node> = Vec::new();
        self.collect_files(&mut out);
        assert(out@.map_values(|n: &Node| *n) =~= files_of(*self));
        out
    }

    fn collect_files<'a>(&'a self, out: &mut Vec<&'a Node>)
        ensures
            final(out)@.map_values(|n: &Node| *n) == old(out)@.map_values(|n: &Node| *n)
                + files_of(*self),
        decreases *self,
    {
        let ghost start = out@.map_values(|n: &Node| *n);
        if !self.is_dir {
            out.push(self);
            assert(out@.map_values(|n: &Node| *n) =~= start + seq![*self]);
            return;
        }
        let mut i: usize = 0;
        assert(self.children@.take(0) =~= Seq::<Node>::empty());
        assert(start + files_among(self.children@.take(0)) =~= start);
        while i < self.children.len()
            invariant
                i <= self.children@.len(),
                out@.map_values(|n: &Node| *n) == start + files_among(
                    self.children@.take(i as int),
                ),
            decreases self.children@.len() - i,
        {
            let ghost before = files_among(self.children@.take(i as int));
            self.children[i].collect_files(out);
            i = i + 1;
            assert(self.children@.take(i as int).drop_last() =~= self.children@.take(i - 1));
            assert(start + before + files_of(self.children@[i - 1]) =~= start + files_among(
                self.children@.take(i as int),
            ));
        }
        assert(self.children@.take(i as int) =~= self.children@);
    }
}

proof fn lemma_files_grow(s: Seq<Node>, n: int)
    requires
        0 <= n <= s.len(),
    ensures
        files_in(s.take(n)) <= files_in(s),
    decreases s.len(),
{
    if n < s.len() {
        lemma_files_grow(s.drop_last(), n);
        assert(s.drop_last().take(n) =~= s.take(n));
    } else {
        assert(s.take(n) =~= s);
    }
}

proof fn lemma_dirs_grow(s: Seq<Node>, n: int)
    requires
        0 <= n <= s.len(),
    ensures
        dirs_in(s.take(n)) <= dirs_in(s),
    decreases s.len(),
{
    if n < s.len() {
        lemma_dirs_grow(s.drop_last(), n);
        assert(s.drop_last().take(n) =~= s.take(n));
    } else {
        assert(s.take(n) =~= s);
    }
}

/// Counting the files and listing them agree.
pub proof fn file_count_is_number_of_files(n: Node)
    ensures
        file_total(n) == files_of(n).len(),
        forall|i: int| 0 <= i < files_of(n).len() ==> !(#[trigger] files_of(n)[i]).is_dir,
    decreases n,
{
    if n.is_dir {
        lemma_files_among(n.children@);
    }
}

proof fn lemma_files_among(s: Seq<Node>)
    ensures
        files_in(s) == files_among(s).len(),
        forall|i: int| 0 <= i < files_among(s).len() ==> !(#[trigger] files_among(s)[i]).is_dir,
    decreases s,
{
    if s.len() > 0 {
        lemma_files_among(s.drop_last());
        file_count_is_number_of_files(s.last());
        let a = files_among(s.drop_last());
        let b = files_of(s.last());
        assert forall|i: int| 0 <= i < files_among(s).len() implies !(#[trigger] files_among(
            s,
        )[i]).is_dir by {
            if i < a.len() {
                assert(files_among(s)[i] == a[i]);
            } else {
                assert(files_among(s)[i] == b[i - a.len()]);
            }
        }
    }
}

/// How a scan goes about its work.
pub struct WalkOptions {
    pub excludes: Vec<String>,
    /// The depth at which directories are no longer entered; the root has
    /// depth zero. None enters all of them.
    pub max_depth: Option<usize>,
}

/// The virtual filesystems, which are not entered unless told otherwise.
pub open spec fn vfs_texts() -> Seq<Seq<char>> {
    seq!["/proc"@, "/sys"@, "/dev"@, "/run"@, "/tmp"@]
}

/// The virtual filesystems.
pub fn vfs_excludes() -> (r: Vec<&'static str>)
    ensures
        r@.map_values(|s: &'static str| s@) == vfs_texts(),
{
    let mut v: Vec<&'static str> = Vec::new();
    v.push("/proc");
    v.push("/sys");
    v.push("/dev");
    v.push("/run");
    v.push("/tmp");
    assert(v@.map_values(|s: &'static str| s@) =~= vfs_texts());
    v
}

/// What a scan found.
pub struct ScanResult {
    pub root: Node,
    /// What could not be read, in words.
    pub warnings: Vec<String>,
    /// The number of directories that were read.
    pub walked_dirs: usize,
}

/// What kind of thing a directory entry is.
#[derive(Debug, Clone, Copy, PartialEq, Eq, Structural)]
pub enum EntryKind {
    Dir,
    File,
    Symlink,
    Other,
}

/// What the filesystem says of an entry.
pub struct EntryMeta {
    pub kind: EntryKind,
    pub len: u64,
    /// The device that holds it.
    pub dev: u64,
    pub modified: Option<LocalTime>,
    pub mode: u32,
}

/// A name found in a directory.
pub struct Found {
    pub name: String,
    pub path: String,
}

/// A directory entry and what is known of it.
pub struct Entry {
    pub path: String,
    /// What the filesystem says of the entry itself, or why it does not.
    pub meta: Result<EntryMeta, String>,
    /// Of a symbolic link, what it points to, where that can be read.
    pub target: Option<EntryMeta>,
}

/// What becomes of a directory entry.
pub enum Placement {
    /// It could not be read.
    Unreadable,
    /// It is a file of this size.
    Leaf(u64),
    /// It is a directory; the size is that of the directory itself where it is
    /// not entered.
    Subdir(u64),
    /// It is left out.
    Dropped,
}

/// What becomes of a directory entry. A symbolic link counts as a directory
/// where it leads to one on the device that holds the root of the scan.
pub open spec fn placement(e: Entry, descend: bool, root_dev: u64) -> Placement {
    match e.meta {
        Err(_) => Placement::Unreadable,
        Ok(m) => match m.kind {
            EntryKind::Symlink => match e.target {
                Some(t) => if t.kind == EntryKind::Dir && t.dev == root_dev {
                    Placement::Subdir(
                        if descend {
                            0
                        } else {
                            t.len
                        },
                    )
                } else {
                    Placement::Leaf(m.len)
                },
                None => Placement::Leaf(m.len),
            },
            EntryKind::Dir => Placement::Subdir(
                if descend {
                    0
                } else {
                    m.len
                },
            ),
            EntryKind::File => Placement::Leaf(m.len),
            EntryKind::Other => Placement::Dropped,
        },
    }
}

/// The files among entries.
pub open spec fn leaf_heads(entries: Seq<Entry>, descend: bool, root_dev: u64) -> Seq<NodeHead>
    decreases entries.len(),
{
    if entries.len() == 0 {
        Seq::empty()
    } else {
        let before = leaf_heads(entries.drop_last(), descend, root_dev);
        let e = entries.last();
        match placement(e, descend, root_dev) {
            Placement::Leaf(size) => before.push(
                new_head(e.path@, false, size, e.meta->Ok_0.modified, Some(e.meta->Ok_0.mode)),
            ),
            _ => before,
        }
    }
}

/// The directories among entries.
pub open spec fn subdir_heads(entries: Seq<Entry>, descend: bool, root_dev: u64) -> Seq<NodeHead>
    decreases entries.len(),
{
    if entries.len() == 0 {
        Seq::empty()
    } else {
        let before = subdir_heads(entries.drop_last(), descend, root_dev);
        let e = entries.last();
        match placement(e, descend, root_dev) {
            Placement::Subdir(size) => before.push(
                new_head(e.path@, true, size, e.meta->Ok_0.modified, Some(e.meta->Ok_0.mode)),
            ),
            _ => before,
        }
    }
}

/// A path and what went wrong with it.
pub open spec fn warning_text(path: Seq<char>, why: Seq<char>) -> Seq<char> {
    path + ": "@ + why
}

/// What to say of the entries that could not be read.
pub open spec fn entry_warnings(entries: Seq<Entry>) -> Seq<Seq<char>>
    decreases entries.len(),
{
    if entries.len() == 0 {
        Seq::empty()
    } else {
        let before = entry_warnings(entries.drop_last());
        match entries.last().meta {
            Err(why) => before.push(warning_text(entries.last().path@, why@)),
            Ok(_) => before,
        }
    }
}

/// The entries of one directory, sorted out.
pub struct Listing {
    pub leaves: Vec<Node>,
    pub subdirs: Vec<Node>,
    pub warnings: Vec<String>,
}

/// A path and what went wrong with it.
pub fn warning(path: &str, why: &str) -> (r: String)
    ensures
        r@ == warning_text(path@, why@),
{
    let mut s = path.to_owned();
    s.append(": ");
    s.append(why);
    s
}

/// Whether the directories found in one at `depth` are entered.
pub fn descends(depth: usize, max_depth: Option<usize>) -> (r: bool)
    ensures
        r == (match max_depth {
            Some(m) => depth + 1 < m,
            None => true,
        }),
{
    match max_depth {
        Some(m) => m > 0 && depth < m - 1,
        None => true,
    }
}

/// Whether the directories below one are scanned at the same time: only near
/// the root, and only where there are enough of them.
pub fn runs_parallel(depth: usize, subdirs: usize) -> (r: bool)
    ensures
        r == (depth <= 1 && subdirs > 4),
{
    depth <= 1 && subdirs > 4
}

/// The root of a scan, and whether it is a directory to be read.
pub fn scan_root(path: String, meta: &EntryMeta) -> (r: (Node, bool))
    ensures
        r.1 == (meta.kind == EntryKind::Dir),
        head(r.0) == new_head(
            path@,
            r.1,
            if r.1 {
                0
            } else {
                meta.len
            },
            meta.modified,
            Some(meta.mode),
        ),
        r.0.children@.len() == 0,
{
    let dir = meta.kind == EntryKind::Dir;
    let size: u64 = if dir {
        0
    } else {
        meta.len
    };
    (Node::new(path, dir, size, meta.modified, Some(meta.mode)), dir)
}

/// The names that no pattern excludes.
pub open spec fn kept(found: Seq<Found>, patterns: Seq<Seq<char>>) -> Seq<Found> {
    found.filter(|f: Found| !excluded(f.name@, f.path@, patterns))
}

/// The names that no pattern excludes, in order.
pub fn keep_entries(found: Vec<Found>, patterns: &[String]) -> (r: Vec<Found>)
    ensures
        r@ == kept(found@, texts(patterns@)),
{
    let mut rest = found;
    let mut back: Vec<Found> = Vec::new();
    let ghost all = found@;
    let ghost pred = |f: Found| !excluded(f.name@, f.path@, texts(patterns@));
    assert(all.skip(rest@.len() as int) =~= Seq::<Found>::empty());
    assert(all.take(rest@.len() as int) =~= rest@);
    assert(all.skip(all.len() as int).filter(pred) =~= Seq::<Found>::empty()) by {
        reveal(Seq::filter);
    }
    while rest.len() > 0
        invariant
            rest@.len() <= all.len(),
            rest@ == all.take(rest@.len() as int),
            pred == (|f: Found| !excluded(f.name@, f.path@, texts(patterns@))),
            back@.reverse() == all.skip(rest@.len() as int).filter(pred),
        decreases rest@.len(),
    {
        let ghost n = rest@.len() as int;
        match rest.pop() {
            Some(f) => {
                assert(f == all[n - 1]);
                proof {
                    assert(all.skip(n - 1) =~= seq![f] + all.skip(n));
                    Seq::filter_distributes_over_add(seq![f], all.skip(n), pred);
                    assert(seq![f].filter(pred) == (if pred(f) {
                        seq![f]
                    } else {
                        Seq::empty()
                    })) by {
                        reveal(Seq::filter);
                        assert(seq![f].drop_last() =~= Seq::<Found>::empty());
                        assert(Seq::<Found>::empty().filter(pred) =~= Seq::<Found>::empty());
                        if pred(f) {
                            assert(Seq::<Found>::empty().push(f) =~= seq![f]);
                        }
                    }
                }
                let ghost before = back@;
                if !is_excluded_entry(&f.name, &f.path, patterns) {
                    back.push(f);
                    assert(back@.reverse() =~= seq![f] + before.reverse());
                } else {
                    assert(back@.reverse() =~= Seq::<Found>::empty() + before.reverse());
                }
            },
            None => {},
        }
    }
    let mut out: Vec<Found> = Vec::new();
    let ghost whole = back@;
    assert(whole.skip(back@.len() as int).reverse() =~= Seq::<Found>::empty());
    while back.len() > 0
        invariant
            back@.len() <= whole.len(),
            back@ == whole.take(back@.len() as int),
            out@ == whole.skip(back@.len() as int).reverse(),
        decreases back@.len(),
    {
        let ghost n = back@.len() as int;
        match back.pop() {
            Some(f) => {
                out.push(f);
                assert(out@ =~= whole.skip(n - 1).reverse());
            },
            None => {},
        }
    }
    assert(whole.skip(0) =~= whole);
    assert(all.skip(0) =~= all);
    out
}

/// Sorts out the entries of a directory: its files, its directories and what
/// could not be read.
pub fn sort_entries(entries: &Vec<Entry>, descend: bool, root_dev: u64) -> (r: Listing)
    ensures
        heads(r.leaves@) == leaf_heads(entries@, descend, root_dev),
        heads(r.subdirs@) == subdir_heads(entries@, descend, root_dev),
        texts(r.warnings@) == entry_warnings(entries@),
        forall|i: int| 0 <= i < r.leaves@.len() ==> (#[trigger] r.leaves@[i]).children@.len() == 0,
        forall|i: int|
            0 <= i < r.subdirs@.len() ==> (#[trigger] r.subdirs@[i]).children@.len() == 0,
{
    let mut leaves: Vec<Node> = Vec::new();
    let mut subdirs: Vec<Node> = Vec::new();
    let mut warnings: Vec<String> = Vec::new();
    let mut i: usize = 0;
    assert(entries@.take(0) =~= Seq::<Entry>::empty());
    assert(heads(leaves@) =~= Seq::<NodeHead>::empty());
    assert(texts(warnings@) =~= Seq::<Seq<char>>::empty());
    while i < entries.len()
        invariant
            i <= entries@.len(),
            heads(leaves@) == leaf_heads(entries@.take(i as int), descend, root_dev),
            heads(subdirs@) == subdir_heads(entries@.take(i as int), descend, root_dev),
            texts(warnings@) == entry_warnings(entries@.take(i as int)),
            forall|j: int| 0 <= j < leaves@.len() ==> (#[trigger] leaves@[j]).children@.len() == 0,
            forall|j: int|
                0 <= j < subdirs@.len() ==> (#[trigger] subdirs@[j]).children@.len() == 0,
        decreases entries@.len() - i,
    {
        let e = &entries[i];
        let ghost l0 = heads(leaves@);
        let ghost s0 = heads(subdirs@);
        let ghost w0 = texts(warnings@);
        assert(entries@.take(i + 1).drop_last() =~= entries@.take(i as int));
        assert(entries@.take(i + 1).last() == *e);
        match &e.meta {
            Err(why) => {
                let w = warning(&e.path, why);
                warnings.push(w);
                assert(texts(warnings@) =~= w0.push(w@));
            },
            Ok(m) => {
                let dir: Option<u64> = match m.kind {
                    EntryKind::Symlink => match &e.target {
                        Some(t) => if t.kind == EntryKind::Dir && t.dev == root_dev {
                            Some(t.len)
                        } else {
                            None
                        },
                        None => None,
                    },
                    EntryKind::Dir => Some(m.len),
                    _ => None,
                };
                match dir {
                    Some(len) => {
                        let size: u64 = if descend {
                            0
                        } else {
                            len
                        };
                        let n = Node::new(e.path.clone(), true, size, m.modified, Some(m.mode));
                        subdirs.push(n);
                        assert(heads(subdirs@) =~= s0.push(head(n)));
                    },
                    None => if m.kind == EntryKind::Symlink || m.kind == EntryKind::File {
                        let n = Node::new(e.path.clone(), false, m.len, m.modified, Some(m.mode));
                        leaves.push(n);
                        assert(heads(leaves@) =~= l0.push(head(n)));
                    },
                }
            },
        }
        i = i + 1;
    }
    assert(entries@.take(i as int) =~= entries@);
    Listing { leaves, subdirs, warnings }
}

proof fn lemma_total_take(s: Seq<Node>, n: int)
    requires
        0 <= n <= s.len(),
    ensures
        total_size(s.take(n)) <= total_size(s),
    decreases s.len(),
{
    if n < s.len() {
        lemma_total_take(s.drop_last(), n);
        assert(s.drop_last().take(n) =~= s.take(n));
    } else {
        assert(s.take(n) =~= s);
    }
}

proof fn lemma_total_add(a: Seq<Node>, b: Seq<Node>)
    ensures
        total_size(a + b) == total_size(a) + total_size(b),
    decreases b.len(),
{
    if b.len() == 0 {
        assert(a + b =~= a);
    } else {
        lemma_total_add(a, b.drop_last());
        assert((a + b).drop_last() =~= a + b.drop_last());
    }
}

proof fn lemma_all_add(a: Seq<Node>, b: Seq<Node>)
    requires
        all_add_up(a),
        all_add_up(b),
    ensures
        all_add_up(a + b),
    decreases b.len(),
{
    if b.len() == 0 {
        assert(a + b =~= a);
    } else {
        lemma_all_add(a, b.drop_last());
        assert((a + b).drop_last() =~= a + b.drop_last());
    }
}

fn sum_sizes(v: &Vec<Node>) -> (r: u64)
    requires
        total_size(v@) <= u64::MAX,
    ensures
        r == total_size(v@),
{
    let mut sum: u64 = 0;
    let mut i: usize = 0;
    assert(v@.take(0) =~= Seq::<Node>::empty());
    while i < v.len()
        invariant
            i <= v@.len(),
            sum == total_size(v@.take(i as int)),
            total_size(v@) <= u64::MAX,
        decreases v@.len() - i,
    {
        proof {
            lemma_total_take(v@, i + 1);
            assert(v@.take(i + 1).drop_last() =~= v@.take(i as int));
        }
        sum = sum + v[i].size;
        i = i + 1;
    }
    assert(v@.take(i as int) =~= v@);
    sum
}

/// Gives a directory its children, files first, and the size that they have
/// together.
pub fn finish_dir(node: &mut Node, leaves: Vec<Node>, subdirs: Vec<Node>)
    requires
        total_size(leaves@) + total_size(subdirs@) <= u64::MAX,
    ensures
        final(node).children@ == leaves@ + subdirs@,
        final(node).size == total_size(leaves@) + total_size(subdirs@),
        head(*final(node)) == (NodeHead { size: final(node).size, ..head(*old(node)) }),
        all_add_up(leaves@) && all_add_up(subdirs@) ==> sizes_add_up(*final(node)),
{
    let leaf_total = sum_sizes(&leaves);
    let dir_total = sum_sizes(&subdirs);
    node.size = leaf_total + dir_total;
    let mut children = leaves;
    let mut more = subdirs;
    children.append(&mut more);
    node.children = children;
    proof {
        lemma_total_add(leaves@, subdirs@);
        if all_add_up(leaves@) && all_add_up(subdirs@) {
            lemma_all_add(leaves@, subdirs@);
        }
    }
}

/// Whether `t` matches the pattern `p`, in which `*` stands for any text and
/// `?` for any one character.
pub open spec fn glob(p: Seq<char>, t: Seq<char>) -> bool
    decreases p.len(),
{
    if p.len() == 0 {
        t.len() == 0
    } else if p[0] == '*' {
        exists|k: int| 0 <= k <= t.len() && glob(p.skip(1), #[trigger] t.skip(k))
    } else {
        t.len() > 0 && (p[0] == '?' || p[0] == t[0]) && glob(p.skip(1), t.skip(1))
    }
}

/// Whether one pattern excludes an entry: a pattern that starts with a slash
/// names a path and all that is below, any other is matched with the name.
pub open spec fn pattern_excludes(p: Seq<char>, name: Seq<char>, path: Seq<char>) -> bool {
    if starts_with(p, '/') {
        let dir = without_trailing(p, '/');
        path == dir || has_prefix(path, dir.push('/'))
    } else {
        glob(p, name)
    }
}

/// Whether any pattern excludes an entry.
pub open spec fn excluded(name: Seq<char>, path: Seq<char>, patterns: Seq<Seq<char>>) -> bool {
    exists|i: int| 0 <= i < patterns.len() && pattern_excludes(#[trigger] patterns[i], name, path)
}

/// Whether any pattern excludes an entry.
pub fn is_excluded_entry(name: &str, path: &str, patterns: &[String]) -> (r: bool)
    ensures
        r == excluded(name@, path@, texts(patterns@)),
{
    let mut i: usize = 0;
    while i < patterns.len()
        invariant
            i <= patterns@.len(),
            forall|j: int|
                0 <= j < i ==> !pattern_excludes(#[trigger] texts(patterns@)[j], name@, path@),
        decreases patterns@.len() - i,
    {
        let p = &patterns[i];
        assert(texts(patterns@)[i as int] == p@);
        let hit = if starts_with_char(p, '/') {
            let dir = trim_end_char(p, '/');
            if same_text(path, &dir) {
                true
            } else {
                let mut below = dir.clone();
                crate::text::push_char(&mut below, '/');
                starts_with_text(path, &below)
            }
        } else {
            glob_match(p, name)
        };
        if hit {
            return true;
        }
        i = i + 1;
    }
    false
}

/// Whether a pattern that is not a path matches a name.
pub fn is_excluded(name: &str, patterns: &[String]) -> (r: bool)
    ensures
        r == exists|i: int|
            0 <= i < patterns@.len() && !starts_with((#[trigger] patterns@[i])@, '/') && glob(
                patterns@[i]@,
                name@,
            ),
{
    let mut i: usize = 0;
    while i < patterns.len()
        invariant
            i <= patterns@.len(),
            forall|j: int|
                0 <= j < i ==> starts_with((#[trigger] patterns@[j])@, '/') || !glob(
                    patterns@[j]@,
                    name@,
                ),
        decreases patterns@.len() - i,
    {
        let p = &patterns[i];
        if !starts_with_char(p, '/') && glob_match(p, name) {
            return true;
        }
        i = i + 1;
    }
    false
}

/// Whether `text` matches the glob pattern `pattern`.
pub fn glob_match(pattern: &str, text: &str) -> (r: bool)
    ensures
        r == glob(pattern@, text@),
{
    let p = chars_of(pattern);
    let t = chars_of(text);
    assert(p@.skip(0) =~= p@);
    assert(t@.skip(0) =~= t@);
    glob_inner(&p, 0, &t, 0)
}

fn glob_inner(p: &Vec<char>, pi: usize, t: &Vec<char>, ti: usize) -> (r: bool)
    requires
        pi <= p@.len(),
        ti <= t@.len(),
    ensures
        r == glob(p@.skip(pi as int), t@.skip(ti as int)),
    decreases p@.len() - pi, t@.len() - ti,
{
    let ghost ps = p@.skip(pi as int);
    let ghost ts = t@.skip(ti as int);
    if pi == p.len() {
        return ti == t.len();
    }
    assert(ps.skip(1) =~= p@.skip(pi + 1));
    if p[pi] == '*' {
        proof {
            lemma_star(ps, ts);
            if ti < t@.len() {
                assert(ts.skip(1) =~= t@.skip(ti + 1));
            }
        }
        if glob_inner(p, pi + 1, t, ti) {
            return true;
        }
        if ti < t.len() {
            return glob_inner(p, pi, t, ti + 1);
        }
        false
    } else {
        if ti < t.len() && (p[pi] == '?' || t[ti] == p[pi]) {
            assert(ts.skip(1) =~= t@.skip(ti + 1));
            glob_inner(p, pi + 1, t, ti + 1)
        } else {
            false
        }
    }
}

/// A star stands for nothing, or for one more character.
proof fn lemma_star(p: Seq<char>, t: Seq<char>)
    requires
        p.len() > 0,
        p[0] == '*',
    ensures
        glob(p, t) <==> (glob(p.skip(1), t) || (t.len() > 0 && glob(p, t.skip(1)))),
{
    assert(t.skip(0) =~= t);
    if glob(p, t) {
        let k = choose|k: int| 0 <= k <= t.len() && glob(p.skip(1), #[trigger] t.skip(k));
        if k > 0 {
            assert(t.skip(1).skip(k - 1) =~= t.skip(k));
            assert(glob(p.skip(1), t.skip(1).skip(k - 1)));
        }
    }
    if glob(p.skip(1), t) {
        assert(glob(p.skip(1), t.skip(0)));
    }
    if t.len() > 0 && glob(p, t.skip(1)) {
        let k = choose|k: int|
            0 <= k <= t.skip(1).len() && glob(p.skip(1), #[trigger] t.skip(1).skip(k));
        assert(t.skip(1).skip(k) =~= t.skip(k + 1));
        assert(glob(p.skip(1), t.skip(k + 1)));
    }
}

/// A pattern without wildcards matches itself and nothing else.
pub proof fn plain_pattern_matches_itself(p: Seq<char>, t: Seq<char>)
    requires
        forall|i: int| 0 <= i < p.len() ==> p[i] != '*' && p[i] != '?',
    ensures
        glob(p, t) <==> p == t,
    decreases p.len(),
{
    if p.len() > 0 {
        if t.len() > 0 {
            plain_pattern_matches_itself(p.skip(1), t.skip(1));
            if p[0] == t[0] && p.skip(1) == t.skip(1) {
                assert(p =~= seq![p[0]] + p.skip(1));
                assert(t =~= seq![t[0]] + t.skip(1));
            }
        }
    } else {
        assert(t.len() == 0 ==> p =~= t);
    }
}

/// Every pattern matches itself, read as a name.
pub proof fn patterns_match_themselves(p: Seq<char>)
    ensures
        glob(p, p),
    decreases p.len(),
{
    if p.len() > 0 {
        patterns_match_themselves(p.skip(1));
        if p[0] == '*' {
            assert(glob(p.skip(1), p.skip(1)));
        }
    }
}

/// A lone star matches every text.
pub proof fn star_matches_all(t: Seq<char>)
    ensures
        glob(seq!['*'], t),
{
    assert(seq!['*'].skip(1) =~= Seq::<char>::empty());
    assert(t.skip(t.len() as int) =~= Seq::<char>::empty());
    assert(glob(seq!['*'].skip(1), t.skip(t.len() as int)));
}

/// A star in front of a plain text matches exactly what ends in that text.
pub proof fn star_before_plain_matches_suffix(p: Seq<char>, t: Seq<char>)
    requires
        forall|i: int| 0 <= i < p.len() ==> p[i] != '*' && p[i] != '?',
    ensures
        glob(seq!['*'] + p, t) <==> p.len() <= t.len() && t.skip(t.len() - p.len()) == p,
{
    let q = seq!['*'] + p;
    assert(q.skip(1) =~= p);
    if glob(q, t) {
        let k = choose|k: int| 0 <= k <= t.len() && glob(q.skip(1), #[trigger] t.skip(k));
        plain_pattern_matches_itself(p, t.skip(k));
    }
    if p.len() <= t.len() && t.skip(t.len() - p.len()) == p {
        plain_pattern_matches_itself(p, p);
        assert(glob(q.skip(1), t.skip(t.len() - p.len())));
    }
}

/// A pattern that is a path excludes that path and everything below it, and
/// nothing that only shares its first letters.
pub proof fn path_pattern_excludes_subtree(p: Seq<char>, name: Seq<char>, rest: Seq<char>)
    requires
        starts_with(p, '/'),
        !crate::text::ends_with(p, '/'),
    ensures
        pattern_excludes(p, name, p),
        pattern_excludes(p, name, p.push('/') + rest),
        rest.len() > 0 && rest[0] != '/' ==> !pattern_excludes(p, name, p + rest),
{
    let q = p.push('/') + rest;
    assert(q.take(p.len() as int + 1) =~= p.push('/'));
    if rest.len() > 0 && rest[0] != '/' {
        let s = p + rest;
        assert(s[p.len() as int] == rest[0]);
        assert(p.push('/')[p.len() as int] == '/');
        assert(s.take(p.len() as int + 1)[p.len() as int] == rest[0]);
    }
}

/// Whether an entry leads to a directory that is scanned: it is one, or a symbolic
/// link to one on the device that holds the root of the scan.
pub open spec fn leads_to_dir(e: Entry, root_dev: u64) -> bool {
    e.meta is Ok && (e.meta->Ok_0.kind is Dir || (e.meta->Ok_0.kind is Symlink && e.target is Some
        && e.target->0.kind is Dir && e.target->0.dev == root_dev))
}

/// Whether an entry is a file, or a symbolic link that does not lead to a directory
/// that is scanned.
pub open spec fn counts_as_file(e: Entry, root_dev: u64) -> bool {
    e.meta is Ok && (e.meta->Ok_0.kind is File || (e.meta->Ok_0.kind is Symlink && !leads_to_dir(
        e,
        root_dev,
    )))
}

/// The files of a listing are the entries that count as files, one for each and in
/// their order, with the path, the size, the modification time and the permissions
/// that the filesystem gave for the entry itself.
pub proof fn files_are_listed_as_they_are(
    entries: Seq<Entry>,
    descend: bool,
    root_dev: u64,
)
    ensures
        ({
            let leaves = leaf_heads(entries, descend, root_dev);
            let files = entries.filter(|e: Entry| counts_as_file(e, root_dev));
            &&& leaves.len() == files.len()
            &&& forall|j: int|
                0 <= j < files.len() ==> {
                    &&& (#[trigger] leaves[j]).path == files[j].path@
                    &&& leaves[j].name == shown_name(files[j].path@)
                    &&& !leaves[j].is_dir
                    &&& leaves[j].size == files[j].meta->Ok_0.len
                    &&& leaves[j].modified == files[j].meta->Ok_0.modified
                    &&& leaves[j].mode == Some(files[j].meta->Ok_0.mode)
                }
        }),
    decreases entries.len(),
{
    reveal(Seq::filter);
    if entries.len() > 0 {
        files_are_listed_as_they_are(entries.drop_last(), descend, root_dev);
    }
}

/// Every entry that counts as a file has a leaf, which says what the filesystem said
/// of it.
pub proof fn every_file_has_its_leaf(
    entries: Seq<Entry>,
    descend: bool,
    root_dev: u64,
    i: int,
)
    requires
        0 <= i < entries.len(),
        counts_as_file(entries[i], root_dev),
    ensures
        exists|j: int|
            0 <= j < leaf_heads(entries, descend, root_dev).len() && {
                let l = #[trigger] leaf_heads(entries, descend, root_dev)[j];
                &&& l.path == entries[i].path@
                &&& l.size == entries[i].meta->Ok_0.len
                &&& l.modified == entries[i].meta->Ok_0.modified
                &&& l.mode == Some(entries[i].meta->Ok_0.mode)
                &&& !l.is_dir
            },
{
    let pred = |e: Entry| counts_as_file(e, root_dev);
    files_are_listed_as_they_are(entries, descend, root_dev);
    entries.lemma_filter_contains(pred, i);
    let files = entries.filter(pred);
    let j = choose|j: int| 0 <= j < files.len() && files[j] == entries[i];
    assert(leaf_heads(entries, descend, root_dev)[j].path == files[j].path@);
}

/// The directories of a listing are the entries that lead to one, one for each and
/// in their order. One that is entered has no size yet; one that is not has the
/// size of the directory itself.
pub proof fn directories_are_listed_as_they_are(
    entries: Seq<Entry>,
    descend: bool,
    root_dev: u64,
)
    ensures
        ({
            let subdirs = subdir_heads(entries, descend, root_dev);
            let dirs = entries.filter(|e: Entry| leads_to_dir(e, root_dev));
            &&& subdirs.len() == dirs.len()
            &&& forall|j: int|
                0 <= j < dirs.len() ==> {
                    &&& (#[trigger] subdirs[j]).path == dirs[j].path@
                    &&& subdirs[j].name == shown_name(dirs[j].path@)
                    &&& subdirs[j].is_dir
                    &&& subdirs[j].size == (if descend {
                        0
                    } else if dirs[j].meta->Ok_0.kind is Dir {
                        dirs[j].meta->Ok_0.len
                    } else {
                        dirs[j].target->0.len
                    })
                    &&& subdirs[j].modified == dirs[j].meta->Ok_0.modified
                    &&& subdirs[j].mode == Some(dirs[j].meta->Ok_0.mode)
                }
        }),
    decreases entries.len(),
{
    reveal(Seq::filter);
    if entries.len() > 0 {
        directories_are_listed_as_they_are(entries.drop_last(), descend, root_dev);
    }
}

/// There is one warning for each entry that could not be read, in their order, with
/// its path and what the filesystem said.
pub proof fn unreadable_entries_are_reported(entries: Seq<Entry>)
    ensures
        ({
            let warnings = entry_warnings(entries);
            let failed = entries.filter(|e: Entry| e.meta is Err);
            &&& warnings.len() == failed.len()
            &&& forall|j: int|
                0 <= j < failed.len() ==> #[trigger] warnings[j] == failed[j].path@ + ": "@
                    + failed[j].meta->Err_0@
        }),
    decreases entries.len(),
{
    reveal(Seq::filter);
    if entries.len() > 0 {
        unreadable_entries_are_reported(entries.drop_last());
    }
}

/// Of the names in a directory those are kept that no pattern excludes, in their
/// order, and no others.
pub proof fn only_excluded_names_are_left_out(found: Seq<Found>, patterns: Seq<Seq<char>>, i: int)
    requires
        0 <= i < found.len(),
    ensures
        kept(found, patterns).contains(found[i]) <==> forall|k: int|
            0 <= k < patterns.len() ==> !pattern_excludes(
                #[trigger] patterns[k],
                found[i].name@,
                found[i].path@,
            ),
        forall|j: int|
            0 <= j < kept(found, patterns).len() ==> found.contains(
                #[trigger] kept(found, patterns)[j],
            ),
{
    let pred = |f: Found| !excluded(f.name@, f.path@, patterns);
    crate::lists::lemma_filter_passes(found, pred);
    if pred(found[i]) {
        found.lemma_filter_contains(pred, i);
    } else if kept(found, patterns).contains(found[i]) {
        let j = choose|j: int|
            0 <= j < kept(found, patterns).len() && kept(found, patterns)[j] == found[i];
        assert(pred(kept(found, patterns)[j]));
    }
}

/// A question mark stands for any one character, and for nothing else.
pub proof fn question_mark_is_one_character(p: Seq<char>, t: Seq<char>)
    ensures
        glob(seq!['?'] + p, t) <==> t.len() > 0 && glob(p, t.skip(1)),
{
    assert((seq!['?'] + p).skip(1) =~= p);
}

/// Two patterns in a row match two texts in a row that they match one by one.
pub proof fn patterns_match_in_a_row(p: Seq<char>, q: Seq<char>, t: Seq<char>, u: Seq<char>)
    requires
        glob(p, t),
        glob(q, u),
    ensures
        glob(p + q, t + u),
    decreases p.len(),
{
    let w = p + q;
    if p.len() == 0 {
        assert(w =~= q);
        assert(t + u =~= u);
    } else {
        assert(w.skip(1) =~= p.skip(1) + q);
        if p[0] == '*' {
            let k = choose|k: int| 0 <= k <= t.len() && glob(p.skip(1), #[trigger] t.skip(k));
            patterns_match_in_a_row(p.skip(1), q, t.skip(k), u);
            assert((t + u).skip(k) =~= t.skip(k) + u);
            assert(glob(w.skip(1), (t + u).skip(k)));
        } else {
            patterns_match_in_a_row(p.skip(1), q, t.skip(1), u);
            assert((t + u).skip(1) =~= t.skip(1) + u);
        }
    }
}

/// A star stands for any text, the empty one too, and a character that is no wildcard for
/// itself; a pattern without any matches nothing but the empty text.
pub proof fn wildcards_stand_for_texts(p: Seq<char>, c: char, t: Seq<char>)
    ensures
        glob(Seq::empty(), t) <==> t.len() == 0,
        glob(seq!['*'] + p, t) <==> exists|k: int| 0 <= k <= t.len() && glob(p, #[trigger] t.skip(k)),
        c != '*' && c != '?' ==> (glob(seq![c] + p, t) <==> t.len() > 0 && t[0] == c && glob(
            p,
            t.skip(1),
        )),
{
    assert((seq!['*'] + p).skip(1) =~= p);
    assert((seq![c] + p).skip(1) =~= p);
}

/// A pattern that does not start with a slash is matched with the name alone, wherever the
/// entry is; slashes behind a path do not count.
pub proof fn patterns_are_names_or_paths(p: Seq<char>, name: Seq<char>, path: Seq<char>)
    ensures
        p.len() == 0 || p[0] != '/' ==> (pattern_excludes(p, name, path) <==> glob(p, name)),
        p.len() > 0 && p[0] == '/' ==> pattern_excludes(p.push('/'), name, path)
            == pattern_excludes(p, name, path),
{
    let q = p.push('/');
    assert(q.drop_last() =~= p);
    assert(without_trailing(q, '/') == without_trailing(p, '/'));
}

} // verus!
