//! The embedded asset catalog: a set of named byte blobs compiled into the
//! binary, indexed by path, together with a directory table grouping each
//! asset under its parent directory. Paths are byte strings; the parent of a
//! path is everything before its last slash (the empty path for a bare file
//! name), and the empty path has no parent.

use vstd::prelude::*;

verus! {

/// The byte value of the path separator `/`.
pub const SLASH: u8 = 47;

/// The prefix of a path before its last slash; the empty sequence when the
/// path has no slash.
pub open spec fn parent_prefix(p: Seq<u8>) -> Seq<u8>
    decreases p.len(),
{
    if p.len() == 0 {
        Seq::empty()
    } else if p.last() == SLASH {
        p.drop_last()
    } else {
        parent_prefix(p.drop_last())
    }
}

/// The parent directory of a path: the empty path has none; every other
/// path's parent is its prefix before the last slash.
pub open spec fn parent_of(p: Seq<u8>) -> Option<Seq<u8>> {
    if p.len() == 0 {
        None
    } else {
        Some(parent_prefix(p))
    }
}

/// One embedded asset: its path and its bytes.
pub struct AssetEntry {
    pub path: Vec<u8>,
    pub bytes: Vec<u8>,
}

/// One directory: its path and the asset paths directly under it.
pub struct DirListing {
    pub path: Vec<u8>,
    pub entries: Vec<Vec<u8>>,
}

/// Why an asset lookup failed.
#[derive(Debug)]
pub enum AssetIoError {
    /// No asset or directory exists at the given path.
    NotFound(Vec<u8>),
}

/// The parent directory of a path, executable form.
pub fn parent_of_path(p: &Vec<u8>) -> (r: Option<Vec<u8>>)
    ensures
        ({
            match r {
                Some(q) => parent_of(p@) == Some(q@),
                None => parent_of(p@) == None::<Seq<u8>>,
            }
        }),
{
    if p.len() == 0 {
        return None;
    }
    let mut i: usize = p.len();
    proof {
        assert(p@.take(i as int) =~= p@);
    }
    while i > 0
        invariant
            i <= p@.len(),
            parent_prefix(p@) == parent_prefix(p@.take(i as int)),
        decreases i,
    {
        if p[i - 1] == SLASH {
            proof {
                assert(p@.take(i as int).last() == p@[i - 1]);
                assert(p@.take(i as int).drop_last() =~= p@.take(i - 1));
            }
            return Some(copy_bytes_range(p, i - 1));
        }
        proof {
            assert(p@.take(i as int).last() == p@[i - 1]);
            assert(p@.take(i as int).drop_last() =~= p@.take(i - 1));
        }
        i = i - 1;
    }
    proof {
        assert(p@.take(0) =~= Seq::<u8>::empty());
    }
    Some(Vec::new())
}

/// The first `n` bytes of a byte string, as a fresh vector.
fn copy_bytes_range(v: &Vec<u8>, n: usize) -> (r: Vec<u8>)
    requires
        n <= v@.len(),
    ensures
        r@ == v@.take(n as int),
{
    let mut r: Vec<u8> = Vec::new();
    let mut i: usize = 0;
    while i < n
        invariant
            i <= n <= v@.len(),
            r@ =~= v@.take(i as int),
        decreases n - i,
    {
        r.push(v[i]);
        proof {
            assert(v@.take(i + 1) =~= v@.take(i as int).push(v@[i as int]));
        }
        i += 1;
    }
    r
}

/// A fresh copy of a byte string.
pub fn copy_bytes(v: &Vec<u8>) -> (r: Vec<u8>)
    ensures
        r@ == v@,
{
    let r = copy_bytes_range(v, v.len());
    proof {
        assert(v@.take(v@.len() as int) =~= v@);
    }
    r
}

/// Whether two byte strings hold the same bytes.
pub fn bytes_eq(a: &Vec<u8>, b: &Vec<u8>) -> (r: bool)
    ensures
        r == (a@ == b@),
{
    if a.len() != b.len() {
        return false;
    }
    let n = a.len();
    let mut i: usize = 0;
    while i < n
        invariant
            i <= n,
            n == a@.len() == b@.len(),
            forall|k: int| 0 <= k < i ==> a@[k] == b@[k],
        decreases n - i,
    {
        if a[i] != b[i] {
            return false;
        }
        i += 1;
    }
    proof {
        assert(a@ =~= b@);
    }
    true
}

/// The paths among the assets whose parent is `key`, in catalog order.
pub open spec fn group_paths(assets: Seq<AssetEntry>, key: Seq<u8>) -> Seq<Seq<u8>>
    decreases assets.len(),
{
    if assets.len() == 0 {
        Seq::empty()
    } else {
        let rest = group_paths(assets.drop_last(), key);
        if parent_of(assets.last().path@) == Some(key) {
            rest.push(assets.last().path@)
        } else {
            rest
        }
    }
}

/// The distinct parents of the assets, in order of first appearance.
pub open spec fn parent_keys(assets: Seq<AssetEntry>) -> Seq<Seq<u8>>
    decreases assets.len(),
{
    if assets.len() == 0 {
        Seq::empty()
    } else {
        let ks = parent_keys(assets.drop_last());
        match parent_of(assets.last().path@) {
            Some(k) => if ks.contains(k) {
                ks
            } else {
                ks.push(k)
            },
            None => ks,
        }
    }
}

/// A key that the catalog prefix never mentions groups nothing.
proof fn lemma_group_of_missing_key(s: Seq<AssetEntry>, k: Seq<u8>)
    requires
        !parent_keys(s).contains(k),
    ensures
        group_paths(s, k) == Seq::<Seq<u8>>::empty(),
    decreases s.len(),
{
    if s.len() > 0 {
        let ks = parent_keys(s.drop_last());
        assert forall|x: Seq<u8>| ks.contains(x) implies #[trigger] ks.push(k).contains(x) by {
            let i = choose|i: int| 0 <= i < ks.len() && ks[i] == x;
            assert(ks.push(k)[i] == x);
        }
        if parent_of(s.last().path@) == Some(k) {
            match parent_of(s.last().path@) {
                Some(key) => {
                    if ks.contains(key) {
                        assert(parent_keys(s).contains(k));
                    } else {
                        assert(parent_keys(s)[parent_keys(s).len() - 1] == k);
                        assert(parent_keys(s).contains(k));
                    }
                },
                None => {},
            }
            assert(false);
        }
        assert(!ks.contains(k)) by {
            if ks.contains(k) {
                let i = choose|i: int| 0 <= i < ks.len() && ks[i] == k;
                assert(parent_keys(s)[i] == k);
                assert(parent_keys(s).contains(k));
            }
        }
        lemma_group_of_missing_key(s.drop_last(), k);
    }
}

/// The embedded asset catalog.
pub struct EmbeddedAssetIo {
    /// The assets, in the order they were handed in.
    pub assets: Vec<AssetEntry>,
    /// The directory table: each distinct parent, in order of first
    /// appearance, with the asset paths directly under it.
    pub dirs: Vec<DirListing>,
}

impl EmbeddedAssetIo {
    /// The directory paths, in table order.
    pub open spec fn dir_keys(self) -> Seq<Seq<u8>> {
        self.dirs@.map_values(|d: DirListing| d.path@)
    }

    /// The catalog's shape: asset paths are distinct (the catalog models a
    /// map), directory keys are exactly the distinct parents in order of
    /// first appearance, and each directory lists exactly the asset paths
    /// under its key, in catalog order.
    pub open spec fn well_formed(self) -> bool {
        &&& (forall|i: int, j: int| 0 <= i < j < self.assets@.len()
            ==> self.assets@[i].path@ != self.assets@[j].path@)
        &&& self.dir_keys() == parent_keys(self.assets@)
        &&& (forall|i: int, j: int| 0 <= i < j < self.dirs@.len()
            ==> self.dirs@[i].path@ != self.dirs@[j].path@)
        &&& (forall|j: int| 0 <= j < self.dirs@.len()
            ==> #[trigger] self.dirs@[j].entries.deep_view()
                == group_paths(self.assets@, self.dirs@[j].path@))
    }

    /// Build the catalog: walk the assets once and file each under its
    /// parent directory, creating the directory at first sight.
    pub fn new(assets: Vec<AssetEntry>) -> (io: EmbeddedAssetIo)
        requires
            forall|i: int, j: int| 0 <= i < j < assets@.len()
                ==> assets@[i].path@ != assets@[j].path@,
        ensures
            io.assets@ == assets@,
            io.well_formed(),
    {
        let mut dirs: Vec<DirListing> = Vec::new();
        let n = assets.len();
        let mut i: usize = 0;
        proof {
            assert(assets@.take(0) =~= Seq::<AssetEntry>::empty());
            assert(dirs@.map_values(|d: DirListing| d.path@)
                =~= parent_keys(assets@.take(0)));
        }
        while i < n
            invariant
                i <= n,
                n == assets@.len(),
                dirs@.map_values(|d: DirListing| d.path@) == parent_keys(assets@.take(i as int)),
                forall|l1: int, l2: int| 0 <= l1 < l2 < dirs@.len()
                    ==> dirs@[l1].path@ != dirs@[l2].path@,
                forall|j: int| 0 <= j < dirs@.len()
                    ==> #[trigger] dirs@[j].entries.deep_view()
                        == group_paths(assets@.take(i as int), dirs@[j].path@),
            decreases n - i,
        {
            let ghost prefix = assets@.take(i as int);
            let ghost olddirs = dirs@;
            proof {
                assert(assets@.take(i + 1).drop_last() =~= prefix);
                assert(assets@.take(i + 1).last() == assets@[i as int]);
            }
            match parent_of_path(&assets[i].path) {
                None => {
                    proof {
                        assert(dirs@.map_values(|d: DirListing| d.path@)
                            =~= parent_keys(assets@.take(i + 1)));
                        assert(forall|j: int| 0 <= j < dirs@.len()
                            ==> #[trigger] dirs@[j].entries.deep_view()
                                == group_paths(assets@.take(i + 1), dirs@[j].path@));
                    }
                },
                Some(parent) => {
                    let ghost k = parent@;
                    match find_dir(&dirs, &parent) {
                        Some(j) => {
                            let mut d = dirs.remove(j);
                            d.entries.push(copy_bytes(&assets[i].path));
                            let ghost dnew = d;
                            dirs.insert(j, d);
                            proof {
                                assert(dirs@ =~= olddirs.update(j as int, dnew));
                                assert(dnew.path@ == k);
                                assert(dnew.entries.deep_view()
                                    =~~= olddirs[j as int].entries.deep_view().push(
                                        assets@[i as int].path@));
                                assert(dirs@.map_values(|d2: DirListing| d2.path@)
                                    =~= olddirs.map_values(|d2: DirListing| d2.path@));
                                assert(parent_keys(prefix).contains(k)) by {
                                    assert(parent_keys(prefix)[j as int] == k);
                                }
                                assert(dirs@.map_values(|d2: DirListing| d2.path@)
                                    =~= parent_keys(assets@.take(i + 1)));
                                assert forall|l: int| 0 <= l < dirs@.len()
                                    implies #[trigger] dirs@[l].entries.deep_view()
                                        == group_paths(assets@.take(i + 1), dirs@[l].path@) by {
                                    if l == j {
                                        assert(group_paths(assets@.take(i + 1), k)
                                            =~= group_paths(prefix, k).push(
                                                assets@[i as int].path@));
                                    } else {
                                        assert(dirs@[l].path@ != k);
                                        assert(group_paths(assets@.take(i + 1), dirs@[l].path@)
                                            =~= group_paths(prefix, dirs@[l].path@));
                                    }
                                }
                            }
                        },
                        None => {
                            proof {
                                assert(!parent_keys(prefix).contains(k)) by {
                                    if parent_keys(prefix).contains(k) {
                                        let l = choose|l: int|
                                            0 <= l < parent_keys(prefix).len()
                                                && parent_keys(prefix)[l] == k;
                                        assert(olddirs.map_values(
                                            |d2: DirListing| d2.path@)[l] == k);
                                        assert(olddirs[l].path@ == k);
                                    }
                                }
                                lemma_group_of_missing_key(prefix, k);
                            }
                            let mut entries: Vec<Vec<u8>> = Vec::new();
                            entries.push(copy_bytes(&assets[i].path));
                            let listing = DirListing { path: parent, entries: entries };
                            dirs.push(listing);
                            proof {
                                assert(dirs@.map_values(|d2: DirListing| d2.path@)
                                    =~= olddirs.map_values(|d2: DirListing| d2.path@).push(k));
                                assert(dirs@.map_values(|d2: DirListing| d2.path@)
                                    =~= parent_keys(assets@.take(i + 1)));
                                assert forall|l: int| 0 <= l < dirs@.len()
                                    implies #[trigger] dirs@[l].entries.deep_view()
                                        == group_paths(assets@.take(i + 1), dirs@[l].path@) by {
                                    if l == dirs@.len() - 1 {
                                        assert(dirs@[l].entries.deep_view()
                                            =~~= Seq::<Seq<u8>>::empty().push(
                                                assets@[i as int].path@));
                                        assert(group_paths(assets@.take(i + 1), k)
                                            =~= group_paths(prefix, k).push(
                                                assets@[i as int].path@));
                                    } else {
                                        assert(dirs@[l].path@ != k);
                                        assert(group_paths(assets@.take(i + 1), dirs@[l].path@)
                                            =~= group_paths(prefix, dirs@[l].path@));
                                    }
                                }
                            }
                        },
                    }
                },
            }
            i += 1;
        }
        proof {
            assert(assets@.take(n as int) =~= assets@);
        }
        EmbeddedAssetIo { assets: assets, dirs: dirs }
    }
}

impl EmbeddedAssetIo {
    /// The bytes of the asset at `path`; the not-found error carries the path
    /// back, and comes exactly when no asset has that path.
    pub fn load_path(&self, path: &Vec<u8>) -> (r: Result<Vec<u8>, AssetIoError>)
        ensures
            ({
                match r {
                    Ok(bytes) => exists|i: int| 0 <= i < self.assets@.len()
                        && #[trigger] self.assets@[i].path@ == path@
                        && bytes@ == self.assets@[i].bytes@,
                    Err(e) => (forall|i: int| 0 <= i < self.assets@.len()
                        ==> #[trigger] self.assets@[i].path@ != path@)
                        && (e matches AssetIoError::NotFound(p) && p@ == path@),
                }
            }),
    {
        let n = self.assets.len();
        let mut i: usize = 0;
        while i < n
            invariant
                i <= n,
                n == self.assets@.len(),
                forall|j: int| 0 <= j < i ==> #[trigger] self.assets@[j].path@ != path@,
            decreases n - i,
        {
            if bytes_eq(&self.assets[i].path, path) {
                return Ok(copy_bytes(&self.assets[i].bytes));
            }
            i += 1;
        }
        Err(AssetIoError::NotFound(copy_bytes(path)))
    }

    /// Whether some asset lives directly under `path`.
    pub fn is_directory(&self, path: &Vec<u8>) -> (r: bool)
        ensures
            r == self.dir_keys().contains(path@),
    {
        match find_dir(&self.dirs, path) {
            Some(j) => {
                proof {
                    assert(self.dir_keys()[j as int] == path@);
                }
                true
            },
            None => {
                proof {
                    if self.dir_keys().contains(path@) {
                        let l = choose|l: int| 0 <= l < self.dir_keys().len()
                            && self.dir_keys()[l] == path@;
                        assert(self.dirs@[l].path@ == path@);
                    }
                }
                false
            },
        }
    }

    /// The asset paths directly under `path`, in catalog order; the
    /// not-found error carries the path back, and comes exactly when no
    /// asset lives there.
    pub fn read_directory(&self, path: &Vec<u8>) -> (r: Result<Vec<Vec<u8>>, AssetIoError>)
        requires
            self.well_formed(),
        ensures
            ({
                match r {
                    Ok(list) => self.dir_keys().contains(path@)
                        && list.deep_view() == group_paths(self.assets@, path@),
                    Err(e) => !self.dir_keys().contains(path@)
                        && (e matches AssetIoError::NotFound(p) && p@ == path@),
                }
            }),
    {
        match find_dir(&self.dirs, path) {
            Some(j) => {
                proof {
                    assert(self.dir_keys()[j as int] == path@);
                }
                Ok(copy_paths(&self.dirs[j].entries))
            },
            None => {
                proof {
                    if self.dir_keys().contains(path@) {
                        let l = choose|l: int| 0 <= l < self.dir_keys().len()
                            && self.dir_keys()[l] == path@;
                        assert(self.dirs@[l].path@ == path@);
                    }
                }
                Err(AssetIoError::NotFound(copy_bytes(path)))
            },
        }
    }
}

/// A fresh copy of a list of byte strings.
fn copy_paths(v: &Vec<Vec<u8>>) -> (r: Vec<Vec<u8>>)
    ensures
        r.deep_view() == v.deep_view(),
{
    let mut r: Vec<Vec<u8>> = Vec::new();
    let n = v.len();
    let mut i: usize = 0;
    while i < n
        invariant
            i <= n,
            n == v@.len(),
            r@.len() == i,
            forall|l: int| 0 <= l < i ==> #[trigger] r@[l]@ == v@[l]@,
        decreases n - i,
    {
        r.push(copy_bytes(&v[i]));
        i += 1;
    }
    proof {
        assert(r.deep_view() =~~= v.deep_view());
    }
    r
}

/// The index of the directory with the given path, if the table has one.
fn find_dir(dirs: &Vec<DirListing>, key: &Vec<u8>) -> (r: Option<usize>)
    ensures
        ({
            match r {
                Some(j) => 0 <= j < dirs@.len() && dirs@[j as int].path@ == key@,
                None => forall|j: int| 0 <= j < dirs@.len()
                    ==> #[trigger] dirs@[j].path@ != key@,
            }
        }),
{
    let n = dirs.len();
    let mut i: usize = 0;
    while i < n
        invariant
            i <= n,
            n == dirs@.len(),
            forall|j: int| 0 <= j < i ==> #[trigger] dirs@[j].path@ != key@,
        decreases n - i,
    {
        if bytes_eq(&dirs[i].path, key) {
            return Some(i);
        }
        i += 1;
    }
    None
}

} // verus!
