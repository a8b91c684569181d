//! Discovery of the files to mirror: which walked entries are selected, and
//! where each one lands under the other root.
use vstd::prelude::*;
use vstd::string::StrSliceExecFns;

verus! {

/// A path as the sequence of its components.
pub type PathModel = Seq<Seq<char>>;

/// The components of a path, as character sequences.
pub open spec fn comps(v: Seq<String>) -> PathModel {
    v.map_values(|s: String| s@)
}

/// One entry met while walking a tree: its full path, as components, and
/// whether it is a regular file.
#[derive(Clone, Debug)]
pub struct WalkEntry {
    pub components: Vec<String>,
    pub is_file: bool,
}

impl View for WalkEntry {
    type V = (PathModel, bool);

    open spec fn view(&self) -> (PathModel, bool) {
        (comps(self.components@), self.is_file)
    }
}

/// A file found under the scanned root and the path it maps to under the
/// other root.
#[derive(Clone, Debug)]
pub struct MirrorPair {
    pub source: Vec<String>,
    pub destination: Vec<String>,
}

impl View for MirrorPair {
    type V = (PathModel, PathModel);

    open spec fn view(&self) -> (PathModel, PathModel) {
        (comps(self.source@), comps(self.destination@))
    }
}

pub open spec fn entries_view(v: Seq<WalkEntry>) -> Seq<(PathModel, bool)> {
    v.map_values(|e: WalkEntry| e@)
}

pub open spec fn pairs_view(v: Seq<MirrorPair>) -> Seq<(PathModel, PathModel)> {
    v.map_values(|p: MirrorPair| p@)
}

/// `s` ends with `suffix`.
pub open spec fn has_suffix(s: Seq<char>, suffix: Seq<char>) -> bool {
    suffix.len() <= s.len() && s.subrange(s.len() - suffix.len(), s.len() as int) == suffix
}

/// `path` lies at or below `root`.
pub open spec fn under(root: PathModel, path: PathModel) -> bool {
    root.len() <= path.len() && path.subrange(0, root.len() as int) == root
}

/// The part of `path` below `root`.
pub open spec fn relative(root: PathModel, path: PathModel) -> PathModel {
    path.subrange(root.len() as int, path.len() as int)
}

/// An entry is selected when it is a regular file strictly below the root
/// whose name ends with the suffix.
pub open spec fn selected(root: PathModel, e: (PathModel, bool), suffix: Seq<char>) -> bool {
    &&& e.1
    &&& under(root, e.0)
    &&& root.len() < e.0.len()
    &&& has_suffix(e.0.last(), suffix)
}

/// The pair of a selected entry: the relative part is put under `other`.
pub open spec fn pair_of(root: PathModel, other: PathModel, path: PathModel) -> (PathModel, PathModel) {
    (path, other + relative(root, path))
}

/// The pairs that discovery yields, in the order of the walk.
pub open spec fn discovered(
    root: PathModel,
    other: PathModel,
    entries: Seq<(PathModel, bool)>,
    suffix: Seq<char>,
) -> Seq<(PathModel, PathModel)>
    decreases entries.len(),
{
    if entries.len() == 0 {
        seq![]
    } else {
        let prev = discovered(root, other, entries.drop_last(), suffix);
        let e = entries.last();
        if selected(root, e, suffix) {
            prev.push(pair_of(root, other, e.0))
        } else {
            prev
        }
    }
}

/// Whether `name` ends with `suffix`, compared character by character.
pub fn name_has_suffix(name: &String, suffix: &String) -> (r: bool)
    ensures
        r == has_suffix(name@, suffix@),
{
    let n = name.as_str().unicode_len();
    let k = suffix.as_str().unicode_len();
    if k > n {
        return false;
    }
    let start: usize = n - k;
    let mut i: usize = 0;
    while i < k
        invariant
            n == name@.len(),
            k == suffix@.len(),
            k <= n,
            start == n - k,
            i <= k,
            forall|j: int| 0 <= j < i ==> name@[start + j] == suffix@[j],
        decreases k - i,
    {
        if name.as_str().get_char(start + i) != suffix.as_str().get_char(i) {
            assert(name@.subrange(start as int, n as int)[i as int] != suffix@[i as int]);
            return false;
        }
        i = i + 1;
    }
    assert(name@.subrange(start as int, n as int) =~= suffix@);
    true
}

/// Whether `path` lies at or below `root`, compared component by component.
pub fn is_under(root: &Vec<String>, path: &Vec<String>) -> (r: bool)
    ensures
        r == under(comps(root@), comps(path@)),
{
    if root.len() > path.len() {
        return false;
    }
    let mut i: usize = 0;
    while i < root.len()
        invariant
            root.len() <= path.len(),
            i <= root.len(),
            forall|j: int| 0 <= j < i ==> root@[j]@ == path@[j]@,
        decreases root.len() - i,
    {
        if root[i] != path[i] {
            assert(comps(path@).subrange(0, root.len() as int)[i as int] != comps(root@)[i as int]);
            return false;
        }
        i = i + 1;
    }
    assert(comps(path@).subrange(0, root.len() as int) =~= comps(root@));
    true
}

/// `other` followed by the components of `path` from position `from` on.
pub fn rerooted(other: &Vec<String>, path: &Vec<String>, from: usize) -> (r: Vec<String>)
    requires
        from <= path.len(),
    ensures
        comps(r@) == comps(other@) + comps(path@).subrange(from as int, path.len() as int),
{
    let mut r: Vec<String> = Vec::new();
    let mut i: usize = 0;
    while i < other.len()
        invariant
            i <= other.len(),
            comps(r@) =~= comps(other@).subrange(0, i as int),
        decreases other.len() - i,
    {
        let ghost before = r@;
        r.push(other[i].clone());
        assert(comps(r@) =~= comps(before).push(other@[i as int]@));
        i = i + 1;
    }
    assert(comps(other@).subrange(0, other.len() as int) =~= comps(other@));
    let mut j: usize = from;
    while j < path.len()
        invariant
            from <= j <= path.len(),
            comps(r@) =~= comps(other@) + comps(path@).subrange(from as int, j as int),
        decreases path.len() - j,
    {
        let ghost before = r@;
        r.push(path[j].clone());
        assert(comps(r@) =~= comps(before).push(path@[j as int]@));
        j = j + 1;
    }
    r
}

fn clone_path(p: &Vec<String>) -> (r: Vec<String>)
    ensures
        comps(r@) == comps(p@),
{
    let empty: Vec<String> = Vec::new();
    let r = rerooted(&empty, p, 0);
    assert(comps(empty@) =~= Seq::<Seq<char>>::empty());
    assert(comps(p@).subrange(0, p.len() as int) =~= comps(p@));
    assert(Seq::<Seq<char>>::empty() + comps(p@) =~= comps(p@));
    r
}

/// The pairs to mirror: every regular file strictly below `scan_root` whose
/// name ends with `suffix`, each with its path re-rooted under `other_root`,
/// in the order in which the walk met them.
pub fn discover(
    scan_root: &Vec<String>,
    other_root: &Vec<String>,
    entries: &Vec<WalkEntry>,
    suffix: &String,
) -> (r: Vec<MirrorPair>)
    ensures
        pairs_view(r@) == discovered(comps(scan_root@), comps(other_root@), entries_view(entries@), suffix@),
{
    let ghost root = comps(scan_root@);
    let ghost other = comps(other_root@);
    let mut r: Vec<MirrorPair> = Vec::new();
    let mut i: usize = 0;
    while i < entries.len()
        invariant
            i <= entries.len(),
            root == comps(scan_root@),
            other == comps(other_root@),
            pairs_view(r@) == discovered(root, other, entries_view(entries@.subrange(0, i as int)), suffix@),
        decreases entries.len() - i,
    {
        let e = &entries[i];
        let n = e.components.len();
        let keep = e.is_file && scan_root.len() < n && is_under(scan_root, &e.components)
            && name_has_suffix(&e.components[n - 1], suffix);
        let ghost before = r@;
        if keep {
            let dest = rerooted(other_root, &e.components, scan_root.len());
            let src = clone_path(&e.components);
            r.push(MirrorPair { source: src, destination: dest });
        }
        proof {
            let prefix = entries_view(entries@.subrange(0, i + 1));
            assert(prefix.drop_last() =~= entries_view(entries@.subrange(0, i as int)));
            assert(prefix.last() == e@);
            if n > 0 {
                assert(comps(e.components@).last() == e.components@[n - 1]@);
            }
            if keep {
                assert(pairs_view(r@) =~= pairs_view(before).push(r@.last()@));
            } else {
                assert(pairs_view(r@) =~= pairs_view(before));
            }
        }
        i = i + 1;
    }
    assert(entries@.subrange(0, entries.len() as int) =~= entries@);
    r
}

impl MirrorPair {
    /// A copy of the pair.
    pub fn duplicate(&self) -> (r: MirrorPair)
        ensures
            r@ == self@,
    {
        MirrorPair { source: clone_path(&self.source), destination: clone_path(&self.destination) }
    }

    /// The directory that must exist before the destination can be written:
    /// the destination without its last component.
    pub fn destination_parent(&self) -> (r: Vec<String>)
        requires
            self.destination.len() > 0,
        ensures
            comps(r@) == comps(self.destination@).drop_last(),
    {
        let mut r: Vec<String> = Vec::new();
        let mut i: usize = 0;
        let n = self.destination.len() - 1;
        while i < n
            invariant
                n + 1 == self.destination.len(),
                i <= n,
                comps(r@) =~= comps(self.destination@).subrange(0, i as int),
            decreases n - i,
        {
            let ghost before = r@;
            r.push(self.destination[i].clone());
            assert(comps(r@) =~= comps(before).push(self.destination@[i as int]@));
            i = i + 1;
        }
        r
    }
}

/// A path belongs to the discovered pairs exactly when it is the pair of a
/// selected entry of the walk.
pub proof fn lemma_discovered_member(
    root: PathModel,
    other: PathModel,
    entries: Seq<(PathModel, bool)>,
    suffix: Seq<char>,
)
    ensures
        forall|x: (PathModel, PathModel)|
            discovered(root, other, entries, suffix).contains(x) <==> exists|j: int|
                0 <= j < entries.len() && selected(root, #[trigger] entries[j], suffix) && x
                    == pair_of(root, other, entries[j].0),
    decreases entries.len(),
{
    if entries.len() > 0 {
        let prev = entries.drop_last();
        lemma_discovered_member(root, other, prev, suffix);
        let r = discovered(root, other, entries, suffix);
        let rp = discovered(root, other, prev, suffix);
        assert forall|x: (PathModel, PathModel)|
            r.contains(x) <==> exists|j: int|
                0 <= j < entries.len() && selected(root, #[trigger] entries[j], suffix) && x
                    == pair_of(root, other, entries[j].0) by {
            if r.contains(x) {
                if rp.contains(x) {
                    let j = choose|j: int|
                        0 <= j < prev.len() && selected(root, #[trigger] prev[j], suffix) && x
                            == pair_of(root, other, prev[j].0);
                    assert(entries[j] == prev[j]);
                } else {
                    let k = r.index_of(x);
                    assert(r[k] == x);
                    assert(entries[entries.len() - 1] == entries.last());
                }
            }
            if exists|j: int|
                0 <= j < entries.len() && selected(root, #[trigger] entries[j], suffix) && x
                    == pair_of(root, other, entries[j].0) {
                let j = choose|j: int|
                    0 <= j < entries.len() && selected(root, #[trigger] entries[j], suffix) && x
                        == pair_of(root, other, entries[j].0);
                if j < prev.len() {
                    assert(prev[j] == entries[j]);
                    assert(rp.contains(x));
                    let k = rp.index_of(x);
                    assert(r[k] == x);
                } else {
                    assert(r[r.len() - 1] == x);
                }
            }
        }
    }
}

/// Structure preservation: in every discovered pair the source lies under
/// the scanned root, the destination under the other root, and the two
/// paths relative to their roots are equal.
pub proof fn lemma_structure_preserved(
    root: PathModel,
    other: PathModel,
    entries: Seq<(PathModel, bool)>,
    suffix: Seq<char>,
)
    ensures
        forall|i: int|
            0 <= i < discovered(root, other, entries, suffix).len() ==> {
                let p = #[trigger] discovered(root, other, entries, suffix)[i];
                &&& under(root, p.0)
                &&& under(other, p.1)
                &&& relative(other, p.1) == relative(root, p.0)
            },
{
    let r = discovered(root, other, entries, suffix);
    lemma_discovered_member(root, other, entries, suffix);
    assert forall|i: int| 0 <= i < r.len() implies {
        let p = #[trigger] r[i];
        &&& under(root, p.0)
        &&& under(other, p.1)
        &&& relative(other, p.1) == relative(root, p.0)
    } by {
        assert(r.contains(r[i]));
        let j = choose|j: int|
            0 <= j < entries.len() && selected(root, #[trigger] entries[j], suffix) && r[i]
                == pair_of(root, other, entries[j].0);
        let d = other + relative(root, entries[j].0);
        assert(d.subrange(0, other.len() as int) =~= other);
        assert(relative(other, d) =~= relative(root, entries[j].0));
    }
}

/// Suffix filter: a regular file strictly below the scanned root is the
/// source of some discovered pair exactly when its name ends with the
/// suffix, and every discovered source has a name with that suffix.
pub proof fn lemma_suffix_filter(
    root: PathModel,
    other: PathModel,
    entries: Seq<(PathModel, bool)>,
    suffix: Seq<char>,
)
    ensures
        forall|j: int|
            0 <= j < entries.len() && (#[trigger] entries[j]).1 && under(root, entries[j].0)
                && root.len() < entries[j].0.len() ==> ((exists|i: int|
                0 <= i < discovered(root, other, entries, suffix).len()
                    && #[trigger] discovered(root, other, entries, suffix)[i].0 == entries[j].0)
                <==> has_suffix(entries[j].0.last(), suffix)),
        forall|i: int|
            0 <= i < discovered(root, other, entries, suffix).len() ==> has_suffix(
                (#[trigger] discovered(root, other, entries, suffix)[i]).0.last(),
                suffix,
            ),
{
    let r = discovered(root, other, entries, suffix);
    lemma_discovered_member(root, other, entries, suffix);
    assert forall|i: int| 0 <= i < r.len() implies has_suffix((#[trigger] r[i]).0.last(), suffix) by {
        assert(r.contains(r[i]));
    }
    assert forall|j: int|
        0 <= j < entries.len() && (#[trigger] entries[j]).1 && under(root, entries[j].0)
            && root.len() < entries[j].0.len() implies ((exists|i: int|
        0 <= i < r.len() && #[trigger] r[i].0 == entries[j].0) <==> has_suffix(
        entries[j].0.last(),
        suffix,
    )) by {
        if has_suffix(entries[j].0.last(), suffix) {
            let x = pair_of(root, other, entries[j].0);
            assert(r.contains(x));
            let i = r.index_of(x);
            assert(r[i].0 == entries[j].0);
        }
        if exists|i: int| 0 <= i < r.len() && #[trigger] r[i].0 == entries[j].0 {
            let i = choose|i: int| 0 <= i < r.len() && #[trigger] r[i].0 == entries[j].0;
            assert(r.contains(r[i]));
        }
    }
}

/// The pair with its two paths exchanged.
pub open spec fn swapped(p: (PathModel, PathModel)) -> (PathModel, PathModel) {
    (p.1, p.0)
}

/// The regular files that a forward pass leaves under the other root.
pub open spec fn destination_files(pairs: Seq<(PathModel, PathModel)>) -> Set<(PathModel, bool)> {
    pairs.map_values(|p: (PathModel, PathModel)| (p.1, true)).to_set()
}

/// Symmetry: walking the tree that a forward pass produced, with the roots
/// exchanged, yields the forward pairs with source and destination
/// exchanged.
pub proof fn lemma_symmetry(
    root: PathModel,
    other: PathModel,
    entries: Seq<(PathModel, bool)>,
    backup_entries: Seq<(PathModel, bool)>,
    suffix: Seq<char>,
)
    requires
        backup_entries.to_set() == destination_files(discovered(root, other, entries, suffix)),
    ensures
        discovered(other, root, backup_entries, suffix).to_set() == discovered(
            root,
            other,
            entries,
            suffix,
        ).map_values(|p: (PathModel, PathModel)| swapped(p)).to_set(),
{
    let fw = discovered(root, other, entries, suffix);
    let bw = discovered(other, root, backup_entries, suffix);
    let sw = fw.map_values(|p: (PathModel, PathModel)| swapped(p));
    let dests = fw.map_values(|p: (PathModel, PathModel)| (p.1, true));
    lemma_discovered_member(root, other, entries, suffix);
    lemma_discovered_member(other, root, backup_entries, suffix);
    lemma_structure_preserved(root, other, entries, suffix);
    assert forall|x: (PathModel, PathModel)| bw.contains(x) implies sw.contains(x) by {
        let j = choose|j: int|
            0 <= j < backup_entries.len() && selected(other, #[trigger] backup_entries[j], suffix)
                && x == pair_of(other, root, backup_entries[j].0);
        assert(backup_entries.to_set().contains(backup_entries[j]));
        let i = dests.index_of(backup_entries[j]);
        assert(dests[i] == (fw[i].1, true));
        let p = fw[i];
        assert(under(root, p.0));
        assert(p.0.subrange(0, root.len() as int) =~= root);
        assert(root + relative(root, p.0) =~= p.0);
        assert(sw[i] == x);
    }
    assert forall|x: (PathModel, PathModel)| sw.contains(x) implies bw.contains(x) by {
        let i = sw.index_of(x);
        let p = fw[i];
        assert(x == swapped(p));
        assert(dests[i] == (p.1, true));
        assert(dests.contains(dests[i]));
        assert(backup_entries.to_set().contains((p.1, true)));
        let j = backup_entries.index_of((p.1, true));
        assert(fw.contains(p));
        let k = choose|k: int|
            0 <= k < entries.len() && selected(root, #[trigger] entries[k], suffix) && p
                == pair_of(root, other, entries[k].0);
        assert(p.1.subrange(0, other.len() as int) =~= other);
        assert(p.1.last() == p.0.last());
        assert(p.0.subrange(0, root.len() as int) =~= root);
        assert(root + relative(root, p.0) =~= p.0);
        assert(selected(other, backup_entries[j], suffix));
    }
    assert(bw.to_set() =~= sw.to_set());
}

/// The files under the other root after a pass over `pairs`, given the files
/// that were there before: copies replace content, they add no second file.
pub open spec fn files_after_pass(
    existing: Set<PathModel>,
    pairs: Seq<(PathModel, PathModel)>,
) -> Set<PathModel> {
    existing.union(pairs.map_values(|p: (PathModel, PathModel)| p.1).to_set())
}

/// Idempotence of the backup tree: a second pass over the same source tree
/// discovers the same pairs and leaves the set of files under the other root
/// as the first pass left it.
pub proof fn lemma_second_pass_same_files(
    root: PathModel,
    other: PathModel,
    entries: Seq<(PathModel, bool)>,
    suffix: Seq<char>,
    existing: Set<PathModel>,
)
    ensures
        files_after_pass(
            files_after_pass(existing, discovered(root, other, entries, suffix)),
            discovered(root, other, entries, suffix),
        ) == files_after_pass(existing, discovered(root, other, entries, suffix)),
{
    let pairs = discovered(root, other, entries, suffix);
    assert(files_after_pass(files_after_pass(existing, pairs), pairs) =~= files_after_pass(
        existing,
        pairs,
    ));
}

} // verus!
