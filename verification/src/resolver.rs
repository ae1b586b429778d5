//! Include resolution: merging an included tree into the tree that includes
//! it, and the bookkeeping of search directories and of files already read.
//! Reading the files happens outside the library.
use vstd::prelude::*;
use crate::grammar::{merge_labels, merge_node_v, law_merge_node_appends};
use crate::model::{DeviceTree, TreeV, empty_tree_v};
use crate::parser::merge_nodes;
use crate::text::{str_eq, string_of, to_chars};
use crate::west::{path_join, join_path};

verus! {

/// `s` merged into `t`: the version of `t` unless it has none, the plugin
/// flag of either, the reservations and reference nodes of both in order,
/// the roots merged; the includes of `t` stay as they are.
pub open spec fn merge_tree_v(t: TreeV, s: TreeV) -> TreeV {
    TreeV {
        version: if t.version is None {
            s.version
        } else {
            t.version
        },
        is_plugin: t.is_plugin || s.is_plugin,
        memory_reservations: t.memory_reservations + s.memory_reservations,
        includes: t.includes,
        root: match s.root {
            Some(sr) => match t.root {
                Some(tr) => Some(merge_node_v(tr, sr)),
                None => Some(sr),
            },
            None => t.root,
        },
        reference_nodes: t.reference_nodes + s.reference_nodes,
    }
}

/// Merging an included tree: where both trees have a root, the merged root
/// has the children of the including root followed by those of the included
/// one, and its properties likewise; where only the included tree has one,
/// that root is taken as it is; the reference nodes and reservations of the
/// included tree come after those of the including tree; the version of the
/// including tree stands unless it has none; the result is a plugin when
/// either is; the includes stay those of the including tree.
pub proof fn law_merge_trees_appends(t: TreeV, s: TreeV)
    ensures
        (t.root is Some && s.root is Some) ==> {
            let r = merge_tree_v(t, s).root->0;
            &&& merge_tree_v(t, s).root is Some
            &&& r.children.len() == t.root->0.children.len() + s.root->0.children.len()
            &&& forall|i: int|
                0 <= i < t.root->0.children.len() ==> #[trigger] r.children[i]
                    == t.root->0.children[i]
            &&& forall|i: int|
                0 <= i < s.root->0.children.len() ==> #[trigger] r.children[t.root->0.children.len()
                    + i] == s.root->0.children[i]
            &&& r.properties.len() == t.root->0.properties.len() + s.root->0.properties.len()
        },
        (t.root is None && s.root is Some) ==> merge_tree_v(t, s).root == s.root,
        s.root is None ==> merge_tree_v(t, s).root == t.root,
        merge_tree_v(t, s).reference_nodes.len() == t.reference_nodes.len()
            + s.reference_nodes.len(),
        forall|i: int|
            0 <= i < s.reference_nodes.len() ==> #[trigger] merge_tree_v(t, s).reference_nodes[t.reference_nodes.len()
                + i] == s.reference_nodes[i],
        forall|i: int|
            0 <= i < t.reference_nodes.len() ==> #[trigger] merge_tree_v(t, s).reference_nodes[i]
                == t.reference_nodes[i],
        merge_tree_v(t, s).memory_reservations.len() == t.memory_reservations.len()
            + s.memory_reservations.len(),
        forall|i: int|
            0 <= i < t.memory_reservations.len() ==> #[trigger] merge_tree_v(
                t,
                s,
            ).memory_reservations[i] == t.memory_reservations[i],
        forall|i: int|
            0 <= i < s.memory_reservations.len() ==> #[trigger] merge_tree_v(
                t,
                s,
            ).memory_reservations[t.memory_reservations.len() + i] == s.memory_reservations[i],
        t.version is Some ==> merge_tree_v(t, s).version == t.version,
        t.version is None ==> merge_tree_v(t, s).version == s.version,
        merge_tree_v(t, s).is_plugin <==> (t.is_plugin || s.is_plugin),
        merge_tree_v(t, s).includes == t.includes,
{
    if t.root is Some && s.root is Some {
        law_merge_node_appends(t.root->0, s.root->0);
    }
}

/// Merges the tree of an included file into the tree that includes it.
pub fn merge_trees(target: &mut DeviceTree, source: DeviceTree)
    ensures
        final(target)@ == merge_tree_v(old(target)@, source@),
{
    let ghost t0 = target@;
    let ghost s0 = source@;
    let mut source = source;
    if target.version.is_none() {
        target.version = source.version;
    }
    target.is_plugin = target.is_plugin || source.is_plugin;
    target.memory_reservations.append(&mut source.memory_reservations);
    let src_root = source.root.take();
    match src_root {
        Some(sr) => {
            let tr = target.root.take();
            match tr {
                Some(t) => {
                    let mut t = t;
                    merge_nodes(&mut t, sr);
                    target.root = Some(t);
                },
                None => {
                    target.root = Some(sr);
                },
            }
        },
        None => {},
    }
    let ghost rn_before = target.reference_nodes@;
    let ghost rn_src = source.reference_nodes@;
    target.reference_nodes.append(&mut source.reference_nodes);
    proof {
        assert(target@.reference_nodes =~= t0.reference_nodes + s0.reference_nodes);
        assert(target@.includes =~= t0.includes);
    }
}

/// Merging a tree that holds nothing leaves the target as it was.
pub proof fn law_merge_empty_source(t: TreeV)
    ensures
        merge_tree_v(t, empty_tree_v()) == t,
{
    assert(merge_tree_v(t, empty_tree_v()).memory_reservations =~= t.memory_reservations);
    assert(merge_tree_v(t, empty_tree_v()).reference_nodes =~= t.reference_nodes);
}

/// Merging into a tree that holds nothing gives the source, but for its
/// includes, which are not carried over.
pub proof fn law_merge_into_empty(s: TreeV)
    ensures
        merge_tree_v(empty_tree_v(), s) == (TreeV { includes: Seq::empty(), ..s }),
{
    assert(merge_tree_v(empty_tree_v(), s).memory_reservations =~= s.memory_reservations);
    assert(merge_tree_v(empty_tree_v(), s).reference_nodes =~= s.reference_nodes);
}

/// Merging labels adds each label of the source that is not there yet:
/// the labels already present stay first and in order, no label is held
/// twice, and every label of either side is held.
pub proof fn law_merge_labels(t: Seq<Seq<char>>, src: Seq<Seq<char>>)
    requires
        t.no_duplicates(),
    ensures
        merge_labels(t, src).no_duplicates(),
        t.len() <= merge_labels(t, src).len(),
        merge_labels(t, src).subrange(0, t.len() as int) == t,
        forall|x: Seq<char>|
            #[trigger] merge_labels(t, src).contains(x) <==> (t.contains(x) || src.contains(x)),
    decreases src.len(),
{
    if src.len() > 0 {
        let h = src[0];
        let rest = src.drop_first();
        assert forall|x: Seq<char>| src.contains(x) <==> (x == h || rest.contains(x)) by {
            if src.contains(x) {
                let j = choose|j: int| 0 <= j < src.len() && src[j] == x;
                if j > 0 {
                    assert(rest[j - 1] == x);
                }
            }
            if rest.contains(x) {
                let j = choose|j: int| 0 <= j < rest.len() && rest[j] == x;
                assert(src[j + 1] == x);
            }
            if x == h {
                assert(src[0] == x);
            }
        }
        if t.contains(h) {
            law_merge_labels(t, rest);
        } else {
            let t2 = t.push(h);
            assert(t2.no_duplicates()) by {
                assert forall|a: int, b: int| 0 <= a < b < t2.len() implies t2[a] != t2[b] by {
                    if b == t.len() {
                        assert(t2[a] == t[a]);
                        assert(t.contains(t[a]));
                    }
                }
            }
            assert forall|x: Seq<char>| t2.contains(x) <==> (t.contains(x) || x == h) by {
                if t2.contains(x) {
                    let j = choose|j: int| 0 <= j < t2.len() && t2[j] == x;
                    if j < t.len() {
                        assert(t[j] == x);
                    }
                }
                if t.contains(x) {
                    let j = choose|j: int| 0 <= j < t.len() && t[j] == x;
                    assert(t2[j] == x);
                }
                if x == h {
                    assert(t2[t.len() as int] == x);
                }
            }
            law_merge_labels(t2, rest);
            let m = merge_labels(t2, rest);
            assert(m.subrange(0, t.len() as int) =~= t) by {
                assert(m.subrange(0, t2.len() as int) == t2);
                assert forall|k: int| 0 <= k < t.len() implies m.subrange(0, t.len() as int)[k]
                    == t[k] by {
                    assert(m.subrange(0, t2.len() as int)[k] == t2[k]);
                }
            }
        }
    } else {
        assert(t.subrange(0, t.len() as int) =~= t);
    }
}

/// Reading a file a second time is never fresh: its includes are followed
/// once only, so an include cycle ends.
pub proof fn law_second_read_not_fresh(r: ResolverV, path: Seq<char>)
    ensures
        r.resolved.insert(path).contains(path),
        r.resolved.insert(path).insert(path) == r.resolved.insert(path),
{
    assert(r.resolved.insert(path).insert(path) =~= r.resolved.insert(path));
}

/// The state of include resolution: the directories searched for included
/// files, and the files already read (so that an include cycle ends).
pub struct Resolver {
    search_paths: Vec<String>,
    resolved: Vec<String>,
}

/// The mathematical form of a resolver.
pub struct ResolverV {
    pub search_paths: Seq<Seq<char>>,
    pub resolved: Set<Seq<char>>,
}

impl View for Resolver {
    type V = ResolverV;

    closed spec fn view(&self) -> ResolverV {
        ResolverV {
            search_paths: self.search_paths@.map_values(|s: String| s@),
            resolved: self.resolved@.map_values(|s: String| s@).to_set(),
        }
    }
}

/// The paths to try, in order, for an included `path`: the path itself when
/// it is absolute, then the path under each search directory.
pub open spec fn candidates_of(search: Seq<Seq<char>>, path: Seq<char>) -> Seq<Seq<char>> {
    (if path.len() > 0 && path[0] == '/' {
        seq![path]
    } else {
        Seq::empty()
    }) + search.map_values(|d: Seq<char>| path_join(d, path))
}

impl Resolver {
    /// A resolver with no search directory and nothing read yet.
    pub fn new() -> (r: Resolver)
        ensures
            r@.search_paths == Seq::<Seq<char>>::empty(),
            r@.resolved == Set::<Seq<char>>::empty(),
    {
        let r = Resolver { search_paths: Vec::new(), resolved: Vec::new() };
        assert(r@.search_paths =~= Seq::<Seq<char>>::empty());
        assert(r@.resolved =~= Set::<Seq<char>>::empty());
        r
    }

    /// Adds a directory to search when resolving include paths.
    pub fn add_search_path(&mut self, path: &str)
        ensures
            final(self)@.search_paths == old(self)@.search_paths.push(path@),
            final(self)@.resolved == old(self)@.resolved,
    {
        let ghost before = self.search_paths@;
        self.search_paths.push(string_of(path));
        assert(self.search_paths@.map_values(|s: String| s@) =~= before.map_values(
            |s: String| s@,
        ).push(path@));
    }

    /// The search directories, in order.
    pub fn search_paths(&self) -> (r: &Vec<String>)
        ensures
            r@.map_values(|s: String| s@) == self@.search_paths,
    {
        &self.search_paths
    }

    /// Adds the directory of a file just read to the search directories,
    /// unless it is among them already.
    pub fn add_file_dir(&mut self, dir: &str)
        ensures
            final(self)@.resolved == old(self)@.resolved,
            old(self)@.search_paths.contains(dir@) ==> final(self)@.search_paths == old(
                self,
            )@.search_paths,
            !old(self)@.search_paths.contains(dir@) ==> final(self)@.search_paths == old(
                self,
            )@.search_paths.push(dir@),
    {
        let mut k: usize = 0;
        while k < self.search_paths.len()
            invariant
                k <= self.search_paths.len(),
                forall|i: int| 0 <= i < k ==> #[trigger] self.search_paths@[i]@ != dir@,
            decreases self.search_paths.len() - k,
        {
            if str_eq(self.search_paths[k].as_str(), dir) {
                assert(self@.search_paths[k as int] == dir@);
                return;
            }
            k = k + 1;
        }
        assert(!self@.search_paths.contains(dir@)) by {
            if self@.search_paths.contains(dir@) {
                let i = choose|i: int| 0 <= i < self@.search_paths.len() && self@.search_paths[i]
                    == dir@;
                assert(self.search_paths@[i]@ == dir@);
            }
        }
        self.add_search_path(dir);
    }

    /// Records that the file at `path` is being read.  Returns `false`, and
    /// changes nothing, when it was read before: its includes are then not
    /// followed again.
    pub fn start_file(&mut self, path: &str) -> (fresh: bool)
        ensures
            fresh == !old(self)@.resolved.contains(path@),
            final(self)@.resolved == old(self)@.resolved.insert(path@),
            final(self)@.search_paths == old(self)@.search_paths,
    {
        let ghost names = self.resolved@.map_values(|s: String| s@);
        let mut k: usize = 0;
        while k < self.resolved.len()
            invariant
                k <= self.resolved.len(),
                names == self.resolved@.map_values(|s: String| s@),
                forall|i: int| 0 <= i < k ==> #[trigger] self.resolved@[i]@ != path@,
            decreases self.resolved.len() - k,
        {
            if str_eq(self.resolved[k].as_str(), path) {
                assert(names[k as int] == path@);
                assert(names.to_set().contains(path@));
                assert(self@.resolved.insert(path@) =~= self@.resolved);
                return false;
            }
            k = k + 1;
        }
        assert(!names.contains(path@)) by {
            if names.contains(path@) {
                let i = choose|i: int| 0 <= i < names.len() && names[i] == path@;
                assert(self.resolved@[i]@ == path@);
            }
        }
        let ghost before = self.resolved@;
        self.resolved.push(string_of(path));
        assert(self.resolved@.map_values(|s: String| s@) =~= names.push(path@));
        proof {
            names.lemma_push_to_set_commute(path@);
        }
        true
    }

    /// The paths to try, in order, for an included path: the path itself
    /// when absolute, then the path under each search directory.  The first
    /// that exists is the included file.
    pub fn include_candidates(&self, path: &str) -> (r: Vec<String>)
        ensures
            r@.map_values(|s: String| s@) == candidates_of(self@.search_paths, path@),
    {
        let p = to_chars(path);
        let mut r: Vec<String> = Vec::new();
        if p.len() > 0 && p[0] == '/' {
            r.push(string_of(path));
        }
        let ghost head = r@.map_values(|s: String| s@);
        assert(head =~= (if path@.len() > 0 && path@[0] == '/' {
            seq![path@]
        } else {
            Seq::empty()
        }));
        let mut k: usize = 0;
        while k < self.search_paths.len()
            invariant
                k <= self.search_paths.len(),
                r@.map_values(|s: String| s@) =~= head + self@.search_paths.take(
                    k as int,
                ).map_values(|d: Seq<char>| path_join(d, path@)),
            decreases self.search_paths.len() - k,
        {
            let ghost before = r@.map_values(|s: String| s@);
            let c = join_path(self.search_paths[k].as_str(), path);
            r.push(c);
            assert(self@.search_paths.take(k + 1).map_values(|d: Seq<char>| path_join(d, path@))
                =~= self@.search_paths.take(k as int).map_values(
                |d: Seq<char>| path_join(d, path@),
            ).push(path_join(self@.search_paths[k as int], path@)));
            assert(r@.map_values(|s: String| s@) =~= before.push(c@));
            k = k + 1;
        }
        assert(self@.search_paths.take(k as int) =~= self@.search_paths);
        r
    }
}

} // verus!
