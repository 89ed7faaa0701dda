//! The size tree: one node per filesystem entry, with totals folded bottom-up.

use vstd::prelude::*;
use vstd::string::StringExecFns;

verus! {

/// One entry of the tree: a file, or a directory with the entries below it.
#[derive(Debug)]
pub struct FileInfo {
    /// Where the entry lives, as shown to the user.
    pub path: String,
    /// Bytes: a file's own length, a directory's total over everything below it.
    pub size: u64,
    /// Whether the entry is a directory.
    pub is_dir: bool,
    /// The entries directly below a directory, in the order they were listed.
    pub children: Option<Vec<FileInfo>>,
    /// The entry itself plus everything below it.
    pub items: u64,
}

/// Why an entry could not be measured.
#[derive(Debug)]
pub enum TraversalError {
    /// The entry's metadata could not be read.
    Stat { path: String, cause: String },
    /// The directory's entries could not be listed.
    List { path: String, cause: String },
}

impl TraversalError {
    /// The path of the entry that could not be measured.
    pub open spec fn path(self) -> Seq<char> {
        match self {
            TraversalError::Stat { path, .. } => path@,
            TraversalError::List { path, .. } => path@,
        }
    }

    /// What the system said of it.
    pub open spec fn cause(self) -> Seq<char> {
        match self {
            TraversalError::Stat { cause, .. } => cause@,
            TraversalError::List { cause, .. } => cause@,
        }
    }

    /// The line that tells the user that an entry was left out.
    pub fn warning(&self) -> (line: String)
        ensures
            line@ == "Warning: Could not traverse "@ + self.path() + ": "@ + self.cause(),
    {
        let mut line = String::from_str("Warning: Could not traverse ");
        match self {
            TraversalError::Stat { path, cause } => {
                line.append(path.as_str());
                line.append(": ");
                line.append(cause.as_str());
            },
            TraversalError::List { path, cause } => {
                line.append(path.as_str());
                line.append(": ");
                line.append(cause.as_str());
            },
        }
        line
    }
}

/// The bytes of `nodes` added up.
pub open spec fn total_size(nodes: Seq<FileInfo>) -> nat
    decreases nodes.len(),
{
    if nodes.len() == 0 {
        0
    } else {
        total_size(nodes.drop_last()) + nodes.last().size as nat
    }
}

/// The item counts of `nodes` added up.
pub open spec fn total_items(nodes: Seq<FileInfo>) -> nat
    decreases nodes.len(),
{
    if nodes.len() == 0 {
        0
    } else {
        total_items(nodes.drop_last()) + nodes.last().items as nat
    }
}

/// The nodes of the outcomes that succeeded, in their order; failures leave no trace.
pub open spec fn successes(outcomes: Seq<Result<FileInfo, TraversalError>>) -> Seq<FileInfo>
    decreases outcomes.len(),
{
    if outcomes.len() == 0 {
        Seq::empty()
    } else {
        match outcomes.last() {
            Ok(node) => successes(outcomes.drop_last()).push(node),
            Err(_) => successes(outcomes.drop_last()),
        }
    }
}

/// Whether every node of `nodes` is well formed.
pub open spec fn all_well_formed(nodes: Seq<FileInfo>) -> bool {
    forall|i: int| 0 <= i < nodes.len() ==> (#[trigger] nodes[i]).well_formed()
}

/// Whether the path `child` lies below the path `parent`: it goes on where
/// `parent` ends.
pub open spec fn is_below(child: Seq<char>, parent: Seq<char>) -> bool {
    parent.len() < child.len() && child.subrange(0, parent.len() as int) == parent
}

/// Whether every node of `nodes` has its path below `parent`.
pub open spec fn all_below(nodes: Seq<FileInfo>, parent: Seq<char>) -> bool {
    forall|i: int| 0 <= i < nodes.len() ==> is_below((#[trigger] nodes[i]).path@, parent)
}

/// Whether the totals of a directory over `nodes` fit the machine's integers.
pub open spec fn totals_in_range(nodes: Seq<FileInfo>) -> bool {
    total_size(nodes) <= u64::MAX && 1 + total_items(nodes) <= u64::MAX
}

impl FileInfo {
    /// The entries directly below this node; none for a file.
    pub open spec fn entries(self) -> Seq<FileInfo> {
        match self.children {
            Some(v) => v@,
            None => Seq::empty(),
        }
    }

    /// The invariant of the tree: only directories carry children, a file counts
    /// as one item, a directory's totals are those of its children, and every
    /// child's path lies below its parent's, all the way down.
    pub open spec fn well_formed(self) -> bool
        decreases self,
    {
        &&& self.children is Some ==> self.is_dir
        &&& !self.is_dir ==> self.items == 1
        &&& self.is_dir ==> self.size == total_size(self.entries()) && self.items == 1
            + total_items(self.entries())
        &&& match self.children {
            Some(v) => forall|i: int|
                0 <= i < v@.len() ==> (#[trigger] v@[i]).well_formed() && is_below(
                    v@[i].path@,
                    self.path@,
                ),
            None => true,
        }
    }

    /// A node with the given fields and no children attached.
    pub fn new(path: String, size: u64, is_dir: bool, items: u64) -> (node: Self)
        ensures
            node.path == path,
            node.size == size,
            node.is_dir == is_dir,
            node.items == items,
            node.children is None,
    {
        FileInfo { path, size, is_dir, children: None, items }
    }

    /// The node of a file that is `len` bytes long.
    pub fn file(path: String, len: u64) -> (node: Self)
        ensures
            node.path == path,
            node.size == len,
            !node.is_dir,
            node.items == 1,
            node.children is None,
            node.well_formed(),
    {
        FileInfo::new(path, len, false, 1)
    }
}

/// Whether `b` is the tree `a` over again: the same fields at every node, the
/// same children in the same order.
pub open spec fn same_tree(a: FileInfo, b: FileInfo) -> bool
    decreases a,
{
    &&& a.path@ == b.path@
    &&& a.size == b.size
    &&& a.is_dir == b.is_dir
    &&& a.items == b.items
    &&& a.children is Some <==> b.children is Some
    &&& a.entries().len() == b.entries().len()
    &&& match a.children {
        Some(v) => forall|i: int|
            0 <= i < v@.len() ==> same_tree(#[trigger] v@[i], b.entries()[i]),
        None => true,
    }
}

/// Trees that are the same, pair by pair, add up to the same totals.
pub proof fn lemma_same_trees_same_totals(xs: Seq<FileInfo>, ys: Seq<FileInfo>)
    requires
        xs.len() == ys.len(),
        forall|i: int| 0 <= i < xs.len() ==> same_tree(#[trigger] xs[i], ys[i]),
    ensures
        total_size(xs) == total_size(ys),
        total_items(xs) == total_items(ys),
    decreases xs.len(),
{
    if xs.len() > 0 {
        assert forall|i: int| 0 <= i < xs.drop_last().len() implies same_tree(
            #[trigger] xs.drop_last()[i],
            ys.drop_last()[i],
        ) by {
            assert(same_tree(xs[i], ys[i]));
        }
        lemma_same_trees_same_totals(xs.drop_last(), ys.drop_last());
        assert(same_tree(xs[xs.len() - 1], ys[xs.len() - 1]));
    }
}

/// A copy of a well-formed tree is well formed.
pub proof fn law_copy_is_well_formed(a: FileInfo, b: FileInfo)
    requires
        same_tree(a, b),
        a.well_formed(),
    ensures
        b.well_formed(),
    decreases a,
{
    match a.children {
        Some(v) => {
            lemma_same_trees_same_totals(a.entries(), b.entries());
            assert forall|i: int| 0 <= i < b.entries().len() implies (
            #[trigger] b.entries()[i]).well_formed() && is_below(b.entries()[i].path@, b.path@) by {
                assert(same_tree(v@[i], b.entries()[i]));
                assert(v@[i].well_formed() && is_below(v@[i].path@, a.path@));
                law_copy_is_well_formed(v@[i], b.entries()[i]);
            }
        },
        None => {},
    }
}

/// Where every entry of a listing was measured, every one of them is kept, in
/// the order of the listing.
pub proof fn law_all_measured_all_kept(outcomes: Seq<Result<FileInfo, TraversalError>>)
    requires
        forall|i: int| 0 <= i < outcomes.len() ==> (#[trigger] outcomes[i]) is Ok,
    ensures
        successes(outcomes).len() == outcomes.len(),
        forall|i: int|
            0 <= i < outcomes.len() ==> (#[trigger] successes(outcomes)[i]) == outcomes[i]->Ok_0,
    decreases outcomes.len(),
{
    if outcomes.len() > 0 {
        assert(outcomes.last() is Ok);
        assert forall|i: int| 0 <= i < outcomes.drop_last().len() implies (
        #[trigger] outcomes.drop_last()[i]) is Ok by {
            assert(outcomes[i] is Ok);
        }
        law_all_measured_all_kept(outcomes.drop_last());
    }
}

/// A failed entry changes nothing: the kept nodes are those of the listing
/// without it.
pub proof fn law_failure_leaves_no_trace(
    outcomes: Seq<Result<FileInfo, TraversalError>>,
    at: int,
)
    requires
        0 <= at < outcomes.len(),
        outcomes[at] is Err,
    ensures
        successes(outcomes) == successes(outcomes.remove(at)),
    decreases outcomes.len(),
{
    if at == outcomes.len() - 1 {
        assert(outcomes.remove(at) == outcomes.drop_last());
    } else {
        law_failure_leaves_no_trace(outcomes.drop_last(), at);
        assert(outcomes.remove(at).drop_last() == outcomes.drop_last().remove(at));
        assert(outcomes.remove(at).last() == outcomes.last());
    }
}

/// Taking one node out takes its share off the totals.
pub proof fn lemma_totals_without(nodes: Seq<FileInfo>, at: int)
    requires
        0 <= at < nodes.len(),
    ensures
        total_size(nodes) == total_size(nodes.remove(at)) + nodes[at].size,
        total_items(nodes) == total_items(nodes.remove(at)) + nodes[at].items,
    decreases nodes.len(),
{
    if at == nodes.len() - 1 {
        assert(nodes.remove(at) == nodes.drop_last());
    } else {
        lemma_totals_without(nodes.drop_last(), at);
        assert(nodes.remove(at).drop_last() == nodes.drop_last().remove(at));
        assert(nodes.remove(at).last() == nodes.last());
    }
}

/// The totals do not depend on the order in which the entries were listed.
pub proof fn law_totals_ignore_order(xs: Seq<FileInfo>, ys: Seq<FileInfo>)
    requires
        xs.to_multiset() == ys.to_multiset(),
    ensures
        total_size(xs) == total_size(ys),
        total_items(xs) == total_items(ys),
    decreases xs.len(),
{
    vstd::seq_lib::to_multiset_len(xs);
    vstd::seq_lib::to_multiset_len(ys);
    if xs.len() > 0 {
        let x = xs.last();
        assert(xs[xs.len() - 1] == x);
        assert(xs.contains(x));
        vstd::seq_lib::to_multiset_contains(xs, x);
        vstd::seq_lib::to_multiset_contains(ys, x);
        let j = choose|j: int| 0 <= j < ys.len() && ys[j] == x;
        vstd::seq_lib::to_multiset_remove(xs, xs.len() - 1);
        vstd::seq_lib::to_multiset_remove(ys, j);
        assert(xs.remove(xs.len() - 1) == xs.drop_last());
        law_totals_ignore_order(xs.drop_last(), ys.remove(j));
        lemma_totals_without(ys, j);
    }
}

/// In a well-formed tree a directory's size is the sum of its children's
/// sizes, and its item count is one more than the sum of theirs; a file
/// counts as one item and has no children.
pub proof fn law_totals_of_node(node: FileInfo)
    requires
        node.well_formed(),
    ensures
        node.is_dir ==> node.size == total_size(node.entries()),
        node.is_dir ==> node.items == 1 + total_items(node.entries()),
        !node.is_dir ==> node.items == 1 && node.children is None,
        all_well_formed(node.entries()),
        all_below(node.entries(), node.path@),
{
}

impl Clone for FileInfo {
    /// A copy of the whole subtree.
    fn clone(&self) -> (copy: Self)
        ensures
            same_tree(*self, copy),
            self.well_formed() ==> copy.well_formed(),
    {
        let copy = self.duplicate();
        proof {
            if self.well_formed() {
                law_copy_is_well_formed(*self, copy);
            }
        }
        copy
    }
}

impl FileInfo {
    /// Copies the node and, one by one, the nodes below it.
    fn duplicate(&self) -> (copy: Self)
        ensures
            same_tree(*self, copy),
        decreases *self,
    {
        let children = match &self.children {
            Some(below) => {
                let mut copies: Vec<FileInfo> = Vec::new();
                let mut i: usize = 0;
                while i < below.len()
                    invariant
                        i <= below.len(),
                        self.children == Some(*below),
                        copies@.len() == i,
                        forall|k: int| 0 <= k < i ==> same_tree(#[trigger] below@[k], copies@[k]),
                    decreases below.len() - i,
                {
                    proof {
                        assert(decreases_to!(*self => self.children));
                        assert(decreases_to!(self.children => self.children->0));
                        assert(decreases_to!(self.children->0 => self.children->0@));
                        assert(decreases_to!(self.children->0@ => self.children->0@[i as int]));
                    }
                    let child = below[i].duplicate();
                    copies.push(child);
                    i += 1;
                }
                Some(copies)
            },
            None => None,
        };
        FileInfo {
            path: self.path.clone(),
            size: self.size,
            is_dir: self.is_dir,
            children,
            items: self.items,
        }
    }
}

/// Whether a directory over the successful `outcomes` can hold its totals.
///
/// Two sparse files are enough to push a sum of lengths past what a `u64`
/// holds, so a caller asks before it calls [`aggregate`].
pub fn totals_fit(outcomes: &Vec<Result<FileInfo, TraversalError>>) -> (fits: bool)
    ensures
        fits == totals_in_range(successes(outcomes@)),
{
    let mut size: u64 = 0;
    let mut items: u64 = 1;
    let mut i: usize = 0;
    while i < outcomes.len()
        invariant
            i <= outcomes.len(),
            size == total_size(successes(outcomes@.take(i as int))),
            items == 1 + total_items(successes(outcomes@.take(i as int))),
        decreases outcomes.len() - i,
    {
        proof {
            assert(outcomes@.take(i + 1).drop_last() == outcomes@.take(i as int));
            lemma_totals_grow(outcomes@, i + 1);
        }
        match &outcomes[i] {
            Ok(node) => {
                assert(successes(outcomes@.take(i + 1)).drop_last() == successes(
                    outcomes@.take(i as int),
                ));
                match (size.checked_add(node.size), items.checked_add(node.items)) {
                    (Some(s), Some(n)) => {
                        size = s;
                        items = n;
                    },
                    _ => {
                        return false;
                    },
                }
            },
            Err(_) => {},
        }
        i += 1;
    }
    proof {
        assert(outcomes@.take(outcomes.len() as int) == outcomes@);
    }
    true
}

/// The totals over a prefix of the outcomes never exceed those over all of them.
proof fn lemma_totals_grow(outcomes: Seq<Result<FileInfo, TraversalError>>, n: int)
    requires
        0 <= n <= outcomes.len(),
    ensures
        total_size(successes(outcomes.take(n))) <= total_size(successes(outcomes)),
        total_items(successes(outcomes.take(n))) <= total_items(successes(outcomes)),
    decreases outcomes.len(),
{
    if n == outcomes.len() {
        assert(outcomes.take(n) == outcomes);
    } else {
        assert(outcomes.drop_last().take(n) == outcomes.take(n));
        lemma_totals_grow(outcomes.drop_last(), n);
        match outcomes.last() {
            Ok(node) => {
                assert(successes(outcomes).drop_last() == successes(outcomes.drop_last()));
            },
            Err(_) => {},
        }
    }
}

/// The node of the directory at `path`, folded from the outcomes of measuring
/// each entry listed in it.
///
/// An entry that could not be measured is left out altogether: it is no child
/// of the directory and adds nothing to its totals. The others become the
/// directory's children in the order of the listing.
pub fn aggregate(path: String, outcomes: Vec<Result<FileInfo, TraversalError>>) -> (node: FileInfo)
    requires
        totals_in_range(successes(outcomes@)),
    ensures
        node.path == path,
        node.is_dir,
        node.children is Some,
        node.entries() == successes(outcomes@),
        node.size == total_size(successes(outcomes@)),
        node.items == 1 + total_items(successes(outcomes@)),
        all_well_formed(successes(outcomes@)) && all_below(successes(outcomes@), path@)
            ==> node.well_formed(),
{
    let ghost all = outcomes@;
    let mut size: u64 = 0;
    let mut items: u64 = 1;
    let mut children: Vec<FileInfo> = Vec::new();
    for outcome in it: outcomes
        invariant
            it.seq() == all,
            totals_in_range(successes(all)),
            children@ == successes(all.take(it.index() as int)),
            size == total_size(children@),
            items == 1 + total_items(children@),
    {
        proof {
            let k = it.index() as int;
            assert(all.take(k + 1).drop_last() == all.take(k));
            assert(all.take(k + 1).last() == outcome);
            lemma_totals_grow(all, k + 1);
        }
        match outcome {
            Ok(child) => {
                assert(children@.push(child).drop_last() == children@);
                size = size + child.size;
                items = items + child.items;
                children.push(child);
            },
            Err(_) => {},
        }
    }
    proof {
        assert(all.take(all.len() as int) == all);
    }
    FileInfo { path, size, is_dir: true, children: Some(children), items }
}

} // verus!
