//! The directory tree: the file records of all index files, filed under
//! their paths.
//!
//! A node has a name, children, and possibly a file record. A node with a
//! record is a leaf, whether or not it has children: a file and a directory
//! can share a path.

use crate::idx::{record_views, FileRecord, FileRecordView};
use crate::text::{borrowed_texts, path_segments, split_path, texts};
use vstd::prelude::*;
use vstd::string::*;

verus! {

/// A node of the directory tree.
#[derive(Debug)]
pub struct TreeNode {
    pub name: String,
    pub children: Vec<TreeNode>,
    pub file: Option<FileRecord>,
}

/// The position of the first of `children` that is named `name`, or their
/// number when none is.
pub open spec fn child_position(children: Seq<TreeNode>, name: Seq<char>) -> int
    decreases children.len(),
{
    if children.len() == 0 {
        0
    } else if children[0].name@ == name {
        0
    } else {
        1 + child_position(children.drop_first(), name)
    }
}

/// `child_position` is the position of the first child with that name: no
/// earlier child has the name, and unless the position is past the end, the
/// child there has it.
pub proof fn lemma_child_position(children: Seq<TreeNode>, name: Seq<char>)
    ensures
        0 <= child_position(children, name) <= children.len(),
        forall|j: int|
            0 <= j < child_position(children, name) ==> (#[trigger] children[j]).name@ != name,
        child_position(children, name) < children.len() ==> children[child_position(
            children,
            name,
        )].name@ == name,
    decreases children.len(),
{
    if children.len() > 0 && children[0].name@ != name {
        let rest = children.drop_first();
        lemma_child_position(rest, name);
        assert forall|j: int| 0 <= j < child_position(children, name) implies (
        #[trigger] children[j]).name@ != name by {
            if j > 0 {
                assert(rest[j - 1] == children[j]);
            }
        }
    }
}

/// A position with the name, or the end, before which no child has the name,
/// is the `child_position` of the name.
pub proof fn lemma_child_position_is(children: Seq<TreeNode>, name: Seq<char>, position: int)
    requires
        0 <= position <= children.len(),
        forall|j: int| 0 <= j < position ==> (#[trigger] children[j]).name@ != name,
        position < children.len() ==> children[position].name@ == name,
    ensures
        child_position(children, name) == position,
    decreases children.len(),
{
    if children.len() > 0 && position > 0 {
        let rest = children.drop_first();
        lemma_child_position_is(rest, name, position - 1);
    }
}

impl TreeNode {
    /// The record of this node, as a value.
    pub open spec fn record(&self) -> Option<FileRecordView> {
        match self.file {
            Some(file) => Some(file@),
            None => None,
        }
    }

    /// The node reached from this one along `segments`, each naming a child
    /// of the node before.
    pub open spec fn lookup(&self, segments: Seq<Seq<char>>) -> Option<TreeNode>
        decreases segments.len(),
    {
        if segments.len() == 0 {
            Some(*self)
        } else {
            let position = child_position(self.children@, segments[0]);
            if position < self.children@.len() {
                self.children@[position].lookup(segments.drop_first())
            } else {
                None
            }
        }
    }

    /// Whether a node stands at `segments` below this one.
    pub open spec fn contains(&self, segments: Seq<Seq<char>>) -> bool {
        self.lookup(segments) is Some
    }

    /// The record filed at `segments` below this node, if there is one.
    pub open spec fn record_at(&self, segments: Seq<Seq<char>>) -> Option<FileRecordView> {
        match self.lookup(segments) {
            Some(node) => node.record(),
            None => None,
        }
    }

    /// A node without a name, children or record: the root of an empty tree.
    pub fn new() -> (node: TreeNode)
        ensures
            node.name@.len() == 0,
            node.children@.len() == 0,
            node.file is None,
    {
        TreeNode { name: String::new(), children: Vec::new(), file: None }
    }

    /// A node named `name`, without children or record.
    pub fn named(name: String) -> (node: TreeNode)
        ensures
            node.name@ == name@,
            node.children@.len() == 0,
            node.file is None,
    {
        TreeNode { name, children: Vec::new(), file: None }
    }

    /// The position of the child named `name`, if there is one.
    pub fn find_child(&self, name: &String) -> (r: Option<usize>)
        ensures
            match r {
                Some(position) => position < self.children@.len() && position == child_position(
                    self.children@,
                    name@,
                ),
                None => child_position(self.children@, name@) == self.children@.len(),
            },
    {
        let mut i: usize = 0;
        while i < self.children.len()
            invariant
                i <= self.children@.len(),
                forall|j: int| 0 <= j < i ==> (#[trigger] self.children@[j]).name@ != name@,
            decreases self.children@.len() - i,
        {
            if self.children[i].name == *name {
                proof {
                    lemma_child_position_is(self.children@, name@, i as int);
                }
                return Some(i);
            }
            i = i + 1;
        }
        proof {
            lemma_child_position_is(self.children@, name@, i as int);
        }
        None
    }
}

/// Whether `after` is `before` with `record` filed at `segments`: the nodes
/// along `segments` exist, the record stands at their end, and every other
/// node and record is as it was.
pub open spec fn inserted(
    before: TreeNode,
    after: TreeNode,
    segments: Seq<Seq<char>>,
    record: FileRecordView,
) -> bool {
    &&& after.name@ == before.name@
    &&& forall|q: Seq<Seq<char>>| #[trigger]
        after.contains(q) <==> before.contains(q) || q.is_prefix_of(segments)
    &&& forall|q: Seq<Seq<char>>| #[trigger]
        after.record_at(q) == if q == segments {
            Some(record)
        } else {
            before.record_at(q)
        }
}

/// Replacing a child by one of the same name moves no name.
pub proof fn lemma_position_after_update(
    children: Seq<TreeNode>,
    position: int,
    child: TreeNode,
    name: Seq<char>,
)
    requires
        0 <= position < children.len(),
        child.name@ == children[position].name@,
    ensures
        child_position(children.update(position, child), name) == child_position(children, name),
{
    let updated = children.update(position, child);
    let found = child_position(children, name);
    lemma_child_position(children, name);
    lemma_child_position_is(updated, name, found);
}

/// Appending a child leaves every name that was found where it was; a name
/// that was not found is found at the new child if that has the name, and
/// nowhere otherwise.
pub proof fn lemma_position_after_push(children: Seq<TreeNode>, child: TreeNode, name: Seq<char>)
    ensures
        child_position(children.push(child), name) == if child_position(children, name)
            < children.len() || child.name@ == name {
            child_position(children, name)
        } else {
            children.len() as int + 1
        },
{
    let pushed = children.push(child);
    let found = child_position(children, name);
    lemma_child_position(children, name);
    if found < children.len() || child.name@ == name {
        lemma_child_position_is(pushed, name, found);
    } else {
        lemma_child_position_is(pushed, name, pushed.len() as int);
    }
}

/// Whether `after` agrees at `q` with `before` after `record` was filed at
/// `segments`.
pub open spec fn inserted_at(
    before: TreeNode,
    after: TreeNode,
    segments: Seq<Seq<char>>,
    record: FileRecordView,
    q: Seq<Seq<char>>,
) -> bool {
    &&& after.contains(q) <==> before.contains(q) || q.is_prefix_of(segments)
    &&& after.record_at(q) == if q == segments {
        Some(record)
    } else {
        before.record_at(q)
    }
}

/// `inserted` holds as soon as `inserted_at` holds at every path.
pub proof fn lemma_inserted_everywhere(
    before: TreeNode,
    after: TreeNode,
    segments: Seq<Seq<char>>,
    record: FileRecordView,
)
    requires
        after.name@ == before.name@,
        forall|q: Seq<Seq<char>>| inserted_at(before, after, segments, record, q),
    ensures
        inserted(before, after, segments, record),
{
    assert forall|q: Seq<Seq<char>>| #[trigger]
        after.contains(q) <==> before.contains(q) || q.is_prefix_of(segments) by {
        assert(inserted_at(before, after, segments, record, q));
    }
    assert forall|q: Seq<Seq<char>>| #[trigger]
        after.record_at(q) == if q == segments {
            Some(record)
        } else {
            before.record_at(q)
        } by {
        assert(inserted_at(before, after, segments, record, q));
    }
}

/// Filing a record below an existing child files it below the parent.
pub proof fn lemma_insert_existing(
    before: TreeNode,
    after: TreeNode,
    child: TreeNode,
    segments: Seq<Seq<char>>,
    record: FileRecordView,
)
    requires
        segments.len() > 0,
        child_position(before.children@, segments[0]) < before.children@.len(),
        after.name@ == before.name@,
        after.file == before.file,
        after.children@ == before.children@.update(
            child_position(before.children@, segments[0]),
            child,
        ),
        inserted(
            before.children@[child_position(before.children@, segments[0])],
            child,
            segments.drop_first(),
            record,
        ),
    ensures
        inserted(before, after, segments, record),
{
    let position = child_position(before.children@, segments[0]);
    let old_child = before.children@[position];
    lemma_child_position(before.children@, segments[0]);
    assert forall|q: Seq<Seq<char>>| inserted_at(before, after, segments, record, q) by {
        if q.len() > 0 {
            lemma_position_after_update(before.children@, position, child, q[0]);
            lemma_child_position(before.children@, q[0]);
            let rest = q.drop_first();
            if q[0] == segments[0] {
                assert(child.contains(rest) <==> old_child.contains(rest) || rest.is_prefix_of(
                    segments.drop_first(),
                ));
                assert(child.record_at(rest) == if rest == segments.drop_first() {
                    Some(record)
                } else {
                    old_child.record_at(rest)
                });
                lemma_same_head(q, segments);
            } else {
                assert(!q.is_prefix_of(segments));
            }
        }
    }
    lemma_inserted_everywhere(before, after, segments, record);
}

/// Two sequences with the same head are equal, or one a prefix of the other,
/// exactly when their tails are.
pub proof fn lemma_same_head(q: Seq<Seq<char>>, segments: Seq<Seq<char>>)
    requires
        q.len() > 0,
        segments.len() > 0,
        q[0] == segments[0],
    ensures
        q == segments <==> q.drop_first() == segments.drop_first(),
        q.is_prefix_of(segments) <==> q.drop_first().is_prefix_of(segments.drop_first()),
{
    let rest = q.drop_first();
    let tail = segments.drop_first();
    if rest == tail {
        assert(q =~= seq![q[0]] + rest);
        assert(segments =~= seq![segments[0]] + tail);
    }
    if q.is_prefix_of(segments) {
        assert(rest =~= tail.subrange(0, rest.len() as int));
    }
    if rest.is_prefix_of(tail) {
        assert(q =~= segments.subrange(0, q.len() as int)) by {
            assert forall|i: int| 0 <= i < q.len() implies q[i] == segments[i] by {
                if i > 0 {
                    assert(rest[i - 1] == tail.subrange(0, rest.len() as int)[i - 1]);
                }
            }
        }
    }
}

/// Filing a record below a child that is appended for it files it below the
/// parent.
pub proof fn lemma_insert_new(
    before: TreeNode,
    after: TreeNode,
    fresh: TreeNode,
    child: TreeNode,
    segments: Seq<Seq<char>>,
    record: FileRecordView,
)
    requires
        segments.len() > 0,
        child_position(before.children@, segments[0]) == before.children@.len(),
        after.name@ == before.name@,
        after.file == before.file,
        after.children@ == before.children@.push(child),
        fresh.name@ == segments[0],
        fresh.children@.len() == 0,
        fresh.file is None,
        inserted(fresh, child, segments.drop_first(), record),
    ensures
        inserted(before, after, segments, record),
{
    assert forall|q: Seq<Seq<char>>| inserted_at(before, after, segments, record, q) by {
        if q.len() > 0 {
            lemma_position_after_push(before.children@, child, q[0]);
            lemma_child_position(before.children@, q[0]);
            let rest = q.drop_first();
            if q[0] == segments[0] {
                assert(child.contains(rest) <==> fresh.contains(rest) || rest.is_prefix_of(
                    segments.drop_first(),
                ));
                assert(child.record_at(rest) == if rest == segments.drop_first() {
                    Some(record)
                } else {
                    fresh.record_at(rest)
                });
                lemma_same_head(q, segments);
            } else {
                assert(!q.is_prefix_of(segments));
            }
        }
    }
    lemma_inserted_everywhere(before, after, segments, record);
}

/// Replacing a child of a well-formed node by a well-formed one of the same
/// name leaves the node well-formed.
pub proof fn lemma_well_formed_existing(
    before: TreeNode,
    after: TreeNode,
    child: TreeNode,
    prefix: Seq<Seq<char>>,
    name: Seq<char>,
)
    requires
        before.well_formed(prefix),
        child_position(before.children@, name) < before.children@.len(),
        after.file == before.file,
        after.children@ == before.children@.update(child_position(before.children@, name), child),
        child.name@ == name,
        child.well_formed(prefix.push(name)),
    ensures
        after.well_formed(prefix),
{
    let position = child_position(before.children@, name);
    lemma_child_position(before.children@, name);
    assert forall|i: int| 0 <= i < after.children@.len() implies child_position(
        after.children@,
        (#[trigger] after.children@[i]).name@,
    ) == i by {
        lemma_position_after_update(
            before.children@,
            position,
            child,
            before.children@[i].name@,
        );
    }
}

/// Appending a well-formed child whose name is new leaves a well-formed node
/// well-formed.
pub proof fn lemma_well_formed_new(
    before: TreeNode,
    after: TreeNode,
    child: TreeNode,
    prefix: Seq<Seq<char>>,
    name: Seq<char>,
)
    requires
        before.well_formed(prefix),
        child_position(before.children@, name) == before.children@.len(),
        after.file == before.file,
        after.children@ == before.children@.push(child),
        child.name@ == name,
        child.well_formed(prefix.push(name)),
    ensures
        after.well_formed(prefix),
{
    assert forall|i: int| 0 <= i < after.children@.len() implies child_position(
        after.children@,
        (#[trigger] after.children@[i]).name@,
    ) == i by {
        lemma_position_after_push(before.children@, child, after.children@[i].name@);
    }
}

impl TreeNode {
    /// Files `record` at the path `segments[depth..]` below this node. Nodes
    /// that the path needs are created; a record already filed there is
    /// replaced.
    pub fn insert_at(&mut self, segments: &Vec<String>, depth: usize, record: FileRecord)
        requires
            depth <= segments@.len(),
        ensures
            inserted(*old(self), *final(self), texts(segments@).skip(depth as int), record@),
            texts(segments@) == path_segments(record@.path) && old(self).well_formed(
                texts(segments@).take(depth as int),
            ) ==> final(self).well_formed(texts(segments@).take(depth as int)),
        decreases segments@.len() - depth,
    {
        let ghost before = *self;
        let ghost path = texts(segments@).skip(depth as int);
        let ghost prefix = texts(segments@).take(depth as int);
        if depth == segments.len() {
            self.file = Some(record);
            proof {
                assert(prefix =~= texts(segments@));
                assert forall|q: Seq<Seq<char>>| inserted_at(before, *self, path, record@, q) by {
                    if q.len() == 0 {
                        assert(q =~= path);
                    }
                }
                lemma_inserted_everywhere(before, *self, path, record@);
            }
            return ;
        }
        assert(path.drop_first() =~= texts(segments@).skip(depth + 1));
        assert(prefix.push(path[0]) =~= texts(segments@).take(depth + 1));
        match self.find_child(&segments[depth]) {
            Some(position) => {
                self.children[position].insert_at(segments, depth + 1, record);
                proof {
                    let child = self.children@[position as int];
                    lemma_insert_existing(before, *self, child, path, record@);
                    if texts(segments@) == path_segments(record@.path) && before.well_formed(
                        prefix,
                    ) {
                        lemma_child_position(before.children@, path[0]);
                        lemma_well_formed_existing(before, *self, child, prefix, path[0]);
                    }
                }
            },
            None => {
                let mut child = TreeNode::named(segments[depth].clone());
                let ghost fresh = child;
                child.insert_at(segments, depth + 1, record);
                self.children.push(child);
                proof {
                    lemma_insert_new(before, *self, fresh, child, path, record@);
                    if texts(segments@) == path_segments(record@.path) && before.well_formed(
                        prefix,
                    ) {
                        lemma_well_formed_new(before, *self, child, prefix, path[0]);
                    }
                }
            },
        }
    }
}

/// The records filed in a sequence of subtrees, the subtrees taken in order.
pub open spec fn leaves_of(nodes: Seq<TreeNode>) -> Seq<FileRecordView>
    decreases nodes,
{
    if nodes.len() == 0 {
        Seq::empty()
    } else {
        leaves_of(nodes.drop_last()) + nodes.last().leaves()
    }
}

/// The names of those among the first `n` of `children` that hold a record
/// (`with_record` true) or hold none (`with_record` false), in order.
pub open spec fn child_names(children: Seq<TreeNode>, with_record: bool, n: int) -> Seq<Seq<char>>
    decreases n,
{
    if n <= 0 {
        Seq::empty()
    } else if (children[n - 1].file is Some) == with_record {
        child_names(children, with_record, n - 1).push(children[n - 1].name@)
    } else {
        child_names(children, with_record, n - 1)
    }
}

impl TreeNode {
    /// The record of this node as a sequence: of one record, or of none.
    pub open spec fn own_leaf(&self) -> Seq<FileRecordView> {
        match self.file {
            Some(file) => seq![file@],
            None => Seq::empty(),
        }
    }

    /// The records filed at and below this node: its own record first, then
    /// those of each child's subtree, the children taken in order.
    pub open spec fn leaves(&self) -> Seq<FileRecordView>
        decreases self,
    {
        self.own_leaf() + leaves_of(self.children@)
    }

    /// Whether the subtree of this node, which stands at `prefix`, is in
    /// order: a record is filed at the segments of its own path, and no two
    /// children of a node share a name.
    pub open spec fn well_formed(&self, prefix: Seq<Seq<char>>) -> bool
        decreases self,
    {
        &&& match self.file {
            Some(file) => path_segments(file.path@) == prefix,
            None => true,
        }
        &&& forall|i: int|
            0 <= i < self.children@.len() ==> child_position(
                self.children@,
                (#[trigger] self.children@[i]).name@,
            ) == i
        &&& forall|i: int|
            0 <= i < self.children@.len() ==> (#[trigger] self.children@[i]).well_formed(
                prefix.push(self.children@[i].name@),
            )
    }

    /// The names of the children that hold a record.
    pub fn files(&self) -> (names: Vec<&String>)
        ensures
            borrowed_texts(names@) == child_names(
                self.children@,
                true,
                self.children@.len() as int,
            ),
    {
        let mut names: Vec<&String> = Vec::new();
        let mut i: usize = 0;
        while i < self.children.len()
            invariant
                i <= self.children@.len(),
                borrowed_texts(names@) == child_names(self.children@, true, i as int),
            decreases self.children@.len() - i,
        {
            if self.children[i].file.is_some() {
                names.push(&self.children[i].name);
            }
            i = i + 1;
        }
        names
    }

    /// The names of the children that hold no record.
    pub fn directories(&self) -> (names: Vec<&String>)
        ensures
            borrowed_texts(names@) == child_names(
                self.children@,
                false,
                self.children@.len() as int,
            ),
    {
        let mut names: Vec<&String> = Vec::new();
        let mut i: usize = 0;
        while i < self.children.len()
            invariant
                i <= self.children@.len(),
                borrowed_texts(names@) == child_names(self.children@, false, i as int),
            decreases self.children@.len() - i,
        {
            if self.children[i].file.is_none() {
                names.push(&self.children[i].name);
            }
            i = i + 1;
        }
        names
    }

    /// Appends to `out` the records filed at and below this node, depth
    /// first.
    pub fn collect_leaves(&self, out: &mut Vec<FileRecord>)
        ensures
            record_views(final(out)@) == record_views(old(out)@) + self.leaves(),
        decreases self,
    {
        let ghost start = record_views(out@);
        let ghost own = self.own_leaf();
        match &self.file {
            Some(file) => {
                out.push(file.clone());
            },
            None => {},
        }
        let mut i: usize = 0;
        while i < self.children.len()
            invariant
                i <= self.children@.len(),
                record_views(out@) == start + own + leaves_of(self.children@.take(i as int)),
            decreases self.children@.len() - i,
        {
            let ghost done = self.children@.take(i as int);
            let ghost next = self.children@.take(i + 1);
            assert(next.drop_last() =~= done);
            self.children[i].collect_leaves(out);
            i = i + 1;
        }
        assert(self.children@.take(self.children@.len() as int) =~= self.children@);
    }
}

/// A record among the leaves of a sequence of subtrees is among the leaves of
/// one of them, and the other way round.
pub proof fn lemma_leaves_of_member(nodes: Seq<TreeNode>, leaf: FileRecordView)
    ensures
        leaves_of(nodes).contains(leaf) <==> exists|i: int|
            0 <= i < nodes.len() && (#[trigger] nodes[i]).leaves().contains(leaf),
    decreases nodes.len(),
{
    if nodes.len() > 0 {
        let init = nodes.drop_last();
        lemma_leaves_of_member(init, leaf);
        lemma_concat_member(leaves_of(init), nodes.last().leaves(), leaf);
        if leaves_of(nodes).contains(leaf) {
            if leaves_of(init).contains(leaf) {
                let i = choose|i: int|
                    0 <= i < init.len() && (#[trigger] init[i]).leaves().contains(leaf);
                assert(nodes[i] == init[i]);
            } else {
                assert(nodes[nodes.len() - 1].leaves().contains(leaf));
            }
        }
        if exists|i: int| 0 <= i < nodes.len() && (#[trigger] nodes[i]).leaves().contains(leaf) {
            let i = choose|i: int|
                0 <= i < nodes.len() && (#[trigger] nodes[i]).leaves().contains(leaf);
            if i < init.len() {
                assert(init[i] == nodes[i]);
            }
        }
    }
}

/// A value is in a concatenation exactly when it is in one of the parts.
pub proof fn lemma_concat_member<A>(a: Seq<A>, b: Seq<A>, x: A)
    ensures
        (a + b).contains(x) <==> a.contains(x) || b.contains(x),
{
    if (a + b).contains(x) {
        let i = choose|i: int| 0 <= i < (a + b).len() && (a + b)[i] == x;
        if i < a.len() {
            assert(a[i] == x);
        } else {
            assert(b[i - a.len()] == x);
        }
    }
    if a.contains(x) {
        let i = choose|i: int| 0 <= i < a.len() && a[i] == x;
        assert((a + b)[i] == x);
    }
    if b.contains(x) {
        let i = choose|i: int| 0 <= i < b.len() && b[i] == x;
        assert((a + b)[a.len() + i] == x);
    }
}

/// In a well-formed subtree every leaf is found at the segments of its own
/// path, counted from the node's place.
pub proof fn lemma_leaf_reachable(node: TreeNode, prefix: Seq<Seq<char>>, leaf: FileRecordView)
    requires
        node.well_formed(prefix),
        node.leaves().contains(leaf),
    ensures
        prefix.is_prefix_of(path_segments(leaf.path)),
        node.record_at(path_segments(leaf.path).skip(prefix.len() as int)) == Some(leaf),
    decreases node,
{
    let segments = path_segments(leaf.path);
    lemma_concat_member(node.own_leaf(), leaves_of(node.children@), leaf);
    if !node.own_leaf().contains(leaf) {
        lemma_leaves_of_member(node.children@, leaf);
        let i = choose|i: int|
            0 <= i < node.children@.len() && (#[trigger] node.children@[i]).leaves().contains(leaf);
        let child = node.children@[i];
        let below = prefix.push(child.name@);
        lemma_leaf_reachable(child, below, leaf);
        assert(prefix =~= segments.subrange(0, prefix.len() as int)) by {
            assert forall|k: int| 0 <= k < prefix.len() implies prefix[k] == segments[k] by {
                assert(below[k] == segments.subrange(0, below.len() as int)[k]);
            }
        }
        let rest = segments.skip(prefix.len() as int);
        assert(rest[0] == child.name@) by {
            assert(below[prefix.len() as int] == segments.subrange(0, below.len() as int)[prefix.len() as int]);
        }
        assert(rest.drop_first() =~= segments.skip(below.len() as int));
    }
}

/// A record that is filed at some path below a node is among its leaves.
pub proof fn lemma_record_is_leaf(node: TreeNode, segments: Seq<Seq<char>>, record: FileRecordView)
    requires
        node.record_at(segments) == Some(record),
    ensures
        node.leaves().contains(record),
    decreases segments.len(),
{
    if segments.len() == 0 {
        assert(node.own_leaf()[0] == record);
        lemma_concat_member(node.own_leaf(), leaves_of(node.children@), record);
    } else {
        let position = child_position(node.children@, segments[0]);
        lemma_child_position(node.children@, segments[0]);
        lemma_record_is_leaf(node.children@[position], segments.drop_first(), record);
        lemma_leaves_of_member(node.children@, record);
        lemma_concat_member(node.own_leaf(), leaves_of(node.children@), record);
    }
}

/// The directory tree: a root without a name, and below it one node for each
/// directory and file.
#[derive(Debug)]
pub struct DirectoryTree {
    pub root: TreeNode,
}

impl DirectoryTree {
    /// Whether the tree is in order: every record is filed at the segments of
    /// its own path, and no two children of a node share a name.
    pub open spec fn well_formed(&self) -> bool {
        self.root.well_formed(Seq::empty())
    }

    /// Whether a node stands at `segments`.
    pub open spec fn contains(&self, segments: Seq<Seq<char>>) -> bool {
        self.root.contains(segments)
    }

    /// The record filed at `segments`, if there is one.
    pub open spec fn record_at(&self, segments: Seq<Seq<char>>) -> Option<FileRecordView> {
        self.root.record_at(segments)
    }

    /// All records of the tree, depth first.
    pub open spec fn leaves(&self) -> Seq<FileRecordView> {
        self.root.leaves()
    }

    /// A tree that holds no record: only its root, which has no name, no
    /// children and no record.
    pub fn new() -> (tree: DirectoryTree)
        ensures
            tree.root.name@ == Seq::<char>::empty(),
            tree.root.children@ == Seq::<TreeNode>::empty(),
            tree.root.file is None,
            tree.well_formed(),
            tree.leaves() == Seq::<FileRecordView>::empty(),
            forall|q: Seq<Seq<char>>| #[trigger] tree.contains(q) <==> q.len() == 0,
    {
        let tree = DirectoryTree { root: TreeNode::new() };
        tree
    }

    /// The node at the end of `segments`, each naming a child of the node
    /// before, starting at the root. Names are compared exactly.
    pub fn goto(&self, segments: &Vec<String>) -> (r: Option<&TreeNode>)
        ensures
            match r {
                Some(node) => self.root.lookup(texts(segments@)) == Some(*node),
                None => self.root.lookup(texts(segments@)) is None,
            },
    {
        let ghost path = texts(segments@);
        let mut current = &self.root;
        let mut i: usize = 0;
        assert(path.skip(0) =~= path);
        while i < segments.len()
            invariant
                i <= segments@.len(),
                path == texts(segments@),
                self.root.lookup(path) == current.lookup(path.skip(i as int)),
            decreases segments@.len() - i,
        {
            assert(path.skip(i as int).drop_first() =~= path.skip(i + 1));
            match current.find_child(&segments[i]) {
                Some(position) => {
                    current = &current.children[position];
                },
                None => {
                    return None;
                },
            }
            i = i + 1;
        }
        Some(current)
    }

    /// The node at `path`, whose segments are separated by `/`. Empty
    /// segments are skipped, so the empty path is the root.
    pub fn find(&self, path: &str) -> (r: Option<&TreeNode>)
        ensures
            match r {
                Some(node) => self.root.lookup(path_segments(path@)) == Some(*node),
                None => self.root.lookup(path_segments(path@)) is None,
            },
    {
        let segments = split_path(path);
        self.goto(&segments)
    }

    /// Files a record at its path. Directories that the path needs are
    /// created; a record already filed at that path is replaced. Nothing else
    /// changes.
    pub fn insert(&mut self, file_record: &FileRecord)
        ensures
            inserted(
                old(self).root,
                final(self).root,
                path_segments(file_record@.path),
                file_record@,
            ),
            final(self).record_at(path_segments(file_record@.path)) == Some(file_record@),
            old(self).well_formed() ==> final(self).well_formed(),
    {
        let segments = split_path(file_record.path.as_str());
        assert(texts(segments@).skip(0) =~= texts(segments@));
        assert(texts(segments@).take(0) =~= Seq::<Seq<char>>::empty());
        self.root.insert_at(&segments, 0, file_record.clone());
    }

    /// All records at and below `node`, depth first.
    pub fn walk_from(node: &TreeNode) -> (records: Vec<FileRecord>)
        ensures
            record_views(records@) == node.leaves(),
    {
        let mut records: Vec<FileRecord> = Vec::new();
        node.collect_leaves(&mut records);
        records
    }
}

/// In a well-formed tree, looking up the path of any leaf finds the node that
/// holds that leaf.
pub proof fn lemma_leaf_found(tree: DirectoryTree, leaf: FileRecordView)
    requires
        tree.well_formed(),
        tree.leaves().contains(leaf),
    ensures
        tree.record_at(path_segments(leaf.path)) == Some(leaf),
{
    lemma_leaf_reachable(tree.root, Seq::empty(), leaf);
    assert(path_segments(leaf.path).skip(0) =~= path_segments(leaf.path));
}

/// A well-formed tree holds no more than one leaf for a path: two leaves whose
/// paths have the same segments are the same record.
pub proof fn lemma_one_leaf_per_path(tree: DirectoryTree, a: FileRecordView, b: FileRecordView)
    requires
        tree.well_formed(),
        tree.leaves().contains(a),
        tree.leaves().contains(b),
        path_segments(a.path) == path_segments(b.path),
    ensures
        a == b,
{
    lemma_leaf_found(tree, a);
    lemma_leaf_found(tree, b);
}

/// A record that can be looked up in a tree is one of its leaves.
pub proof fn lemma_lookup_is_leaf(
    tree: DirectoryTree,
    segments: Seq<Seq<char>>,
    record: FileRecordView,
)
    requires
        tree.record_at(segments) == Some(record),
    ensures
        tree.leaves().contains(record),
{
    lemma_record_is_leaf(tree.root, segments, record);
}

} // verus!
