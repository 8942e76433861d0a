//! Paths into a tree and the node identities derived from them.

use vstd::prelude::*;

verus! {

/// One step of a path, as the contracts see it.
pub enum Segment {
    /// The position of an entry in an array.
    Index(int),
    /// The key of an entry in an object.
    Key(Seq<char>),
}

/// One step of a path: an array index or an object key.
#[derive(Debug, PartialEq, Eq, Hash)]
pub enum JsonPointerSegment {
    Index(usize),
    Key(String),
}

impl View for JsonPointerSegment {
    type V = Segment;

    open spec fn view(&self) -> Segment {
        match self {
            JsonPointerSegment::Index(i) => Segment::Index(*i as int),
            JsonPointerSegment::Key(k) => Segment::Key(k@),
        }
    }
}

impl Clone for JsonPointerSegment {
    fn clone(&self) -> (copy: Self)
        ensures
            copy == *self,
    {
        match self {
            JsonPointerSegment::Index(i) => JsonPointerSegment::Index(*i),
            JsonPointerSegment::Key(k) => JsonPointerSegment::Key(k.clone()),
        }
    }
}

impl JsonPointerSegment {
    /// Whether two segments are the same step.
    pub fn same(&self, other: &JsonPointerSegment) -> (equal: bool)
        ensures
            equal == (self@ == other@),
    {
        match self {
            JsonPointerSegment::Index(i) => match other {
                JsonPointerSegment::Index(j) => *i == *j,
                JsonPointerSegment::Key(_) => false,
            },
            JsonPointerSegment::Key(a) => match other {
                JsonPointerSegment::Index(_) => false,
                JsonPointerSegment::Key(b) => *a == *b,
            },
        }
    }
}

/// The path that a stack of segments spells, root first.
pub open spec fn path_view(segments: Seq<JsonPointerSegment>) -> Seq<Segment> {
    Seq::new(segments.len(), |i: int| segments[i]@)
}

/// Pushing a segment on the stack appends its view to the path.
pub proof fn lemma_path_view_push(segments: Seq<JsonPointerSegment>, last: JsonPointerSegment)
    ensures
        path_view(segments.push(last)) == path_view(segments).push(last@),
{
    assert(path_view(segments.push(last)) =~= path_view(segments).push(last@));
}

/// The location of a node: the segments that lead to it from the root.
#[derive(Debug, PartialEq, Eq, Hash)]
pub struct JsonPointer {
    pub segments: Vec<JsonPointerSegment>,
}

impl View for JsonPointer {
    type V = Seq<Segment>;

    open spec fn view(&self) -> Seq<Segment> {
        path_view(self.segments@)
    }
}

impl Clone for JsonPointer {
    fn clone(&self) -> (copy: Self)
        ensures
            copy@ == self@,
    {
        JsonPointer::from_segments(&self.segments)
    }
}

impl JsonPointer {
    /// The pointer to the root: no segments.
    pub fn root() -> (pointer: JsonPointer)
        ensures
            pointer@ == Seq::<Segment>::empty(),
    {
        let pointer = JsonPointer { segments: Vec::new() };
        assert(pointer@ =~= Seq::<Segment>::empty());
        pointer
    }

    /// A pointer that owns a copy of the given segments.
    pub fn from_segments(segments: &Vec<JsonPointerSegment>) -> (pointer: JsonPointer)
        ensures
            pointer@ == path_view(segments@),
    {
        let mut copy: Vec<JsonPointerSegment> = Vec::new();
        let mut i: usize = 0;
        while i < segments.len()
            invariant
                i <= segments.len(),
                copy.len() == i,
                forall|j: int| 0 <= j < i ==> copy[j]@ == segments[j]@,
            decreases segments.len() - i,
        {
            copy.push(segments[i].clone());
            i = i + 1;
        }
        let pointer = JsonPointer { segments: copy };
        assert(pointer@ =~= path_view(segments@));
        pointer
    }

    /// The number of segments, which is the depth of the node.
    pub fn len(&self) -> (n: usize)
        ensures
            n == self@.len(),
    {
        self.segments.len()
    }

    /// Whether two pointers lead to the same place.
    pub fn same(&self, other: &JsonPointer) -> (equal: bool)
        ensures
            equal == (self@ == other@),
    {
        if self.segments.len() != other.segments.len() {
            assert(self@.len() != other@.len());
            return false;
        }
        let mut i: usize = 0;
        while i < self.segments.len()
            invariant
                i <= self.segments.len(),
                self.segments.len() == other.segments.len(),
                forall|j: int| 0 <= j < i ==> self.segments[j]@ == other.segments[j]@,
            decreases self.segments.len() - i,
        {
            if !self.segments[i].same(&other.segments[i]) {
                assert(self@[i as int] != other@[i as int]);
                return false;
            }
            i = i + 1;
        }
        assert(self@ =~= other@);
        true
    }
}

/// The identity of a node, as the contracts see it: the tree it belongs to
/// and its path in that tree.
pub struct NodeKey {
    pub tree: u64,
    pub path: Seq<Segment>,
}

/// The identity of a node. It is made of the tree's own identifier and the
/// node's path, so two nodes share an identity only if they share both.
#[derive(Debug, PartialEq, Eq, Hash)]
pub struct NodeId {
    pub tree: u64,
    pub pointer: JsonPointer,
}

impl View for NodeId {
    type V = NodeKey;

    open spec fn view(&self) -> NodeKey {
        NodeKey { tree: self.tree, path: self.pointer@ }
    }
}

impl Clone for NodeId {
    fn clone(&self) -> (copy: Self)
        ensures
            copy@ == self@,
    {
        NodeId { tree: self.tree, pointer: self.pointer.clone() }
    }
}

impl NodeId {
    /// Whether two identities name the same node.
    pub fn same(&self, other: &NodeId) -> (equal: bool)
        ensures
            equal == (self@ == other@),
    {
        self.tree == other.tree && self.pointer.same(&other.pointer)
    }
}

/// The identity of the node that the given segments lead to in the given tree.
pub fn identifier_for(tree: u64, segments: &Vec<JsonPointerSegment>) -> (id: NodeId)
    ensures
        id@ == (NodeKey { tree, path: path_view(segments@) }),
{
    NodeId { tree, pointer: JsonPointer::from_segments(segments) }
}

/// Within one tree, nodes with different paths have different identities,
/// and nodes with the same path have the same identity.
pub proof fn lemma_identity_follows_path(tree: u64, a: Seq<Segment>, b: Seq<Segment>)
    ensures
        (NodeKey { tree, path: a } == NodeKey { tree, path: b }) <==> a == b,
{
}

} // verus!
