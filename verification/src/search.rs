//! Finding the nodes that a search opens.
//!
//! A search term matches a text if it occurs in it, letters compared without
//! regard to ASCII case. A search opens every ancestor of every match, so
//! that no match stays hidden inside a closed node.

use vstd::prelude::*;
use crate::id_set::NodeIdSet;
use crate::pointer::identifier_for;
use crate::pointer::lemma_path_view_push;
use crate::pointer::path_view;
use crate::pointer::JsonPointerSegment;
use crate::pointer::NodeKey;
use crate::pointer::Segment;
use crate::model::Entries;
use crate::value::ExpandableType;
use crate::value::JsonTreeValue;

verus! {

/// The code of a character, with the ASCII capital letters mapped to their
/// small forms.
pub open spec fn fold_case(c: char) -> int {
    if 'A' <= c && c <= 'Z' {
        c as int + 32
    } else {
        c as int
    }
}

/// Whether the term stands in the text at the given position.
pub open spec fn occurs_at(term: Seq<char>, text: Seq<char>, at: int) -> bool {
    &&& 0 <= at
    &&& at + term.len() <= text.len()
    &&& forall|j: int| 0 <= j < term.len() ==> fold_case(#[trigger] text[at + j]) == fold_case(term[j])
}

/// Whether the term occurs in the text.
pub open spec fn term_matches(term: Seq<char>, text: Seq<char>) -> bool {
    exists|at: int| occurs_at(term, text, at)
}

/// Whether an entry of a node of the given kind matches by its label. Only
/// the keys of objects are looked at: the places in an array are no text.
pub open spec fn label_matches(term: Seq<char>, kind: ExpandableType, segment: Segment) -> bool {
    kind == ExpandableType::Object && segment is Key && term_matches(term, segment->Key_0)
}

/// The ancestors of the node at `path` in the given tree: the nodes at the
/// strictly shorter beginnings of the path, the root among them.
pub open spec fn ancestors(tree: u64, path: Seq<Segment>) -> Set<NodeKey> {
    Set::new(
        |key: NodeKey|
            key.tree == tree && key.path.len() < path.len() && key.path == path.take(
                key.path.len() as int,
            ),
    )
}

/// The paths of the matches at or below `value`, which stands at `path`: the
/// atomic nodes whose display form matches, and the entries of objects
/// whose key matches.
pub open spec fn match_paths(value: JsonTreeValue, path: Seq<Segment>, term: Seq<char>) -> Set<
    Seq<Segment>,
>
    decreases value, 0nat,
{
    match value {
        JsonTreeValue::Base(display_value, _) => if term_matches(term, display_value@) {
            set![path]
        } else {
            Set::empty()
        },
        JsonTreeValue::Expandable(entries, kind) => entries_match_paths(
            entries@,
            kind,
            path,
            term,
            entries@.len(),
        ),
    }
}

/// The paths of the matches at or below the first `n` entries.
pub open spec fn entries_match_paths(
    entries: Entries,
    kind: ExpandableType,
    path: Seq<Segment>,
    term: Seq<char>,
    n: nat,
) -> Set<Seq<Segment>>
    decreases entries, n,
{
    if n == 0 || n > entries.len() {
        Set::empty()
    } else {
        let child_path = path.push(entries[n - 1].0@);
        entries_match_paths(entries, kind, path, term, (n - 1) as nat).union(
            if label_matches(term, kind, entries[n - 1].0@) {
                set![child_path]
            } else {
                Set::empty()
            },
        ).union(match_paths(entries[n - 1].1, child_path, term))
    }
}

/// The nodes that a search opens at or above `value`, which stands at
/// `path`: the ancestors of every match.
pub open spec fn search_opens(value: JsonTreeValue, path: Seq<Segment>, tree: u64, term: Seq<char>) -> Set<
    NodeKey,
>
    decreases value, 0nat,
{
    match value {
        JsonTreeValue::Base(display_value, _) => if term_matches(term, display_value@) {
            ancestors(tree, path)
        } else {
            Set::empty()
        },
        JsonTreeValue::Expandable(entries, kind) => entries_search_opens(
            entries@,
            kind,
            path,
            tree,
            term,
            entries@.len(),
        ),
    }
}

/// The nodes that a search opens for the matches at or below the first `n`
/// entries.
pub open spec fn entries_search_opens(
    entries: Entries,
    kind: ExpandableType,
    path: Seq<Segment>,
    tree: u64,
    term: Seq<char>,
    n: nat,
) -> Set<NodeKey>
    decreases entries, n,
{
    if n == 0 || n > entries.len() {
        Set::empty()
    } else {
        let child_path = path.push(entries[n - 1].0@);
        entries_search_opens(entries, kind, path, tree, term, (n - 1) as nat).union(
            if label_matches(term, kind, entries[n - 1].0@) {
                ancestors(tree, child_path)
            } else {
                Set::empty()
            },
        ).union(search_opens(entries[n - 1].1, child_path, tree, term))
    }
}

/// The nodes that matches at the given paths open: every ancestor of every
/// one of them.
pub open spec fn opened_by(paths: Set<Seq<Segment>>, tree: u64) -> Set<NodeKey> {
    Set::new(
        |key: NodeKey|
            exists|path: Seq<Segment>| #[trigger]
                paths.contains(path) && ancestors(tree, path).contains(key),
    )
}

proof fn lemma_opened_by_none(tree: u64)
    ensures
        opened_by(Set::empty(), tree) == Set::<NodeKey>::empty(),
{
    assert(opened_by(Set::empty(), tree) =~= Set::<NodeKey>::empty());
}

proof fn lemma_opened_by_one(path: Seq<Segment>, tree: u64)
    ensures
        opened_by(set![path], tree) == ancestors(tree, path),
{
    assert forall|key: NodeKey| ancestors(tree, path).contains(key) implies opened_by(
        set![path],
        tree,
    ).contains(key) by {
        assert(set![path].contains(path));
    }
    assert(opened_by(set![path], tree) =~= ancestors(tree, path));
}

proof fn lemma_opened_by_union(a: Set<Seq<Segment>>, b: Set<Seq<Segment>>, tree: u64)
    ensures
        opened_by(a.union(b), tree) == opened_by(a, tree).union(opened_by(b, tree)),
{
    assert forall|key: NodeKey|
        opened_by(a.union(b), tree).contains(key) <==> opened_by(a, tree).union(
            opened_by(b, tree),
        ).contains(key) by {
        if opened_by(a.union(b), tree).contains(key) {
            let path = choose|path: Seq<Segment>| #[trigger]
                a.union(b).contains(path) && ancestors(tree, path).contains(key);
            if a.contains(path) {
                assert(opened_by(a, tree).contains(key));
            } else {
                assert(b.contains(path));
                assert(opened_by(b, tree).contains(key));
            }
        }
        if opened_by(a, tree).contains(key) {
            let path = choose|path: Seq<Segment>| #[trigger]
                a.contains(path) && ancestors(tree, path).contains(key);
            assert(a.union(b).contains(path));
        }
        if opened_by(b, tree).contains(key) {
            let path = choose|path: Seq<Segment>| #[trigger]
                b.contains(path) && ancestors(tree, path).contains(key);
            assert(a.union(b).contains(path));
        }
    }
    assert(opened_by(a.union(b), tree) =~= opened_by(a, tree).union(opened_by(b, tree)));
}

/// A search opens exactly the ancestors of its matches: every ancestor of
/// every match is opened, and every node that is opened is an ancestor of
/// some match.
pub proof fn lemma_search_opens_ancestors_of_matches(
    value: JsonTreeValue,
    path: Seq<Segment>,
    tree: u64,
    term: Seq<char>,
)
    ensures
        search_opens(value, path, tree, term) == opened_by(match_paths(value, path, term), tree),
    decreases value, 0nat,
{
    match value {
        JsonTreeValue::Base(display_value, _) => {
            if term_matches(term, display_value@) {
                lemma_opened_by_one(path, tree);
            } else {
                lemma_opened_by_none(tree);
            }
        },
        JsonTreeValue::Expandable(entries, kind) => {
            lemma_entries_search_opens_ancestors(entries@, kind, path, tree, term, entries@.len());
        },
    }
}

proof fn lemma_entries_search_opens_ancestors(
    entries: Entries,
    kind: ExpandableType,
    path: Seq<Segment>,
    tree: u64,
    term: Seq<char>,
    n: nat,
)
    ensures
        entries_search_opens(entries, kind, path, tree, term, n) == opened_by(
            entries_match_paths(entries, kind, path, term, n),
            tree,
        ),
    decreases entries, n,
{
    if n == 0 || n > entries.len() {
        lemma_opened_by_none(tree);
    } else {
        let child_path = path.push(entries[n - 1].0@);
        let earlier = entries_match_paths(entries, kind, path, term, (n - 1) as nat);
        let by_label = if label_matches(term, kind, entries[n - 1].0@) {
            set![child_path]
        } else {
            Set::empty()
        };
        let below = match_paths(entries[n - 1].1, child_path, term);
        lemma_entries_search_opens_ancestors(entries, kind, path, tree, term, (n - 1) as nat);
        lemma_search_opens_ancestors_of_matches(entries[n - 1].1, child_path, tree, term);
        if label_matches(term, kind, entries[n - 1].0@) {
            lemma_opened_by_one(child_path, tree);
        } else {
            lemma_opened_by_none(tree);
        }
        lemma_opened_by_union(earlier, by_label, tree);
        lemma_opened_by_union(earlier.union(by_label), below, tree);
    }
}

/// The characters of a text, one by one.
fn chars_of(text: &str) -> (chars: Vec<char>)
    ensures
        chars@ == text@,
{
    let mut chars: Vec<char> = Vec::new();
    for c in it: text.chars()
        invariant
            chars@ == it.seq().take(it.index() as int),
            it.seq() == text@,
    {
        chars.push(c);
    }
    chars
}

fn fold(c: char) -> (code: u32)
    ensures
        code == fold_case(c),
{
    if 'A' <= c && c <= 'Z' {
        c as u32 + 32
    } else {
        c as u32
    }
}

/// What to search for: a text that is not empty.
#[derive(Debug)]
pub struct SearchTerm {
    chars: Vec<char>,
}

impl View for SearchTerm {
    type V = Seq<char>;

    closed spec fn view(&self) -> Seq<char> {
        self.chars@
    }
}

impl SearchTerm {
    /// The term for the given text, or nothing if the text is empty.
    pub fn parse(search_str: &str) -> (term: Option<SearchTerm>)
        ensures
            search_str@.len() == 0 ==> term.is_none(),
            search_str@.len() > 0 ==> term.is_some() && term.unwrap()@ == search_str@,
    {
        let chars = chars_of(search_str);
        if chars.len() == 0 {
            None
        } else {
            Some(SearchTerm { chars })
        }
    }

    /// Whether the term occurs in the text, letters compared without regard
    /// to ASCII case.
    pub fn matches(&self, text: &str) -> (found: bool)
        ensures
            found == term_matches(self@, text@),
    {
        let text_chars = chars_of(text);
        let n: usize = text_chars.len();
        let m: usize = self.chars.len();
        if m > n {
            assert(!term_matches(self@, text@)) by {
                assert forall|at: int| !occurs_at(self@, text@, at) by {}
            }
            return false;
        }
        let mut at: usize = 0;
        while at <= n - m
            invariant
                m <= n,
                n == text_chars.len(),
                m == self.chars.len(),
                text_chars@ == text@,
                at <= n - m + 1,
                forall|earlier: int| 0 <= earlier < at ==> !occurs_at(self@, text@, earlier),
            decreases n - m + 1 - at,
        {
            let mut j: usize = 0;
            while j < m && fold(text_chars[at + j]) == fold(self.chars[j])
                invariant
                    m <= n,
                    n == text_chars.len(),
                    m == self.chars.len(),
                    text_chars@ == text@,
                    at <= n - m,
                    j <= m,
                    forall|k: int|
                        0 <= k < j ==> fold_case(#[trigger] text@[at + k]) == fold_case(self@[k]),
                decreases m - j,
            {
                j = j + 1;
            }
            if j == m {
                assert(occurs_at(self@, text@, at as int));
                return true;
            }
            assert(!occurs_at(self@, text@, at as int)) by {
                assert(fold_case(text@[at + j]) != fold_case(self@[j as int]));
            }
            at = at + 1;
        }
        assert(!term_matches(self@, text@)) by {
            assert forall|pos: int| !occurs_at(self@, text@, pos) by {}
        }
        false
    }

    /// Whether the entry of a node of the given kind matches by its label:
    /// whether it is the entry of an object and the term occurs in its key.
    pub fn matches_label(&self, kind: ExpandableType, property: &JsonPointerSegment) -> (found:
        bool)
        ensures
            found == label_matches(self@, kind, property@),
    {
        match kind {
            ExpandableType::Object => match property {
                JsonPointerSegment::Key(key) => self.matches(key.as_str()),
                JsonPointerSegment::Index(_) => false,
            },
            ExpandableType::Array => false,
        }
    }

    /// The nodes of the tree that the search opens: the ancestors of every
    /// match in `value`. Each of them is added to `reset_path_ids` as well,
    /// since what was remembered of it must not keep it closed.
    pub fn find_matching_paths_in(
        &self,
        value: &JsonTreeValue,
        tree: u64,
        reset_path_ids: &mut NodeIdSet,
    ) -> (search_match_path_ids: NodeIdSet)
        ensures
            search_match_path_ids.wf(),
            search_match_path_ids@ == search_opens(*value, Seq::empty(), tree, self@),
            old(reset_path_ids).wf() ==> final(reset_path_ids).wf(),
            final(reset_path_ids)@ == old(reset_path_ids)@.union(search_match_path_ids@),
    {
        let mut search_match_path_ids = NodeIdSet::new();
        let mut path_segments: Vec<JsonPointerSegment> = Vec::new();
        assert(path_view(path_segments@) =~= Seq::<Segment>::empty());
        search_impl(
            value,
            self,
            tree,
            &mut path_segments,
            &mut search_match_path_ids,
            reset_path_ids,
        );
        assert(reset_path_ids@ =~= old(reset_path_ids)@.union(search_match_path_ids@));
        search_match_path_ids
    }
}

fn search_impl(
    value: &JsonTreeValue,
    search_term: &SearchTerm,
    tree: u64,
    path_segments: &mut Vec<JsonPointerSegment>,
    search_match_path_ids: &mut NodeIdSet,
    reset_path_ids: &mut NodeIdSet,
)
    ensures
        final(path_segments)@ == old(path_segments)@,
        old(search_match_path_ids).wf() ==> final(search_match_path_ids).wf(),
        old(reset_path_ids).wf() ==> final(reset_path_ids).wf(),
        final(search_match_path_ids)@ == old(search_match_path_ids)@.union(
            search_opens(*value, path_view(old(path_segments)@), tree, search_term@),
        ),
        final(reset_path_ids)@ == old(reset_path_ids)@.union(
            search_opens(*value, path_view(old(path_segments)@), tree, search_term@),
        ),
    decreases *value,
{
    let ghost path = path_view(old(path_segments)@);
    let ghost term = search_term@;
    match value {
        JsonTreeValue::Base(display_value, _) => {
            if search_term.matches(display_value.as_str()) {
                update_matches(tree, path_segments, search_match_path_ids, reset_path_ids);
            } else {
                assert(search_match_path_ids@ =~= old(search_match_path_ids)@.union(
                    search_opens(*value, path, tree, term),
                ));
                assert(reset_path_ids@ =~= old(reset_path_ids)@.union(
                    search_opens(*value, path, tree, term),
                ));
            }
        },
        JsonTreeValue::Expandable(entries, kind) => {
            let mut idx: usize = 0;
            assert(search_match_path_ids@ =~= old(search_match_path_ids)@.union(
                entries_search_opens(entries@, *kind, path, tree, term, 0),
            ));
            assert(reset_path_ids@ =~= old(reset_path_ids)@.union(
                entries_search_opens(entries@, *kind, path, tree, term, 0),
            ));
            while idx < entries.len()
                invariant
                    idx <= entries.len(),
                    *value matches JsonTreeValue::Expandable(es, _) && es == entries,
                    path_segments@ == old(path_segments)@,
                    path == path_view(path_segments@),
                    term == search_term@,
                    old(search_match_path_ids).wf() ==> search_match_path_ids.wf(),
                    old(reset_path_ids).wf() ==> reset_path_ids.wf(),
                    search_match_path_ids@ == old(search_match_path_ids)@.union(
                        entries_search_opens(entries@, *kind, path, tree, term, idx as nat),
                    ),
                    reset_path_ids@ == old(reset_path_ids)@.union(
                        entries_search_opens(entries@, *kind, path, tree, term, idx as nat),
                    ),
                decreases entries.len() - idx,
            {
                let property = &entries[idx].0;
                let elem = &entries[idx].1;
                path_segments.push(property.clone());
                proof {
                    lemma_path_view_push(old(path_segments)@, path_segments@.last());
                }
                let by_label = search_term.matches_label(*kind, property);
                if by_label {
                    update_matches(tree, path_segments, search_match_path_ids, reset_path_ids);
                }
                search_impl(
                    elem,
                    search_term,
                    tree,
                    path_segments,
                    search_match_path_ids,
                    reset_path_ids,
                );
                let _ = path_segments.pop();
                proof {
                    assert(path_segments@ =~= old(path_segments)@);
                    assert(search_match_path_ids@ =~= old(search_match_path_ids)@.union(
                        entries_search_opens(entries@, *kind, path, tree, term, (idx + 1) as nat),
                    ));
                    assert(reset_path_ids@ =~= old(reset_path_ids)@.union(
                        entries_search_opens(entries@, *kind, path, tree, term, (idx + 1) as nat),
                    ));
                }
                idx = idx + 1;
            }
        },
    }
}

/// Adds every ancestor of the node at the given path to both sets.
fn update_matches(
    tree: u64,
    path_segments: &Vec<JsonPointerSegment>,
    search_match_path_ids: &mut NodeIdSet,
    reset_path_ids: &mut NodeIdSet,
)
    ensures
        old(search_match_path_ids).wf() ==> final(search_match_path_ids).wf(),
        old(reset_path_ids).wf() ==> final(reset_path_ids).wf(),
        final(search_match_path_ids)@ == old(search_match_path_ids)@.union(
            ancestors(tree, path_view(path_segments@)),
        ),
        final(reset_path_ids)@ == old(reset_path_ids)@.union(
            ancestors(tree, path_view(path_segments@)),
        ),
{
    let ghost path = path_view(path_segments@);
    let mut beginning: Vec<JsonPointerSegment> = Vec::new();
    let mut i: usize = 0;
    assert(path_view(beginning@) =~= path.take(0));
    while i < path_segments.len()
        invariant
            i <= path_segments.len(),
            path == path_view(path_segments@),
            path_view(beginning@) == path.take(i as int),
            old(search_match_path_ids).wf() ==> search_match_path_ids.wf(),
            old(reset_path_ids).wf() ==> reset_path_ids.wf(),
            search_match_path_ids@ == old(search_match_path_ids)@.union(
                ancestors(tree, path.take(i as int)),
            ),
            reset_path_ids@ == old(reset_path_ids)@.union(ancestors(tree, path.take(i as int))),
        decreases path_segments.len() - i,
    {
        let path_id = identifier_for(tree, &beginning);
        reset_path_ids.insert(path_id.clone());
        search_match_path_ids.insert(path_id);
        let ghost shorter = beginning@;
        beginning.push(path_segments[i].clone());
        proof {
            lemma_path_view_push(shorter, beginning@.last());
            assert(path_view(beginning@) =~= path.take(i + 1));
            lemma_ancestors_grow(tree, path, i as int);
        }
        i = i + 1;
    }
    assert(path.take(path_segments.len() as int) =~= path);
}

/// The ancestors of a node are those of its parent, and its parent.
pub proof fn lemma_ancestors_grow(tree: u64, path: Seq<Segment>, i: int)
    requires
        0 <= i < path.len(),
    ensures
        ancestors(tree, path.take(i + 1)) == ancestors(tree, path.take(i)).insert(
            NodeKey { tree, path: path.take(i) },
        ),
{
    let longer = path.take(i + 1);
    let shorter = path.take(i);
    assert forall|key: NodeKey|
        ancestors(tree, longer).contains(key) <==> ancestors(tree, shorter).insert(
            NodeKey { tree, path: shorter },
        ).contains(key) by {
        if ancestors(tree, longer).contains(key) {
            let n = key.path.len() as int;
            assert(longer.take(n) =~= path.take(n));
            if n < i {
                assert(shorter.take(n) =~= path.take(n));
            }
        }
        if ancestors(tree, shorter).contains(key) {
            let n = key.path.len() as int;
            assert(shorter.take(n) =~= path.take(n));
            assert(longer.take(n) =~= path.take(n));
        }
        if key == (NodeKey { tree, path: shorter }) {
            assert(longer.take(i) =~= shorter);
        }
    }
    assert(ancestors(tree, longer) =~= ancestors(tree, shorter).insert(
        NodeKey { tree, path: shorter },
    ));
}

} // verus!
