//! The walk itself: it decides, node by node, what is drawn and what is
//! skipped, and keeps the live path in step with its own recursion.

use vstd::prelude::*;
use crate::delimiters::ExpandableDelimiters;
use crate::delimiters::SpacingDelimiter;
use crate::expand::lemma_seeding_keeps_open_nodes;
use crate::expand::open_nodes;
use crate::expand::seeded;
use crate::expand::DefaultExpand;
use crate::expand::InnerExpand;
use crate::id_set::NodeIdSet;
use crate::model::entries_events;
use crate::model::entries_visited;
use crate::model::entry_label;
use crate::model::node_events;
use crate::model::node_visited;
use crate::model::summary_entry_events;
use crate::model::summary_events;
use crate::model::Frame;
use crate::pointer::identifier_for;
use crate::pointer::lemma_path_view_push;
use crate::pointer::path_view;
use crate::pointer::JsonPointer;
use crate::pointer::JsonPointerSegment;
use crate::pointer::NodeKey;
use crate::pointer::Segment;
use crate::render::JsonTreeRenderer;
use crate::response::JsonTreeResponse;
use crate::search::SearchTerm;
use crate::store::ExpansionStore;
use crate::style::JsonTreeStyle;
use crate::tree::named_nodes;
use crate::tree::JsonTreeConfig;
use crate::value::ExpandableType;
use crate::value::JsonTreeValue;

verus! {

/// What a walk is told: the rule for nodes that nothing is remembered of,
/// and the style.
struct JsonTreeNodeConfig {
    default_expand: InnerExpand,
    style: JsonTreeStyle,
}

impl JsonTreeNodeConfig {
    /// What stays the same during a walk of the given tree that starts with
    /// the given store.
    spec fn frame(&self, tree: u64, store: Map<NodeKey, bool>) -> Frame {
        Frame {
            tree,
            abbreviate_root: self.style.abbreviate_root,
            open: open_nodes(self.default_expand@, store),
        }
    }
}

/// The label that a parent hands to an entry, as the contracts see it.
spec fn label_view(parent: Option<&JsonPointerSegment>) -> Option<Segment> {
    match parent {
        Some(property) => Some(property@),
        None => None,
    }
}

/// A node of a tree that is about to be shown.
pub struct JsonTreeNode<'a> {
    id: u64,
    value: &'a JsonTreeValue,
    parent: Option<&'a JsonPointerSegment>,
}

struct Expandable<'a> {
    id: u64,
    entries: &'a Vec<(JsonPointerSegment, JsonTreeValue)>,
    expandable_type: ExpandableType,
    parent: Option<&'a JsonPointerSegment>,
}

impl<'a> JsonTreeNode<'a> {
    /// The tree's own identifier.
    pub closed spec fn tree(&self) -> u64 {
        self.id
    }

    /// The document node.
    pub closed spec fn value(&self) -> JsonTreeValue {
        *self.value
    }

    /// The label that the node carries.
    pub closed spec fn label(&self) -> Option<Segment> {
        label_view(self.parent)
    }

    /// The root of the tree `id` over the document `value`.
    pub fn new(id: u64, value: &'a JsonTreeValue) -> (node: Self)
        ensures
            node.tree() == id,
            node.value() == *value,
            node.label().is_none(),
    {
        Self { id, value, parent: None }
    }

    /// Shows the tree: records the render calls of one pass in `renderer`,
    /// remembers in `store` each expandable node that the pass meets for the
    /// first time, and hands back the nodes that it met together with those
    /// that its search opens.
    pub fn show_with_config(
        self,
        store: &mut ExpansionStore,
        config: JsonTreeConfig<'a>,
        renderer: &mut JsonTreeRenderer,
    ) -> (response: JsonTreeResponse)
        requires
            old(store).wf(),
        ensures
            final(store).wf(),
            response.collapsing_state_ids.wf(),
            ({
                let policy = config.policy(self.value(), self.tree());
                let frame = config.frame(self.value(), self.tree(), old(store)@);
                let met = node_visited(self.value(), Seq::empty(), frame);
                &&& final(renderer)@ == old(renderer)@ + node_events(
                    self.value(),
                    self.label(),
                    Seq::empty(),
                    frame,
                )
                &&& response@ == named_nodes(policy).union(met)
                &&& final(store)@ == seeded(old(store)@, met, policy)
            }),
    {
        let style = match config.style {
            Some(style) => style,
            None => JsonTreeStyle::default(),
        };
        let default_expand = match config.default_expand {
            Some(default_expand) => default_expand,
            None => DefaultExpand::default(),
        };

        let mut reset_path_ids = NodeIdSet::new();

        let default_expand = match default_expand {
            DefaultExpand::All => InnerExpand::All,
            DefaultExpand::Closed => InnerExpand::Closed,
            DefaultExpand::ToLevel(level) => InnerExpand::ToLevel(level),
            DefaultExpand::SearchResults(search_str) => {
                let search_match_path_ids = match SearchTerm::parse(search_str) {
                    Some(search_term) => search_term.find_matching_paths_in(
                        self.value,
                        self.id,
                        &mut reset_path_ids,
                    ),
                    None => NodeIdSet::new(),
                };
                InnerExpand::Paths(search_match_path_ids)
            },
        };
        assert(default_expand@ == config.policy(*self.value, self.id));
        assert(reset_path_ids@ =~= named_nodes(default_expand@));

        let node_config = JsonTreeNodeConfig { default_expand, style };
        let mut path_segments: Vec<JsonPointerSegment> = Vec::new();
        assert(path_view(path_segments@) =~= Seq::<Segment>::empty());
        self.show_impl(store, &mut path_segments, &mut reset_path_ids, &node_config, renderer);

        JsonTreeResponse { collapsing_state_ids: reset_path_ids }
    }

    /// Shows the node: an atomic node by its label and value, an expandable
    /// node as `show_expandable` has it. The path is left as it was found.
    fn show_impl(
        self,
        store: &mut ExpansionStore,
        path_segments: &mut Vec<JsonPointerSegment>,
        reset_path_ids: &mut NodeIdSet,
        config: &JsonTreeNodeConfig,
        renderer: &mut JsonTreeRenderer,
    )
        requires
            old(store).wf(),
        ensures
            final(store).wf(),
            old(reset_path_ids).wf() ==> final(reset_path_ids).wf(),
            final(path_segments)@ == old(path_segments)@,
            final(renderer)@ == old(renderer)@ + node_events(
                self.value(),
                self.label(),
                path_view(old(path_segments)@),
                config.frame(self.tree(), old(store)@),
            ),
            final(reset_path_ids)@ == old(reset_path_ids)@.union(
                node_visited(
                    self.value(),
                    path_view(old(path_segments)@),
                    config.frame(self.tree(), old(store)@),
                ),
            ),
            final(store)@ == seeded(
                old(store)@,
                node_visited(
                    self.value(),
                    path_view(old(path_segments)@),
                    config.frame(self.tree(), old(store)@),
                ),
                config.default_expand@,
            ),
        decreases *self.value,
    {
        match self.value {
            JsonTreeValue::Base(display_value, value_type) => {
                if let Some(property) = self.parent {
                    renderer.render_property(
                        property,
                        JsonPointer::from_segments(path_segments),
                        None,
                    );
                    renderer.render_spacing_delimiter(SpacingDelimiter::Colon);
                }
                renderer.render_value(
                    display_value,
                    *value_type,
                    JsonPointer::from_segments(path_segments),
                );
                proof {
                    let frame = config.frame(self.id, old(store)@);
                    let path = path_view(old(path_segments)@);
                    assert(renderer@ =~= old(renderer)@ + node_events(
                        *self.value,
                        label_view(self.parent),
                        path,
                        frame,
                    ));
                    assert(reset_path_ids@ =~= old(reset_path_ids)@.union(
                        node_visited(*self.value, path, frame),
                    ));
                    assert(store@ =~= seeded(
                        old(store)@,
                        node_visited(*self.value, path, frame),
                        config.default_expand@,
                    ));
                }
            },
            JsonTreeValue::Expandable(entries, expandable_type) => {
                let expandable = Expandable {
                    id: self.id,
                    entries,
                    expandable_type: *expandable_type,
                    parent: self.parent,
                };
                show_expandable(store, path_segments, reset_path_ids, expandable, config, renderer);
            },
        }
    }
}

/// Shows an expandable node. It is met and, if nothing is remembered of it,
/// remembered by the rule of the pass; what is then remembered decides
/// what is drawn. A closed root is drawn as one marker or on one line; any
/// other closed node as its label and one marker; an open node as its label,
/// its opening marker, each entry in full with commas in between, and its
/// closing marker. Nothing below a closed node is looked at.
fn show_expandable<'a>(
    store: &mut ExpansionStore,
    path_segments: &mut Vec<JsonPointerSegment>,
    reset_path_ids: &mut NodeIdSet,
    expandable: Expandable<'a>,
    config: &JsonTreeNodeConfig,
    renderer: &mut JsonTreeRenderer,
)
    requires
        old(store).wf(),
    ensures
        final(store).wf(),
        old(reset_path_ids).wf() ==> final(reset_path_ids).wf(),
        final(path_segments)@ == old(path_segments)@,
        final(renderer)@ == old(renderer)@ + node_events(
            JsonTreeValue::Expandable(*expandable.entries, expandable.expandable_type),
            label_view(expandable.parent),
            path_view(old(path_segments)@),
            config.frame(expandable.id, old(store)@),
        ),
        final(reset_path_ids)@ == old(reset_path_ids)@.union(
            node_visited(
                JsonTreeValue::Expandable(*expandable.entries, expandable.expandable_type),
                path_view(old(path_segments)@),
                config.frame(expandable.id, old(store)@),
            ),
        ),
        final(store)@ == seeded(
            old(store)@,
            node_visited(
                JsonTreeValue::Expandable(*expandable.entries, expandable.expandable_type),
                path_view(old(path_segments)@),
                config.frame(expandable.id, old(store)@),
            ),
            config.default_expand@,
        ),
    decreases *expandable.entries,
{
    let entries = expandable.entries;
    let kind = expandable.expandable_type;
    let ghost value = JsonTreeValue::Expandable(*entries, kind);
    let ghost frame = config.frame(expandable.id, old(store)@);
    let ghost path = path_view(old(path_segments)@);
    let ghost key = NodeKey { tree: expandable.id, path };
    let ghost policy = config.default_expand@;

    let delimiters = ExpandableDelimiters::for_type(kind);

    let path_id = identifier_for(expandable.id, path_segments);
    reset_path_ids.insert(path_id.clone());

    let default_open = config.default_expand.default_open(&path_id);
    let is_expanded = store.get_or_seed(&path_id, default_open);
    proof {
        assert(is_expanded == frame.open.contains(key));
        assert(store@ =~= seeded(old(store)@, set![key], policy));
        lemma_seeding_keeps_open_nodes(old(store)@, set![key], policy);
    }

    if path_segments.len() == 0 && !is_expanded {
        if config.style.abbreviate_root {
            renderer.render_expandable_delimiter(
                delimiters.collapsed,
                JsonPointer::from_segments(path_segments),
                path_id,
            );
            proof {
                assert(renderer@ =~= old(renderer)@ + node_events(
                    value,
                    label_view(expandable.parent),
                    path,
                    frame,
                ));
                assert(reset_path_ids@ =~= old(reset_path_ids)@.union(
                    node_visited(value, path, frame),
                ));
            }
            return ;
        }
        renderer.render_expandable_delimiter(
            delimiters.opening,
            JsonPointer::from_segments(path_segments),
            path_id.clone(),
        );
        renderer.render_spacing_delimiter(SpacingDelimiter::Empty);

        let ghost head = renderer@;
        let entries_len: usize = entries.len();
        let mut idx: usize = 0;
        while idx < entries_len
            invariant
                idx <= entries_len,
                entries_len == entries.len(),
                path_segments@ == old(path_segments)@,
                path == path_view(path_segments@),
                path_id@ == key,
                key == (NodeKey { tree: expandable.id, path }),
                renderer@ == head + summary_events(entries@, kind, key, idx as nat),
            decreases entries_len - idx,
        {
            let property = &entries[idx].0;
            let elem = &entries[idx].1;
            let ghost before = renderer@;
            path_segments.push(property.clone());
            proof {
                lemma_path_view_push(old(path_segments)@, path_segments@.last());
            }

            // An array that is closed shows its values without their places.
            if let ExpandableType::Object = kind {
                renderer.render_property(
                    property,
                    JsonPointer::from_segments(path_segments),
                    Some(path_id.clone()),
                );
                renderer.render_spacing_delimiter(SpacingDelimiter::Colon);
            }
            match elem {
                JsonTreeValue::Base(display_value, value_type) => {
                    renderer.render_value(
                        display_value,
                        *value_type,
                        JsonPointer::from_segments(path_segments),
                    );
                },
                JsonTreeValue::Expandable(inner, inner_kind) => {
                    let nested_delimiters = ExpandableDelimiters::for_type(*inner_kind);
                    let delimiter = nested_delimiters.collapsed_for(inner.len());
                    renderer.render_expandable_delimiter(
                        delimiter,
                        JsonPointer::from_segments(path_segments),
                        path_id.clone(),
                    );
                },
            }
            let spacing = if idx == entries_len - 1 {
                SpacingDelimiter::Empty
            } else {
                SpacingDelimiter::Comma
            };
            renderer.render_spacing_delimiter(spacing);

            let _ = path_segments.pop();
            proof {
                assert(path_segments@ =~= old(path_segments)@);
                assert(renderer@ =~= before + summary_entry_events(
                    entries@[idx as int],
                    kind,
                    key,
                    idx + 1 == entries_len,
                ));
                assert(renderer@ =~= head + summary_events(entries@, kind, key, (idx + 1) as nat));
            }
            idx = idx + 1;
        }

        renderer.render_expandable_delimiter(
            delimiters.closing,
            JsonPointer::from_segments(path_segments),
            path_id,
        );
        proof {
            assert(renderer@ =~= old(renderer)@ + node_events(
                value,
                label_view(expandable.parent),
                path,
                frame,
            ));
            assert(reset_path_ids@ =~= old(reset_path_ids)@.union(node_visited(value, path, frame)));
        }
    } else {
        if let Some(property) = expandable.parent {
            renderer.render_property(
                property,
                JsonPointer::from_segments(path_segments),
                Some(path_id.clone()),
            );
            renderer.render_spacing_delimiter(SpacingDelimiter::Colon);
        }
        if is_expanded {
            renderer.render_expandable_delimiter(
                delimiters.opening,
                JsonPointer::from_segments(path_segments),
                path_id.clone(),
            );

            let ghost head = renderer@;
            let ghost met = old(reset_path_ids)@.insert(key);
            let entries_len: usize = entries.len();
            let mut idx: usize = 0;
            while idx < entries_len
                invariant
                    idx <= entries_len,
                    entries_len == entries.len(),
                    entries == expandable.entries,
                    key == (NodeKey { tree: expandable.id, path }),
                    store.wf(),
                    old(reset_path_ids).wf() ==> reset_path_ids.wf(),
                    path_segments@ == old(path_segments)@,
                    path == path_view(path_segments@),
                    frame == config.frame(expandable.id, old(store)@),
                    policy == config.default_expand@,
                    renderer@ == head + entries_events(entries@, kind, path, frame, idx as nat),
                    reset_path_ids@ == met.union(entries_visited(entries@, path, frame, idx as nat)),
                    store@ == seeded(
                        old(store)@,
                        entries_visited(entries@, path, frame, idx as nat).insert(key),
                        policy,
                    ),
                decreases entries_len - idx,
            {
                let property = &entries[idx].0;
                let elem = &entries[idx].1;
                let ghost visited_before = entries_visited(entries@, path, frame, idx as nat);
                path_segments.push(property.clone());
                proof {
                    lemma_path_view_push(old(path_segments)@, path_segments@.last());
                    lemma_seeding_keeps_open_nodes(old(store)@, visited_before.insert(key), policy);
                }

                let nested_tree = JsonTreeNode {
                    id: expandable.id,
                    value: elem,
                    parent: match kind {
                        ExpandableType::Object => Some(property),
                        // An array shows the place of an entry only where
                        // the entry needs a label to be opened and closed by.
                        ExpandableType::Array => if elem.is_expandable() {
                            Some(property)
                        } else {
                            None
                        },
                    },
                };
                nested_tree.show_impl(store, path_segments, reset_path_ids, config, renderer);

                let _ = path_segments.pop();
                if idx + 1 < entries_len {
                    renderer.render_spacing_delimiter(SpacingDelimiter::Comma);
                }
                proof {
                    assert(path_segments@ =~= old(path_segments)@);
                    assert(label_view(nested_tree.parent) == entry_label(kind, entries@[idx as int]));
                    assert(renderer@ =~= head + entries_events(
                        entries@,
                        kind,
                        path,
                        frame,
                        (idx + 1) as nat,
                    ));
                    assert(reset_path_ids@ =~= met.union(
                        entries_visited(entries@, path, frame, (idx + 1) as nat),
                    ));
                    assert(store@ =~= seeded(
                        old(store)@,
                        entries_visited(entries@, path, frame, (idx + 1) as nat).insert(key),
                        policy,
                    ));
                }
                idx = idx + 1;
            }

            renderer.render_expandable_delimiter(
                delimiters.closing,
                JsonPointer::from_segments(path_segments),
                path_id,
            );
        } else {
            let delimiter = delimiters.collapsed_for(entries.len());
            renderer.render_expandable_delimiter(
                delimiter,
                JsonPointer::from_segments(path_segments),
                path_id,
            );
        }
        proof {
            assert(renderer@ =~= old(renderer)@ + node_events(
                value,
                label_view(expandable.parent),
                path,
                frame,
            ));
            assert(reset_path_ids@ =~= old(reset_path_ids)@.union(node_visited(value, path, frame)));
            assert(store@ =~= seeded(old(store)@, node_visited(value, path, frame), policy));
        }
    }
}

} // verus!
