//! The render calls that a walk makes, and the recorder that keeps them.

use vstd::prelude::*;
use crate::delimiters::ExpandableDelimiter;
use crate::delimiters::SpacingDelimiter;
use crate::pointer::JsonPointer;
use crate::pointer::JsonPointerSegment;
use crate::pointer::NodeId;
use crate::pointer::NodeKey;
use crate::pointer::Segment;
use crate::value::BaseValueType;

verus! {

/// One render call, as the contracts see it.
#[allow(inconsistent_fields)]
pub enum Event {
    /// The label of an entry. `collapsing_state` names the node that a click
    /// on the label opens or closes, if there is one.
    Property { property: Segment, pointer: Seq<Segment>, collapsing_state: Option<NodeKey> },
    /// An atomic value.
    Value { display_value: Seq<char>, value_type: BaseValueType, pointer: Seq<Segment> },
    /// A marker of an expandable node. `collapsing_state` names the node that
    /// a click on the marker opens or closes.
    ExpandableDelimiter {
        delimiter: ExpandableDelimiter,
        pointer: Seq<Segment>,
        collapsing_state: NodeKey,
    },
    /// A separator.
    SpacingDelimiter { delimiter: SpacingDelimiter },
}

/// One render call: what to draw, where in the document it comes from, and
/// which node's open state a click on it flips.
#[derive(Debug, PartialEq, Eq)]
#[allow(inconsistent_fields)]
pub enum RenderEvent {
    Property {
        property: JsonPointerSegment,
        pointer: JsonPointer,
        collapsing_state: Option<NodeId>,
    },
    Value { display_value: String, value_type: BaseValueType, pointer: JsonPointer },
    ExpandableDelimiter {
        delimiter: ExpandableDelimiter,
        pointer: JsonPointer,
        collapsing_state: NodeId,
    },
    SpacingDelimiter { delimiter: SpacingDelimiter },
}

impl View for RenderEvent {
    type V = Event;

    open spec fn view(&self) -> Event {
        match self {
            RenderEvent::Property { property, pointer, collapsing_state } => Event::Property {
                property: property@,
                pointer: pointer@,
                collapsing_state: match collapsing_state {
                    Some(id) => Some(id@),
                    None => None,
                },
            },
            RenderEvent::Value { display_value, value_type, pointer } => Event::Value {
                display_value: display_value@,
                value_type: *value_type,
                pointer: pointer@,
            },
            RenderEvent::ExpandableDelimiter {
                delimiter,
                pointer,
                collapsing_state,
            } => Event::ExpandableDelimiter {
                delimiter: *delimiter,
                pointer: pointer@,
                collapsing_state: collapsing_state@,
            },
            RenderEvent::SpacingDelimiter { delimiter } => Event::SpacingDelimiter {
                delimiter: *delimiter,
            },
        }
    }
}

/// The calls that a sequence of recorded events stands for.
pub open spec fn events_view(events: Seq<RenderEvent>) -> Seq<Event> {
    Seq::new(events.len(), |i: int| events[i]@)
}

/// Records the render calls of a walk, in the order in which they are made.
#[derive(Debug)]
pub struct JsonTreeRenderer {
    events: Vec<RenderEvent>,
}

impl View for JsonTreeRenderer {
    type V = Seq<Event>;

    closed spec fn view(&self) -> Seq<Event> {
        events_view(self.events@)
    }
}

impl Default for JsonTreeRenderer {
    fn default() -> (renderer: Self)
        ensures
            renderer@ == Seq::<Event>::empty(),
    {
        JsonTreeRenderer::new()
    }
}

impl JsonTreeRenderer {
    /// A recorder that has seen no call.
    pub fn new() -> (renderer: JsonTreeRenderer)
        ensures
            renderer@ == Seq::<Event>::empty(),
    {
        let renderer = JsonTreeRenderer { events: Vec::new() };
        assert(renderer@ =~= Seq::<Event>::empty());
        renderer
    }

    fn record(&mut self, event: RenderEvent)
        ensures
            final(self)@ == old(self)@.push(event@),
    {
        self.events.push(event);
        assert(self@ =~= old(self)@.push(event@));
    }

    /// Records the label of an entry.
    pub fn render_property(
        &mut self,
        property: &JsonPointerSegment,
        pointer: JsonPointer,
        collapsing_state: Option<NodeId>,
    )
        ensures
            final(self)@ == old(self)@.push(
                Event::Property {
                    property: property@,
                    pointer: pointer@,
                    collapsing_state: match collapsing_state {
                        Some(id) => Some(id@),
                        None => None,
                    },
                },
            ),
    {
        self.record(RenderEvent::Property { property: property.clone(), pointer, collapsing_state });
    }

    /// Records an atomic value.
    pub fn render_value(
        &mut self,
        display_value: &String,
        value_type: BaseValueType,
        pointer: JsonPointer,
    )
        ensures
            final(self)@ == old(self)@.push(
                Event::Value { display_value: display_value@, value_type, pointer: pointer@ },
            ),
    {
        self.record(
            RenderEvent::Value { display_value: display_value.clone(), value_type, pointer },
        );
    }

    /// Records a marker of an expandable node.
    pub fn render_expandable_delimiter(
        &mut self,
        delimiter: ExpandableDelimiter,
        pointer: JsonPointer,
        collapsing_state: NodeId,
    )
        ensures
            final(self)@ == old(self)@.push(
                Event::ExpandableDelimiter {
                    delimiter,
                    pointer: pointer@,
                    collapsing_state: collapsing_state@,
                },
            ),
    {
        self.record(RenderEvent::ExpandableDelimiter { delimiter, pointer, collapsing_state });
    }

    /// Records a separator.
    pub fn render_spacing_delimiter(&mut self, delimiter: SpacingDelimiter)
        ensures
            final(self)@ == old(self)@.push(Event::SpacingDelimiter { delimiter }),
    {
        self.record(RenderEvent::SpacingDelimiter { delimiter });
    }

    /// The number of calls recorded so far.
    pub fn len(&self) -> (n: usize)
        ensures
            n == self@.len(),
    {
        self.events.len()
    }

    /// The recorded calls, first call first.
    pub fn events(&self) -> (events: &Vec<RenderEvent>)
        ensures
            events_view(events@) == self@,
    {
        &self.events
    }

    /// Hands out the recorded calls, first call first.
    pub fn into_events(self) -> (events: Vec<RenderEvent>)
        ensures
            events_view(events@) == self@,
    {
        self.events
    }
}

} // verus!
