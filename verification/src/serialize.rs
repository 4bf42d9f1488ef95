//! The serializer: it takes the events of a walk over an element tree and
//! writes the document as XML text.

use vstd::prelude::*;
use vstd::string::*;
use crate::content::{
    comment_emission, doctype_emission, processing_instruction_emission, text_emission,
};
use crate::element::{
    closing, lemma_end_tag_matches_start_tag, lemma_no_end_tag_when_self_closing, opening,
    self_closing, FrameView, Opening, Scope,
};
use crate::error::{checked, Emission, SerializeError};
use crate::names::{attrs_view, opt_text, Attribute, AttributeView, Namespace, QualName, QualNameView};
use crate::prefix_map::{default_prefix_map, NamespacePrefixMap};
use crate::tag::{write_start_tag, ElemInfo};

verus! {

/// Which part of a tree a walk covers.
#[derive(Debug)]
pub enum TraversalScope {
    /// The node and what is below it.
    IncludeNode,
    /// Only what is below the node; the name, where one is given, is that
    /// of the node.
    ChildrenOnly(Option<QualName>),
}

/// What a `TraversalScope` stands for.
pub ghost enum TraversalScopeView {
    IncludeNode,
    ChildrenOnly(Option<QualNameView>),
}

impl View for TraversalScope {
    type V = TraversalScopeView;

    open spec fn view(&self) -> TraversalScopeView {
        match self {
            TraversalScope::IncludeNode => TraversalScopeView::IncludeNode,
            TraversalScope::ChildrenOnly(Some(name)) => TraversalScopeView::ChildrenOnly(Some(name@)),
            TraversalScope::ChildrenOnly(None) => TraversalScopeView::ChildrenOnly(None),
        }
    }
}

impl Clone for TraversalScope {
    fn clone(&self) -> (scope: TraversalScope)
        ensures
            scope@ == self@,
    {
        match self {
            TraversalScope::IncludeNode => TraversalScope::IncludeNode,
            TraversalScope::ChildrenOnly(name) => TraversalScope::ChildrenOnly(
                match name {
                    Some(n) => Some(n.clone()),
                    None => None,
                },
            ),
        }
    }
}

/// The options of a serializer.
#[derive(Debug)]
pub struct SerializeOpts {
    /// Which part of the tree is walked. Default: the children only.
    pub traversal_scope: TraversalScope,
    /// Whether what cannot be read back as it was is refused. Default: yes.
    pub require_well_formed: bool,
    /// The namespace that the outermost elements inherit. Default: none.
    pub context_namespace: Option<Namespace>,
    /// The prefixes known at the start. Default: `xml` for the XML
    /// namespace.
    pub prefix_map: NamespacePrefixMap,
    /// The counter from which prefixes are made up. Default: 1.
    pub prefix_index: u32,
}

impl Default for SerializeOpts {
    fn default() -> (opts: SerializeOpts)
        ensures
            opts.traversal_scope@ == TraversalScopeView::ChildrenOnly(None),
            opts.require_well_formed,
            opts.context_namespace is None,
            opts.prefix_map.wf(),
            opts.prefix_map@ == default_prefix_map(),
            opts.prefix_index == 1,
    {
        SerializeOpts {
            traversal_scope: TraversalScope::ChildrenOnly(None),
            require_well_formed: true,
            context_namespace: None,
            prefix_map: NamespacePrefixMap::default(),
            prefix_index: 1,
        }
    }
}

impl Clone for SerializeOpts {
    fn clone(&self) -> (opts: SerializeOpts)
        ensures
            opts.traversal_scope@ == self.traversal_scope@,
            opts.require_well_formed == self.require_well_formed,
            opt_text(opts.context_namespace) == opt_text(self.context_namespace),
            self.prefix_map.wf() ==> opts.prefix_map.wf() && opts.prefix_map@ == self.prefix_map@,
            opts.prefix_index == self.prefix_index,
    {
        SerializeOpts {
            traversal_scope: self.traversal_scope.clone(),
            require_well_formed: self.require_well_formed,
            context_namespace: match &self.context_namespace {
                Some(ns) => Some(ns.clone()),
                None => None,
            },
            prefix_map: self.prefix_map.clone(),
            prefix_index: self.prefix_index,
        }
    }
}

/// Writes a document as XML text that other XML parsers can read, from the
/// events of a walk over its tree: `start_elem` and `end_elem` around the
/// events of an element's children.
pub struct XmlSerializer {
    out: String,
    opts: SerializeOpts,
    stack: Vec<ElemInfo>,
}

/// What an `XmlSerializer` stands for.
pub ghost struct SerializerView {
    /// The text written and not yet taken.
    pub output: Seq<char>,
    /// The open elements, the outermost first.
    pub frames: Seq<FrameView>,
    /// What the outermost elements start from.
    pub root: Scope,
    /// Whether well-formedness is required.
    pub well_formed: bool,
    /// The counter from which prefixes are made up.
    pub prefix_index: nat,
}

impl SerializerView {
    /// What the next element starts from: what the innermost open element
    /// hands down, or the root scope where no element is open.
    pub open spec fn scope(self) -> Scope {
        if self.frames.len() == 0 {
            self.root
        } else {
            self.frames.last().scope
        }
    }

    /// What opening an element gives here.
    pub open spec fn opening(
        self,
        name: QualNameView,
        attrs: Seq<AttributeView>,
        leaf_node: bool,
    ) -> Opening {
        opening(self.scope(), self.well_formed, self.prefix_index, name, attrs, leaf_node)
    }

    /// The serializer behind a start tag: the tag is written, and the
    /// element is open unless an error stopped the writing.
    pub open spec fn start_elem(
        self,
        name: QualNameView,
        attrs: Seq<AttributeView>,
        leaf_node: bool,
    ) -> SerializerView {
        let o = self.opening(name, attrs, leaf_node);
        SerializerView {
            output: self.output + o.emission.text,
            frames: if o.emission.error is None {
                self.frames.push(o.frame)
            } else {
                self.frames
            },
            prefix_index: o.index,
            ..self
        }
    }

    /// The serializer behind the end of the innermost open element. Where
    /// no element is open, nothing changes.
    pub open spec fn end_elem(self) -> SerializerView {
        if self.frames.len() == 0 {
            self
        } else {
            SerializerView {
                output: self.output + closing(self.frames.last()),
                frames: self.frames.drop_last(),
                ..self
            }
        }
    }

    /// The serializer behind the writing of `emission`.
    pub open spec fn wrote(self, emission: Emission) -> SerializerView {
        SerializerView { output: self.output + emission.text, ..self }
    }
}

impl View for XmlSerializer {
    type V = SerializerView;

    closed spec fn view(&self) -> SerializerView {
        SerializerView {
            output: self.out@,
            frames: Seq::new(self.stack.len() as nat, |i: int| self.stack[i]@),
            root: Scope {
                map: self.opts.prefix_map@,
                inherited: opt_text(self.opts.context_namespace),
            },
            well_formed: self.opts.require_well_formed,
            prefix_index: self.opts.prefix_index as nat,
        }
    }
}

impl XmlSerializer {
    /// The prefix maps of the options and of the open elements are well
    /// formed.
    pub closed spec fn wf(&self) -> bool {
        &&& self.opts.prefix_map.wf()
        &&& forall|i: int| 0 <= i < self.stack.len() ==> (#[trigger] self.stack[i]).prefix_map.wf()
    }

    /// Creates a serializer with the given options. Nothing is written
    /// yet, and no element is open.
    pub fn new(opts: SerializeOpts) -> (ser: XmlSerializer)
        requires
            opts.prefix_map.wf(),
        ensures
            ser.wf(),
            ser@ == (SerializerView {
                output: Seq::empty(),
                frames: Seq::empty(),
                root: Scope { map: opts.prefix_map@, inherited: opt_text(opts.context_namespace) },
                well_formed: opts.require_well_formed,
                prefix_index: opts.prefix_index as nat,
            }),
    {
        let ser = XmlSerializer { out: String::new(), opts, stack: Vec::new() };
        assert(ser@.frames =~= Seq::empty());
        ser
    }

    /// Opens an element: writes its start tag, and keeps what its end tag
    /// and its children need. `leaf_node` says that the element has no
    /// children.
    pub fn start_elem(&mut self, name: QualName, attrs: &Vec<Attribute>, leaf_node: bool) -> (r: Result<
        (),
        SerializeError,
    >)
        requires
            old(self).wf(),
            old(self)@.prefix_index + attrs.len() < u32::MAX,
        ensures
            final(self).wf(),
            final(self)@ == old(self)@.start_elem(name@, attrs_view(attrs@), leaf_node),
            r == old(self)@.opening(name@, attrs_view(attrs@), leaf_node).emission.result(),
            final(self)@.prefix_index <= old(self)@.prefix_index + attrs.len() + 1,
    {
        let ghost before = self@;
        let depth = self.stack.len();
        let (ambient, inherited_ns) = if depth == 0 {
            (&self.opts.prefix_map, &self.opts.context_namespace)
        } else {
            (&self.stack[depth - 1].prefix_map, &self.stack[depth - 1].inherited_ns)
        };
        let r = write_start_tag(
            &mut self.out,
            &name,
            attrs,
            leaf_node,
            ambient,
            inherited_ns,
            self.opts.require_well_formed,
            &mut self.opts.prefix_index,
        );
        match r {
            Err(e) => Err(e),
            Ok(frame) => {
                self.stack.push(frame);
                assert(self@.frames =~= before.frames.push(frame@));
                Ok(())
            },
        }
    }

    /// Closes the innermost open element: writes its end tag, with the
    /// name that its start tag has, unless the start tag closed the element
    /// already. Where no element is open, nothing is written. The name
    /// that is handed in is not looked at, so that the end tag has the
    /// prefix that was chosen for the start tag.
    pub fn end_elem(&mut self, name: QualName) -> (r: Result<(), SerializeError>)
        requires
            old(self).wf(),
        ensures
            final(self).wf(),
            final(self)@ == old(self)@.end_elem(),
            r == Ok::<(), SerializeError>(()),
    {
        let ghost before = self@;
        match self.stack.pop() {
            Some(info) => {
                if !info.skip_end_tag {
                    self.out.append("</");
                    self.out.append(info.qualified_name.as_str());
                    self.out.append(">");
                }
                assert(self.out@ =~= before.output + closing(info@));
                assert(self@.frames =~= before.frames.drop_last());
            },
            None => {},
        }
        Ok(())
    }

    /// Writes a text between tags.
    pub fn write_text(&mut self, text: &str) -> (r: Result<(), SerializeError>)
        requires
            old(self).wf(),
        ensures
            final(self).wf(),
            final(self)@ == old(self)@.wrote(text_emission(text@, old(self)@.well_formed)),
            r == text_emission(text@, old(self)@.well_formed).result(),
    {
        crate::content::write_text(&mut self.out, text, self.opts.require_well_formed)
    }

    /// Writes a comment.
    pub fn write_comment(&mut self, text: &str) -> (r: Result<(), SerializeError>)
        requires
            old(self).wf(),
        ensures
            final(self).wf(),
            final(self)@ == old(self)@.wrote(comment_emission(text@, old(self)@.well_formed)),
            r == comment_emission(text@, old(self)@.well_formed).result(),
    {
        crate::content::write_comment(&mut self.out, text, self.opts.require_well_formed)
    }

    /// Writes a document type declaration.
    pub fn write_doctype(&mut self, text: &str) -> (r: Result<(), SerializeError>)
        requires
            old(self).wf(),
        ensures
            final(self).wf(),
            final(self)@ == old(self)@.wrote(doctype_emission(text@)),
            r == doctype_emission(text@).result(),
    {
        crate::content::write_doctype(&mut self.out, text)
    }

    /// Writes a processing instruction.
    pub fn write_processing_instruction(&mut self, target: &str, data: &str) -> (r: Result<
        (),
        SerializeError,
    >)
        requires
            old(self).wf(),
        ensures
            final(self).wf(),
            final(self)@ == old(self)@.wrote(
                processing_instruction_emission(target@, data@, old(self)@.well_formed),
            ),
            r == processing_instruction_emission(target@, data@, old(self)@.well_formed).result(),
    {
        crate::content::write_processing_instruction(
            &mut self.out,
            target,
            data,
            self.opts.require_well_formed,
        )
    }

    /// The text written and not yet taken.
    pub fn output(&self) -> (text: &str)
        ensures
            text@ == self@.output,
    {
        self.out.as_str()
    }

    /// Takes the text written so far out of the serializer, which goes on
    /// with nothing written.
    pub fn take_output(&mut self) -> (text: String)
        requires
            old(self).wf(),
        ensures
            final(self).wf(),
            text@ == old(self)@.output,
            final(self)@ == (SerializerView { output: Seq::empty(), ..old(self)@ }),
    {
        let mut text = String::new();
        std::mem::swap(&mut self.out, &mut text);
        text
    }

    /// The counter from which the next prefix is made up.
    pub fn prefix_index(&self) -> (index: u32)
        ensures
            index == self@.prefix_index,
    {
        self.opts.prefix_index
    }

    /// Whether well-formedness is required.
    pub fn require_well_formed(&self) -> (required: bool)
        ensures
            required == self@.well_formed,
    {
        self.opts.require_well_formed
    }

    /// The number of open elements.
    pub fn depth(&self) -> (n: usize)
        ensures
            n == self@.frames.len(),
    {
        self.stack.len()
    }
}

/// One event of a walk over an element tree.
#[derive(Debug)]
pub enum Event {
    /// An element starts. `leaf_node` says that it has no children.
    StartElem { name: QualName, attrs: Vec<Attribute>, leaf_node: bool },
    /// The innermost open element ends.
    EndElem { name: QualName },
    /// A text.
    Text(String),
    /// A comment.
    Comment(String),
    /// A document type declaration.
    Doctype(String),
    /// A processing instruction.
    ProcessingInstruction { target: String, data: String },
}

/// What an `Event` stands for.
pub ghost enum EventView {
    StartElem { name: QualNameView, attrs: Seq<AttributeView>, leaf_node: bool },
    EndElem { name: QualNameView },
    Text(Seq<char>),
    Comment(Seq<char>),
    Doctype(Seq<char>),
    ProcessingInstruction { target: Seq<char>, data: Seq<char> },
}

impl View for Event {
    type V = EventView;

    open spec fn view(&self) -> EventView {
        match self {
            Event::StartElem { name, attrs, leaf_node } => EventView::StartElem {
                name: name@,
                attrs: attrs_view(attrs@),
                leaf_node: *leaf_node,
            },
            Event::EndElem { name } => EventView::EndElem { name: name@ },
            Event::Text(text) => EventView::Text(text@),
            Event::Comment(text) => EventView::Comment(text@),
            Event::Doctype(text) => EventView::Doctype(text@),
            Event::ProcessingInstruction { target, data } => EventView::ProcessingInstruction {
                target: target@,
                data: data@,
            },
        }
    }
}

/// What a list of events stands for.
pub open spec fn events_view(events: Seq<Event>) -> Seq<EventView> {
    Seq::new(events.len(), |i: int| events[i]@)
}

/// How far one event can move the counter of made-up prefixes: an element
/// can need one for its name and one for each of its attributes.
pub open spec fn prefix_demand_of(event: EventView) -> nat {
    match event {
        EventView::StartElem { attrs, .. } => attrs.len() + 1,
        _ => 0,
    }
}

/// How far a list of events can move the counter of made-up prefixes.
pub open spec fn prefix_demand(events: Seq<EventView>) -> nat
    decreases events.len(),
{
    if events.len() == 0 {
        0
    } else {
        prefix_demand(events.drop_last()) + prefix_demand_of(events.last())
    }
}

/// A serializer, and the error that stopped it, if one did.
pub ghost struct Run {
    pub serializer: SerializerView,
    pub error: Option<SerializeError>,
}

impl SerializerView {
    /// The error that stops `event` here, if one does.
    pub open spec fn error_of(self, event: EventView) -> Option<SerializeError> {
        match event {
            EventView::StartElem { name, attrs, leaf_node } => self.opening(
                name,
                attrs,
                leaf_node,
            ).emission.error,
            EventView::EndElem { .. } => None,
            EventView::Text(text) => text_emission(text, self.well_formed).error,
            EventView::Comment(text) => comment_emission(text, self.well_formed).error,
            EventView::Doctype(text) => doctype_emission(text).error,
            EventView::ProcessingInstruction { target, data } => processing_instruction_emission(
                target,
                data,
                self.well_formed,
            ).error,
        }
    }

    /// The serializer behind `event`.
    pub open spec fn event(self, event: EventView) -> SerializerView {
        match event {
            EventView::StartElem { name, attrs, leaf_node } => self.start_elem(
                name,
                attrs,
                leaf_node,
            ),
            EventView::EndElem { .. } => self.end_elem(),
            EventView::Text(text) => self.wrote(text_emission(text, self.well_formed)),
            EventView::Comment(text) => self.wrote(comment_emission(text, self.well_formed)),
            EventView::Doctype(text) => self.wrote(doctype_emission(text)),
            EventView::ProcessingInstruction { target, data } => self.wrote(
                processing_instruction_emission(target, data, self.well_formed),
            ),
        }
    }

    /// The serializer behind `events`, taken in their order up to the first
    /// one that an error stops.
    pub open spec fn run(self, events: Seq<EventView>) -> Run
        decreases events.len(),
    {
        if events.len() == 0 {
            Run { serializer: self, error: None }
        } else {
            let before = self.run(events.drop_last());
            if before.error is Some {
                before
            } else {
                Run {
                    serializer: before.serializer.event(events.last()),
                    error: before.serializer.error_of(events.last()),
                }
            }
        }
    }
}

/// Closing an element right after it was opened without an error leaves
/// the elements open that were open before, and has written the start tag
/// and what closes the element: where the start tag does not close it,
/// the end tag with the name of the start tag.
pub proof fn lemma_open_then_close(
    v: SerializerView,
    name: QualNameView,
    attrs: Seq<AttributeView>,
    leaf_node: bool,
)
    requires
        v.opening(name, attrs, leaf_node).emission.error is None,
    ensures
        ({
            let o = v.opening(name, attrs, leaf_node);
            let end_tag = if self_closing(name, leaf_node) {
                Seq::<char>::empty()
            } else {
                "</"@ + o.frame.qualified_name + ">"@
            };
            v.start_elem(name, attrs, leaf_node).end_elem() == (SerializerView {
                output: v.output + o.emission.text + end_tag,
                prefix_index: o.index,
                ..v
            })
        }),
{
    let o = v.opening(name, attrs, leaf_node);
    if self_closing(name, leaf_node) {
        lemma_no_end_tag_when_self_closing(
            v.scope(),
            v.well_formed,
            v.prefix_index,
            name,
            attrs,
            leaf_node,
        );
    } else {
        lemma_end_tag_matches_start_tag(
            v.scope(),
            v.well_formed,
            v.prefix_index,
            name,
            attrs,
            leaf_node,
        );
    }
    assert(v.frames.push(o.frame).drop_last() =~= v.frames);
}

/// How many more elements `events` open than they close.
pub open spec fn depth_change(events: Seq<EventView>) -> int
    decreases events.len(),
{
    if events.len() == 0 {
        0
    } else {
        depth_change(events.drop_last()) + match events.last() {
            EventView::StartElem { .. } => 1int,
            EventView::EndElem { .. } => -1int,
            _ => 0int,
        }
    }
}

/// Whether `events` close only elements that they opened.
pub open spec fn nested(events: Seq<EventView>) -> bool {
    forall|k: int| 0 <= k <= events.len() ==> depth_change(#[trigger] events.take(k)) >= 0
}

/// Whether `events` are the events of a list of whole nodes: they close
/// only elements that they opened, and all of these.
pub open spec fn balanced(events: Seq<EventView>) -> bool {
    nested(events) && depth_change(events) == 0
}

/// Events that close only elements that they opened, and that no error
/// stops, leave the elements open that were open before, below those that
/// they opened and did not close.
pub proof fn lemma_nested_run(v: SerializerView, events: Seq<EventView>)
    requires
        nested(events),
        v.run(events).error is None,
    ensures
        v.run(events).serializer.frames.len() == v.frames.len() + depth_change(events),
        v.run(events).serializer.frames.take(v.frames.len() as int) == v.frames,
    decreases events.len(),
{
    if events.len() > 0 {
        let before = events.drop_last();
        assert forall|k: int| 0 <= k <= before.len() implies depth_change(
            #[trigger] before.take(k),
        ) >= 0 by {
            assert(before.take(k) == events.take(k));
        }
        lemma_nested_run(v, before);
        assert(events.take(events.len() as int) == events);
        let w = v.run(before).serializer;
        let after = w.event(events.last());
        assert(after.frames.take(v.frames.len() as int) =~= v.frames);
    }
}

/// The end that matches a start: where an element was opened without an
/// error, its start tag did not close it, and the events of its children
/// were taken without an error, the end of the element writes the end tag
/// with the name that the start tag has, and leaves the elements open that
/// were open before the element.
pub proof fn lemma_matching_end(
    v: SerializerView,
    name: QualNameView,
    attrs: Seq<AttributeView>,
    leaf_node: bool,
    children: Seq<EventView>,
)
    requires
        v.opening(name, attrs, leaf_node).emission.error is None,
        !self_closing(name, leaf_node),
        balanced(children),
        v.start_elem(name, attrs, leaf_node).run(children).error is None,
    ensures
        ({
            let o = v.opening(name, attrs, leaf_node);
            let inside = v.start_elem(name, attrs, leaf_node).run(children).serializer;
            &&& inside.end_elem().output == inside.output + ("</"@ + o.frame.qualified_name + ">"@)
            &&& inside.end_elem().frames == v.frames
        }),
{
    let o = v.opening(name, attrs, leaf_node);
    let opened = v.start_elem(name, attrs, leaf_node);
    let inside = opened.run(children).serializer;
    lemma_nested_run(opened, children);
    lemma_end_tag_matches_start_tag(v.scope(), v.well_formed, v.prefix_index, name, attrs, leaf_node);
    assert(opened.frames.last() == o.frame);
}

/// The serializer that a run with `opts` starts from.
pub open spec fn initial(opts: SerializeOpts) -> SerializerView {
    SerializerView {
        output: Seq::empty(),
        frames: Seq::empty(),
        root: Scope { map: opts.prefix_map@, inherited: opt_text(opts.context_namespace) },
        well_formed: opts.require_well_formed,
        prefix_index: opts.prefix_index as nat,
    }
}

impl XmlSerializer {
    /// Takes one event of a walk.
    pub fn event(&mut self, event: &Event) -> (r: Result<(), SerializeError>)
        requires
            old(self).wf(),
            old(self)@.prefix_index + prefix_demand_of(event@) <= u32::MAX,
        ensures
            final(self).wf(),
            final(self)@ == old(self)@.event(event@),
            r == checked(old(self)@.error_of(event@)),
            final(self)@.prefix_index <= old(self)@.prefix_index + prefix_demand_of(event@),
    {
        match event {
            Event::StartElem { name, attrs, leaf_node } => self.start_elem(
                name.clone(),
                attrs,
                *leaf_node,
            ),
            Event::EndElem { name } => self.end_elem(name.clone()),
            Event::Text(text) => self.write_text(text.as_str()),
            Event::Comment(text) => self.write_comment(text.as_str()),
            Event::Doctype(text) => self.write_doctype(text.as_str()),
            Event::ProcessingInstruction { target, data } => self.write_processing_instruction(
                target.as_str(),
                data.as_str(),
            ),
        }
    }
}

/// Once an event has stopped a run, the events behind it change nothing.
pub proof fn lemma_run_stops(start: SerializerView, events: Seq<EventView>, k: int)
    requires
        0 <= k <= events.len(),
        start.run(events.take(k)).error is Some,
    ensures
        start.run(events) == start.run(events.take(k)),
    decreases events.len(),
{
    if k < events.len() {
        assert(events.drop_last().take(k) == events.take(k));
        lemma_run_stops(start, events.drop_last(), k);
    } else {
        assert(events.take(k) == events);
    }
}

/// The events at the start of a list demand no more than the whole list.
pub proof fn lemma_prefix_demand_grows(events: Seq<EventView>, k: int)
    requires
        0 <= k <= events.len(),
    ensures
        prefix_demand(events.take(k)) <= prefix_demand(events),
    decreases events.len(),
{
    if k < events.len() {
        assert(events.drop_last().take(k) == events.take(k));
        lemma_prefix_demand_grows(events.drop_last(), k);
    } else {
        assert(events.take(k) == events);
    }
}

/// Whether the counter of made-up prefixes, starting at `prefix_index`,
/// has room for all that `events` can demand of it.
pub fn counter_suffices(events: &Vec<Event>, prefix_index: u32) -> (r: bool)
    ensures
        r == (prefix_index + prefix_demand(events_view(events@)) <= u32::MAX),
{
    let ghost all = events_view(events@);
    let mut room: u32 = u32::MAX - prefix_index;
    let mut i: usize = 0;
    while i < events.len()
        invariant
            i <= events.len(),
            all == events_view(events@),
            room == u32::MAX - prefix_index - prefix_demand(all.take(i as int)),
        decreases events.len() - i,
    {
        proof {
            assert(all.take(i + 1).drop_last() == all.take(i as int));
            lemma_prefix_demand_grows(all, i + 1);
        }
        match &events[i] {
            Event::StartElem { attrs, .. } => {
                if attrs.len() >= room as usize {
                    return false;
                }
                room = room - (attrs.len() as u32 + 1);
            },
            _ => {},
        }
        i += 1;
    }
    assert(all.take(i as int) == all);
    true
}

/// Writes the document that `events` describe to `out`, as XML text. The
/// writing stops at the first event that cannot be written; what was
/// written until then stays in `out`.
pub fn serialize(out: &mut String, events: &Vec<Event>, opts: SerializeOpts) -> (r: Result<
    (),
    SerializeError,
>)
    requires
        opts.prefix_map.wf(),
        opts.prefix_index + prefix_demand(events_view(events@)) <= u32::MAX,
    ensures
        final(out)@ == old(out)@ + initial(opts).run(events_view(events@)).serializer.output,
        r == checked(initial(opts).run(events_view(events@)).error),
{
    let ghost start = initial(opts);
    let ghost all = events_view(events@);
    let ghost first = opts.prefix_index as nat;
    let mut ser = XmlSerializer::new(opts);
    let mut i: usize = 0;
    while i < events.len()
        invariant
            i <= events.len(),
            all == events_view(events@),
            start == initial(opts),
            out@ == old(out)@,
            ser.wf(),
            start.run(all.take(i as int)) == (Run { serializer: ser@, error: None }),
            ser@.prefix_index <= first + prefix_demand(all.take(i as int)),
            first + prefix_demand(all) <= u32::MAX,
        decreases events.len() - i,
    {
        proof {
            assert(all.take(i + 1).drop_last() == all.take(i as int));
            lemma_prefix_demand_grows(all, i + 1);
        }
        match ser.event(&events[i]) {
            Err(e) => {
                proof {
                    lemma_run_stops(start, all, i + 1);
                }
                out.append(ser.output());
                return Err(e);
            },
            Ok(()) => {},
        }
        i += 1;
    }
    assert(all.take(i as int) == all);
    out.append(ser.output());
    Ok(())
}

} // verus!
