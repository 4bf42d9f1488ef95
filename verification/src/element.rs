//! What opening an element writes, and which prefix stands for its
//! namespace and for the namespaces of its attributes.

use vstd::prelude::*;
use vstd::string::*;
use crate::error::{Emission, SerializeError};
use crate::escape::escape_emission;
use crate::names::{
    ns_key, text_or_empty, void_element_name, AttributeView, QualNameView, HTML_NAMESPACE,
    XMLNS_NAMESPACE, XML_NAMESPACE,
};
use crate::prefix_map::{
    added, candidates, found, preferred_prefix, LocalPrefixView, PrefixMapView,
};
use crate::text::{decimal, lemma_decimal_injective};
use crate::util::{name_char, name_start_char};

verus! {

/// What an element hands down to its children: the prefixes known so far,
/// and the namespace of names that are written without a prefix.
pub ghost struct Scope {
    pub map: PrefixMapView,
    pub inherited: Option<Seq<char>>,
}

/// The first character of `s` that no name may hold, if there is one.
pub open spec fn first_not_name_char(s: Seq<char>) -> Option<char>
    decreases s.len(),
{
    if s.len() == 0 {
        None
    } else if !name_char(s[0]) {
        Some(s[0])
    } else {
        first_not_name_char(s.drop_first())
    }
}

/// Why `local` is no local name, if it is none: it holds a colon, or it
/// starts with a character that starts no name, or it holds a character
/// that no name holds.
pub open spec fn name_error(local: Seq<char>) -> Option<SerializeError> {
    if local.contains(':') {
        Some(SerializeError::LocalNameColon)
    } else if local.len() > 0 && !name_start_char(local[0]) {
        Some(SerializeError::LocalNameStart(local[0]))
    } else if local.len() > 0 && first_not_name_char(local.drop_first()) is Some {
        Some(SerializeError::LocalNameChar(first_not_name_char(local.drop_first())->0))
    } else {
        None
    }
}

/// Why an attribute cannot have the name `name`, if it cannot: its local
/// name is no local name, or it is `xmlns` in no namespace.
pub open spec fn attr_name_error(name: QualNameView) -> Option<SerializeError> {
    if name_error(name.local) is Some {
        name_error(name.local)
    } else if name.local == "xmlns"@ && name.ns.len() == 0 {
        Some(SerializeError::XmlnsAttribute)
    } else {
        None
    }
}

/// What the namespace declarations among an element's attributes say.
pub ghost struct Recorded {
    /// The prefixes known, those that the element declares included.
    pub map: PrefixMapView,
    /// The prefixes that the element declares and that were not known
    /// for their namespace, each with its namespace.
    pub local: LocalPrefixView,
    /// The value of the element's declaration of a default namespace, if
    /// it has one.
    pub default_ns: Option<Seq<char>>,
}

/// Takes note of one attribute. A declaration without a prefix sets the
/// default namespace. A declaration with a prefix is recorded, unless it
/// declares the XML namespace or is known already.
pub open spec fn record_attr(r: Recorded, a: AttributeView) -> Recorded {
    if a.name.ns != XMLNS_NAMESPACE@ {
        r
    } else if a.name.prefix is None {
        Recorded { default_ns: Some(a.value), ..r }
    } else if a.value == XML_NAMESPACE@ || found(r.map, ns_key(a.value), a.name.local) {
        r
    } else {
        Recorded {
            map: added(r.map, ns_key(a.value), a.name.local),
            local: r.local.insert(a.name.local, a.value),
            default_ns: r.default_ns,
        }
    }
}

/// Takes note of the attributes of an element, in their order, starting
/// from the prefixes in `map`.
pub open spec fn recorded(map: PrefixMapView, attrs: Seq<AttributeView>) -> Recorded
    decreases attrs.len(),
{
    if attrs.len() == 0 {
        Recorded { map, local: Map::empty(), default_ns: None }
    } else {
        record_attr(recorded(map, attrs.drop_last()), attrs.last())
    }
}

/// The prefix that is made up from the counter `index`.
pub open spec fn generated_prefix(index: nat) -> Seq<char> {
    seq!['n', 's'] + decimal(index)
}

/// Prefixes made up from two states of the counter differ.
pub proof fn lemma_generated_prefixes_differ(i: nat, j: nat)
    requires
        i != j,
    ensures
        generated_prefix(i) != generated_prefix(j),
{
    if generated_prefix(i) == generated_prefix(j) {
        assert(generated_prefix(i).skip(2) =~= decimal(i));
        assert(generated_prefix(j).skip(2) =~= decimal(j));
        lemma_decimal_injective(i, j);
    }
}

/// A prefix and a colon, or nothing.
pub open spec fn prefix_colon(prefix: Option<Seq<char>>) -> Seq<char> {
    match prefix {
        Some(p) => p.push(':'),
        None => Seq::empty(),
    }
}

/// The declaration of `ns`, as default namespace or for `prefix`, with a
/// space before it.
pub open spec fn declaration(
    prefix: Option<Seq<char>>,
    ns: Seq<char>,
    well_formed: bool,
) -> Emission {
    let head = match prefix {
        Some(p) => " xmlns:"@ + p + "=\""@,
        None => " xmlns=\""@,
    };
    Emission::of(head).followed_by(escape_emission(ns, true, well_formed)).followed_by(
        Emission::of(seq!['"']),
    )
}

/// How an element's name is written, and what that leaves.
pub ghost struct Resolution {
    /// The name and, where one is due, the declaration of its namespace.
    pub emission: Emission,
    /// The name as written.
    pub qualified_name: Seq<char>,
    /// The prefixes known behind the name.
    pub map: PrefixMapView,
    /// The counter behind the name.
    pub index: nat,
    /// The namespace that the element's children inherit.
    pub inherited: Option<Seq<char>>,
    /// The element's own declaration of a default namespace is not to be
    /// written.
    pub ignore_default: bool,
}

/// The namespace that the children of an element inherit whose name is
/// written with a known prefix: the default namespace that the element
/// declares, unless that is the XML namespace; else what the element
/// inherited.
pub open spec fn inherited_behind_prefix(
    inherited: Option<Seq<char>>,
    default_ns: Option<Seq<char>>,
) -> Option<Seq<char>> {
    match default_ns {
        Some(d) => if d.len() == 0 {
            None
        } else if d != XML_NAMESPACE@ {
            Some(d)
        } else {
            inherited
        },
        None => inherited,
    }
}

/// How the name of an element is written.
///
/// In the namespace that it inherits, the name has no prefix, but for the
/// XML namespace, and the element's own declaration of a default namespace
/// is not to be written. Elsewhere: the prefix `xmlns` is refused where
/// well-formedness is required; a prefix known for the namespace is taken;
/// else the element's own prefix is declared, or a made-up prefix where
/// the element binds its own to something else; else the name has no prefix
/// and its namespace is declared as default, unless the element declares a
/// default namespace itself.
#[verifier::opaque]
pub open spec fn resolution(
    inherited: Option<Seq<char>>,
    well_formed: bool,
    index: nat,
    name: QualNameView,
    r: Recorded,
) -> Resolution {
    let plain = Resolution {
        emission: Emission::of(name.local),
        qualified_name: name.local,
        map: r.map,
        index,
        inherited,
        ignore_default: false,
    };
    if text_or_empty(inherited) == name.ns {
        let q = if name.ns == XML_NAMESPACE@ {
            "xml:"@ + name.local
        } else {
            name.local
        };
        Resolution {
            emission: Emission::of(q),
            qualified_name: q,
            ignore_default: r.default_ns is Some,
            ..plain
        }
    } else if name.prefix == Some("xmlns"@) && well_formed {
        Resolution {
            emission: Emission::fail(SerializeError::XmlnsElementPrefix),
            qualified_name: Seq::empty(),
            ..plain
        }
    } else {
        let known = if name.prefix == Some("xmlns"@) {
            name.prefix
        } else {
            preferred_prefix(r.map, ns_key(name.ns), text_or_empty(name.prefix))
        };
        if known is Some {
            let q = prefix_colon(known) + name.local;
            Resolution {
                emission: Emission::of(q),
                qualified_name: q,
                inherited: inherited_behind_prefix(inherited, r.default_ns),
                ..plain
            }
        } else if name.prefix is Some {
            let clash = r.local.dom().contains(name.prefix->0);
            let p = if clash {
                generated_prefix(index)
            } else {
                name.prefix->0
            };
            let made = if clash {
                added(r.map, ns_key(name.ns), p)
            } else {
                r.map
            };
            let q = prefix_colon(Some(p)) + name.local;
            Resolution {
                emission: Emission::of(q).followed_by(declaration(Some(p), name.ns, well_formed)),
                qualified_name: q,
                map: added(made, ns_key(name.ns), p),
                index: if clash {
                    index + 1
                } else {
                    index
                },
                inherited: if r.default_ns is Some {
                    r.default_ns
                } else {
                    inherited
                },
                ignore_default: false,
            }
        } else {
            Resolution {
                emission: if r.default_ns is None {
                    Emission::of(name.local).followed_by(declaration(None, name.ns, well_formed))
                } else {
                    Emission::of(name.local)
                },
                inherited: Some(name.ns),
                ..plain
            }
        }
    }
}

/// What the writing of an element's attributes goes by.
pub ghost struct AttrContext {
    /// The prefixes that were known before the element.
    pub ambient: PrefixMapView,
    /// The prefixes that the element declares.
    pub local: LocalPrefixView,
    /// The element's declaration of a default namespace is not written.
    pub ignore_default: bool,
    /// Well-formedness is required.
    pub well_formed: bool,
}

/// The prefixes known, the counter, and what was written.
pub ghost struct AttrState {
    pub map: PrefixMapView,
    pub index: nat,
    pub emission: Emission,
}

/// Whether a namespace declaration is left out: it declares the XML
/// namespace; or it is the declaration of a default namespace that is not
/// to be written; or it has a prefix, its binding was known before the
/// element, and the element does not bind that prefix to this namespace
/// itself.
pub open spec fn declaration_skipped(cx: AttrContext, a: AttributeView) -> bool {
    ||| a.value == XML_NAMESPACE@
    ||| (cx.ignore_default && a.name.prefix is None)
    ||| (a.name.prefix is Some && found(cx.ambient, ns_key(a.value), a.name.local) && !(
    cx.local.dom().contains(a.name.local) && cx.local[a.name.local] == a.value))
}

/// An attribute as written with `prefix`: a space, the name, and the
/// value in quotes. Where well-formedness is required, the writing stops
/// before a local name that is none.
pub open spec fn attr_written(
    a: AttributeView,
    prefix: Option<Seq<char>>,
    well_formed: bool,
) -> Emission {
    Emission::of(seq![' '] + prefix_colon(prefix)).followed_by(
        if well_formed && attr_name_error(a.name) is Some {
            Emission::fail(attr_name_error(a.name)->0)
        } else {
            Emission::of(a.name.local + "=\""@)
        },
    ).followed_by(escape_emission(a.value, true, well_formed)).followed_by(Emission::of(seq!['"']))
}

/// Writes one attribute, with the prefixes in `map` known and the counter
/// at `index`. `duplicate` says that an earlier attribute of the element
/// has the same namespace and local name.
///
/// An attribute in no namespace has no prefix. A namespace declaration is
/// left out or written with the prefix `xmlns`; where well-formedness is
/// required, it may declare neither the namespace of declarations nor the
/// empty namespace. Any other attribute has the prefix known for its
/// namespace, or else a made-up prefix, declared before it.
#[verifier::opaque]
pub open spec fn attr_step(
    cx: AttrContext,
    map: PrefixMapView,
    index: nat,
    a: AttributeView,
    duplicate: bool,
) -> AttrState {
    let stop = |e: SerializeError| AttrState { map, index, emission: Emission::fail(e) };
    let write = |prefix: Option<Seq<char>>|
        AttrState { map, index, emission: attr_written(a, prefix, cx.well_formed) };
    if cx.well_formed && duplicate {
        stop(SerializeError::DuplicateAttribute)
    } else if a.name.ns.len() == 0 {
        write(None)
    } else if a.name.ns == XMLNS_NAMESPACE@ {
        if declaration_skipped(cx, a) {
            AttrState { map, index, emission: Emission::nothing() }
        } else if cx.well_formed && a.value == XMLNS_NAMESPACE@ {
            stop(SerializeError::XmlnsNamespaceDeclared)
        } else if cx.well_formed && a.value.len() == 0 {
            stop(SerializeError::EmptyNamespaceDeclared)
        } else {
            write(Some("xmlns"@))
        }
    } else {
        let known = preferred_prefix(map, Some(a.name.ns), text_or_empty(a.name.prefix));
        if known is Some {
            write(known)
        } else {
            let p = generated_prefix(index);
            AttrState {
                map: added(map, Some(a.name.ns), p),
                index: index + 1,
                emission: declaration(Some(p), a.name.ns, cx.well_formed).followed_by(
                    attr_written(a, Some(p), cx.well_formed),
                ),
            }
        }
    }
}

/// Whether an attribute before the one at `i` has its namespace and local
/// name.
pub open spec fn duplicate_at(attrs: Seq<AttributeView>, i: int) -> bool {
    exists|j: int|
        0 <= j < i && (#[trigger] attrs[j]).name.ns == attrs[i].name.ns && attrs[j].name.local
            == attrs[i].name.local
}

/// Writes the first `n` attributes in their order, up to the first error.
pub open spec fn attrs_pass(
    cx: AttrContext,
    start: AttrState,
    attrs: Seq<AttributeView>,
    n: nat,
) -> AttrState
    decreases n,
{
    if n == 0 {
        start
    } else {
        let before = attrs_pass(cx, start, attrs, (n - 1) as nat);
        if before.emission.error is Some {
            before
        } else {
            let step = attr_step(
                cx,
                before.map,
                before.index,
                attrs[n - 1],
                duplicate_at(attrs, n - 1),
            );
            AttrState { emission: before.emission.followed_by(step.emission), ..step }
        }
    }
}

/// Once an attribute has stopped the writing, the attributes behind it
/// change nothing.
pub proof fn lemma_attrs_pass_stops(
    cx: AttrContext,
    start: AttrState,
    attrs: Seq<AttributeView>,
    k: nat,
    n: nat,
)
    requires
        k <= n,
        attrs_pass(cx, start, attrs, k).emission.error is Some,
    ensures
        attrs_pass(cx, start, attrs, n) == attrs_pass(cx, start, attrs, k),
    decreases n,
{
    if k < n {
        lemma_attrs_pass_stops(cx, start, attrs, k, (n - 1) as nat);
    }
}

/// What is kept of an open element until it is closed.
pub ghost struct FrameView {
    /// Closing the element writes nothing.
    pub skip_end_tag: bool,
    /// The element's name as its start tag has it.
    pub qualified_name: Seq<char>,
    /// What the element hands down to its children.
    pub scope: Scope,
}

/// What the opening of an element gives.
pub ghost struct Opening {
    /// The start tag, or as much of it as was written before an error.
    pub emission: Emission,
    /// The counter behind the start tag.
    pub index: nat,
    /// What is kept of the element, where there was no error.
    pub frame: FrameView,
}

/// Whether the element is written as an empty HTML element.
pub open spec fn is_void(name: QualNameView, leaf_node: bool) -> bool {
    name.ns == HTML_NAMESPACE@ && leaf_node && void_element_name(name.local)
}

/// Whether the element, which is no HTML element, is written as an empty
/// element.
pub open spec fn is_empty(name: QualNameView, leaf_node: bool) -> bool {
    name.ns != HTML_NAMESPACE@ && leaf_node
}

/// Whether the start tag of the element closes it.
pub open spec fn self_closing(name: QualNameView, leaf_node: bool) -> bool {
    is_void(name, leaf_node) || is_empty(name, leaf_node)
}

/// The end of a start tag.
pub open spec fn tag_end(name: QualNameView, leaf_node: bool) -> Seq<char> {
    if is_void(name, leaf_node) {
        " />"@
    } else if is_empty(name, leaf_node) {
        "/>"@
    } else {
        ">"@
    }
}

/// Opens an element in `scope`: checks its local name where
/// well-formedness is required, takes note of its namespace declarations,
/// writes `<`, its name, its attributes and the end of the tag.
#[verifier::opaque]
pub open spec fn opening(
    scope: Scope,
    well_formed: bool,
    index: nat,
    name: QualNameView,
    attrs: Seq<AttributeView>,
    leaf_node: bool,
) -> Opening {
    let r = recorded(scope.map, attrs);
    let res = resolution(scope.inherited, well_formed, index, name, r);
    let cx = AttrContext {
        ambient: scope.map,
        local: r.local,
        ignore_default: res.ignore_default,
        well_formed,
    };
    let named = AttrState { map: res.map, index: res.index, emission: Emission::nothing() };
    let pass = if res.emission.error is Some {
        named
    } else {
        attrs_pass(cx, named, attrs, attrs.len())
    };
    let frame = FrameView {
        skip_end_tag: self_closing(name, leaf_node),
        qualified_name: res.qualified_name,
        scope: Scope { map: pass.map, inherited: res.inherited },
    };
    if well_formed && name_error(name.local) is Some {
        Opening { emission: Emission::fail(name_error(name.local)->0), index, frame }
    } else {
        Opening {
            emission: Emission::of(seq!['<']).followed_by(res.emission).followed_by(
                pass.emission,
            ).followed_by(Emission::of(tag_end(name, leaf_node))),
            index: pass.index,
            frame,
        }
    }
}

/// What closing an element writes: nothing where its frame says so, else
/// the end tag with the name that the start tag has.
pub open spec fn closing(frame: FrameView) -> Seq<char> {
    if frame.skip_end_tag {
        Seq::empty()
    } else {
        "</"@ + frame.qualified_name + ">"@
    }
}

/// Taking note of declarations leaves the prefixes of the XML namespace
/// as they are.
pub proof fn lemma_recorded_keeps_xml(map: PrefixMapView, attrs: Seq<AttributeView>)
    ensures
        candidates(recorded(map, attrs).map, Some(XML_NAMESPACE@)) == candidates(
            map,
            Some(XML_NAMESPACE@),
        ),
    decreases attrs.len(),
{
    if attrs.len() > 0 {
        lemma_recorded_keeps_xml(map, attrs.drop_last());
    }
}

/// Writing attributes leaves the prefixes of the XML namespace as they
/// are, where it has any.
pub proof fn lemma_attrs_pass_keeps_xml(
    cx: AttrContext,
    start: AttrState,
    attrs: Seq<AttributeView>,
    n: nat,
)
    requires
        candidates(start.map, Some(XML_NAMESPACE@)).len() > 0,
    ensures
        candidates(attrs_pass(cx, start, attrs, n).map, Some(XML_NAMESPACE@)) == candidates(
            start.map,
            Some(XML_NAMESPACE@),
        ),
    decreases n,
{
    reveal(attr_step);
    if n > 0 {
        lemma_attrs_pass_keeps_xml(cx, start, attrs, (n - 1) as nat);
    }
}

/// Opening an element moves the counter on by no more than one for its
/// name and one for each attribute, never back.
pub proof fn lemma_counter_moves_on(
    scope: Scope,
    well_formed: bool,
    index: nat,
    name: QualNameView,
    attrs: Seq<AttributeView>,
    leaf_node: bool,
)
    ensures
        index <= opening(scope, well_formed, index, name, attrs, leaf_node).index <= index
            + attrs.len() + 1,
{
    reveal(opening);
    reveal(resolution);
    let r = recorded(scope.map, attrs);
    let res = resolution(scope.inherited, well_formed, index, name, r);
    let cx = AttrContext {
        ambient: scope.map,
        local: r.local,
        ignore_default: res.ignore_default,
        well_formed,
    };
    let start = AttrState { map: res.map, index: res.index, emission: Emission::nothing() };
    lemma_attrs_pass_index(cx, start, attrs, attrs.len());
}

/// Writing attributes moves the counter on by no more than one for each,
/// never back.
pub proof fn lemma_attrs_pass_index(cx: AttrContext, start: AttrState, attrs: Seq<AttributeView>, n: nat)
    ensures
        start.index <= attrs_pass(cx, start, attrs, n).index <= start.index + n,
    decreases n,
{
    reveal(attr_step);
    if n > 0 {
        lemma_attrs_pass_index(cx, start, attrs, (n - 1) as nat);
    }
}

/// The prefixes of the XML namespace are the same for the children of an
/// element as for the element, where the namespace has any: no declaration
/// adds one, and none is taken away.
pub proof fn lemma_xml_binding_is_kept(
    scope: Scope,
    well_formed: bool,
    index: nat,
    name: QualNameView,
    attrs: Seq<AttributeView>,
    leaf_node: bool,
)
    requires
        candidates(scope.map, Some(XML_NAMESPACE@)).len() > 0,
    ensures
        candidates(
            opening(scope, well_formed, index, name, attrs, leaf_node).frame.scope.map,
            Some(XML_NAMESPACE@),
        ) == candidates(scope.map, Some(XML_NAMESPACE@)),
{
    reveal(opening);
    reveal(resolution);
    let r = recorded(scope.map, attrs);
    lemma_recorded_keeps_xml(scope.map, attrs);
    let res = resolution(scope.inherited, well_formed, index, name, r);
    let cx = AttrContext {
        ambient: scope.map,
        local: r.local,
        ignore_default: res.ignore_default,
        well_formed,
    };
    let start = AttrState { map: res.map, index: res.index, emission: Emission::nothing() };
    lemma_attrs_pass_keeps_xml(cx, start, attrs, attrs.len());
}

/// An element that was opened without an error, and whose start tag does
/// not close it, is closed by an end tag that holds the name of the start
/// tag: the start tag is `<`, that name and more, the end tag `</`, that
/// name and `>`, whichever prefix the name got.
pub proof fn lemma_end_tag_matches_start_tag(
    scope: Scope,
    well_formed: bool,
    index: nat,
    name: QualNameView,
    attrs: Seq<AttributeView>,
    leaf_node: bool,
)
    requires
        opening(scope, well_formed, index, name, attrs, leaf_node).emission.error is None,
        !self_closing(name, leaf_node),
    ensures
        ({
            let o = opening(scope, well_formed, index, name, attrs, leaf_node);
            let q = o.frame.qualified_name;
            &&& closing(o.frame) == "</"@ + q + ">"@
            &&& o.emission.text.len() >= 1 + q.len()
            &&& o.emission.text.take(q.len() + 1 as int) == seq!['<'] + q
        }),
{
    reveal(opening);
    reveal(resolution);
}

/// An element whose start tag closes it is closed without an end tag.
pub proof fn lemma_no_end_tag_when_self_closing(
    scope: Scope,
    well_formed: bool,
    index: nat,
    name: QualNameView,
    attrs: Seq<AttributeView>,
    leaf_node: bool,
)
    requires
        self_closing(name, leaf_node),
    ensures
        closing(opening(scope, well_formed, index, name, attrs, leaf_node).frame) == Seq::<
            char,
        >::empty(),
{
    reveal(opening);
}

} // verus!
