//! Writing a start tag: the check of names, the namespace declarations of
//! an element, its name and its attributes.

use vstd::prelude::*;
use vstd::string::*;
use crate::element::{
    attr_name_error, attr_step, attr_written, attrs_pass, declaration, duplicate_at,
    first_not_name_char, generated_prefix, lemma_attrs_pass_stops, name_error, opening,
    recorded, resolution, AttrContext, AttrState, FrameView, Recorded, Scope,
};
use crate::error::{checked, Emission, SerializeError};
use crate::escape::serialize_attr_value;
use crate::names::{
    attrs_view, is_void_element, map_opt_atom, ns_key, opt_eq, opt_str, opt_text, text_or_empty,
    Attribute, Namespace, Prefix, QualName, HTML_NAMESPACE, XMLNS_NAMESPACE, XML_NAMESPACE,
};
use crate::prefix_map::{added, LocalPrefixMap, NamespacePrefixMap};
use crate::text::{contains_char, push_decimal, str_eq};
use crate::util::{is_name_char, is_name_start_char, name_char, name_start_char};

verus! {

broadcast use vstd::string::group_string_axioms;

proof fn lemma_first_not_name_char(s: Seq<char>, k: int)
    requires
        0 <= k <= s.len(),
        forall|j: int| 0 <= j < k ==> name_char(s[j]),
        k < s.len() ==> !name_char(s[k]),
    ensures
        first_not_name_char(s) == if k < s.len() {
            Some(s[k])
        } else {
            None
        },
    decreases s.len(),
{
    if k > 0 {
        let rest = s.drop_first();
        assert forall|j: int| 0 <= j < k - 1 implies name_char(rest[j]) by {
            assert(rest[j] == s[j + 1]);
        }
        lemma_first_not_name_char(rest, k - 1);
    }
}

/// Checks that `local` is a local name: without a colon, its first
/// character one that starts a name, the others ones that a name holds.
pub fn check_local_name(local: &str) -> (r: Result<(), SerializeError>)
    ensures
        r == checked(name_error(local@)),
{
    if contains_char(local, ':') {
        return Err(SerializeError::LocalNameColon);
    }
    let mut first = true;
    for c in it: local.chars()
        invariant
            it.seq() == local@,
            !local@.contains(':'),
            first == (it.index() == 0),
            it.index() > 0 ==> name_start_char(local@[0]),
            forall|j: int| 1 <= j < it.index() ==> name_char(local@[j]),
    {
        if first {
            first = false;
            if !is_name_start_char(c) {
                return Err(SerializeError::LocalNameStart(c));
            }
        } else {
            if !is_name_char(c) {
                proof {
                    let rest = local@.drop_first();
                    assert forall|j: int| 0 <= j < it.index() - 1 implies name_char(rest[j]) by {
                        assert(rest[j] == local@[j + 1]);
                    }
                    lemma_first_not_name_char(rest, it.index() - 1);
                }
                return Err(SerializeError::LocalNameChar(c));
            }
        }
    }
    proof {
        if local@.len() > 0 {
            let rest = local@.drop_first();
            assert forall|j: int| 0 <= j < rest.len() implies name_char(rest[j]) by {
                assert(rest[j] == local@[j + 1]);
            }
            lemma_first_not_name_char(rest, rest.len() as int);
        }
    }
    Ok(())
}

/// Writes the declaration of `ns`, for `prefix` or as default namespace.
pub fn write_declaration(out: &mut String, prefix: Option<&str>, ns: &str, well_formed: bool) -> (r:
    Result<(), SerializeError>)
    ensures
        final(out)@ == old(out)@ + declaration(opt_str(prefix), ns@, well_formed).text,
        r == declaration(opt_str(prefix), ns@, well_formed).result(),
{
    match prefix {
        Some(p) => {
            out.append(" xmlns:");
            out.append(p);
            out.append("=\"");
        },
        None => {
            out.append(" xmlns=\"");
        },
    }
    serialize_attr_value(out, ns, well_formed)?;
    out.push('"');
    Ok(())
}

/// The key under which `ns` is recorded: none for the empty namespace.
pub fn namespace_key(ns: &str) -> (key: Option<Namespace>)
    ensures
        opt_text(key) == ns_key(ns@),
{
    if ns.is_empty() {
        None
    } else {
        Some(ns.to_owned())
    }
}

/// Makes up a prefix from the counter, records it for `new_namespace` and
/// moves the counter on.
pub fn generate_prefix(
    map: &mut NamespacePrefixMap,
    new_namespace: &Namespace,
    prefix_index: &mut u32,
) -> (prefix: Prefix)
    requires
        old(map).wf(),
        *old(prefix_index) < u32::MAX,
    ensures
        final(map).wf(),
        prefix@ == generated_prefix(*old(prefix_index) as nat),
        final(map)@ == added(old(map)@, ns_key(new_namespace@), prefix@),
        *final(prefix_index) == *old(prefix_index) + 1,
{
    let mut generated = "ns".to_owned();
    proof {
        reveal_strlit("ns");
    }
    push_decimal(&mut generated, *prefix_index);
    *prefix_index = *prefix_index + 1;
    map.add(namespace_key(new_namespace.as_str()), generated.clone());
    generated
}

/// Takes note of the namespace declarations among `attrs`: records the
/// prefixes that they declare in `map` and in `local_prefixes_map`, and
/// returns the default namespace that they declare, if they declare one.
pub fn recording_namespace_information(
    map: &mut NamespacePrefixMap,
    local_prefixes_map: &mut LocalPrefixMap,
    attrs: &Vec<Attribute>,
) -> (default_ns: Option<Namespace>)
    requires
        old(map).wf(),
        old(local_prefixes_map)@ == Map::<Seq<char>, Seq<char>>::empty(),
    ensures
        final(map).wf(),
        recorded(old(map)@, attrs_view(attrs@)) == (Recorded {
            map: final(map)@,
            local: final(local_prefixes_map)@,
            default_ns: opt_text(default_ns),
        }),
{
    let mut default_namespace_attr_value: Option<Namespace> = None;
    let ghost all = attrs_view(attrs@);
    let mut i: usize = 0;
    while i < attrs.len()
        invariant
            i <= attrs.len(),
            all == attrs_view(attrs@),
            map.wf(),
            recorded(old(map)@, all.take(i as int)) == (Recorded {
                map: map@,
                local: local_prefixes_map@,
                default_ns: opt_text(default_namespace_attr_value),
            }),
        decreases attrs.len() - i,
    {
        let attr = &attrs[i];
        proof {
            assert(all.take(i + 1).drop_last() == all.take(i as int));
        }
        if str_eq(attr.name.ns.as_str(), XMLNS_NAMESPACE) {
            match &attr.name.prefix {
                None => {
                    default_namespace_attr_value = Some(attr.value.clone());
                },
                Some(_) => {
                    if !str_eq(attr.value.as_str(), XML_NAMESPACE) {
                        let namespace_definition = namespace_key(attr.value.as_str());
                        if !map.find_prefix(&namespace_definition, &attr.name.local) {
                            map.add(namespace_definition, attr.name.local.clone());
                            local_prefixes_map.insert(attr.name.local.clone(), attr.value.clone());
                        }
                    }
                },
            }
        }
        i += 1;
    }
    assert(all.take(i as int) == all);
    default_namespace_attr_value
}

/// Checks that an attribute may have the name `name`.
pub fn check_attr_name(name: &QualName) -> (r: Result<(), SerializeError>)
    ensures
        r == checked(attr_name_error(name@)),
{
    check_local_name(name.local.as_str())?;
    if str_eq(name.local.as_str(), "xmlns") && name.ns.as_str().is_empty() {
        Err(SerializeError::XmlnsAttribute)
    } else {
        Ok(())
    }
}

/// Writes `attr` with `prefix`: a space, the name, and the value in
/// quotes.
pub fn write_attr(out: &mut String, attr: &Attribute, prefix: Option<&str>, well_formed: bool) -> (r:
    Result<(), SerializeError>)
    ensures
        final(out)@ == old(out)@ + attr_written(attr@, opt_str(prefix), well_formed).text,
        r == attr_written(attr@, opt_str(prefix), well_formed).result(),
{
    out.push(' ');
    match prefix {
        Some(p) => {
            out.append(p);
            out.push(':');
        },
        None => {},
    }
    if well_formed {
        check_attr_name(&attr.name)?;
    }
    out.append(attr.name.local.as_str());
    out.append("=\"");
    serialize_attr_value(out, attr.value.as_str(), well_formed)?;
    out.push('"');
    Ok(())
}

/// Whether an attribute before the one at `i` has its namespace and local
/// name.
pub fn is_repeated(attrs: &Vec<Attribute>, i: usize) -> (r: bool)
    requires
        i < attrs.len(),
    ensures
        r == duplicate_at(attrs_view(attrs@), i as int),
{
    let ghost all = attrs_view(attrs@);
    let mut j: usize = 0;
    while j < i
        invariant
            j <= i < attrs.len(),
            all == attrs_view(attrs@),
            forall|k: int|
                0 <= k < j ==> !((#[trigger] all[k]).name.ns == all[i as int].name.ns
                    && all[k].name.local == all[i as int].name.local),
        decreases i - j,
    {
        if attrs[j].name == attrs[i].name {
            assert(all[j as int].name.ns == all[i as int].name.ns);
            return true;
        }
        j += 1;
    }
    false
}

/// Writes one attribute of an element; `duplicate` says that an earlier
/// one has its namespace and local name. `ambient` holds the prefixes that
/// were known before the element, `map` those known now.
pub fn serialize_attr(
    out: &mut String,
    attr: &Attribute,
    duplicate: bool,
    map: &mut NamespacePrefixMap,
    ambient: &NamespacePrefixMap,
    local_prefixes_map: &LocalPrefixMap,
    ignore_namespace_definition: bool,
    well_formed: bool,
    prefix_index: &mut u32,
) -> (r: Result<(), SerializeError>)
    requires
        old(map).wf(),
        ambient.wf(),
        *old(prefix_index) < u32::MAX,
    ensures
        final(map).wf(),
        ({
            let cx = AttrContext {
                ambient: ambient@,
                local: local_prefixes_map@,
                ignore_default: ignore_namespace_definition,
                well_formed,
            };
            let step = attr_step(cx, old(map)@, *old(prefix_index) as nat, attr@, duplicate);
            &&& final(out)@ == old(out)@ + step.emission.text
            &&& r == step.emission.result()
            &&& final(map)@ == step.map
            &&& *final(prefix_index) == step.index
            &&& *final(prefix_index) <= *old(prefix_index) + 1
        }),
{
    reveal(attr_step);
    if well_formed && duplicate {
        return Err(SerializeError::DuplicateAttribute);
    }
    if attr.name.ns.as_str().is_empty() {
        return write_attr(out, attr, None, well_formed);
    }
    if str_eq(attr.name.ns.as_str(), XMLNS_NAMESPACE) {
        let redeclare_xml_namespace = str_eq(attr.value.as_str(), XML_NAMESPACE);
        let ignored_ns_def = ignore_namespace_definition && attr.name.prefix.is_none();
        let redefine_namespace = match &attr.name.prefix {
            Some(_) => {
                let previously_defined = ambient.find_prefix(
                    &namespace_key(attr.value.as_str()),
                    &attr.name.local,
                );
                let bound_here = match local_prefixes_map.get(&attr.name.local) {
                    Some(ns) => str_eq(ns.as_str(), attr.value.as_str()),
                    None => false,
                };
                previously_defined && !bound_here
            },
            None => false,
        };
        if redeclare_xml_namespace || ignored_ns_def || redefine_namespace {
            return Ok(());
        }
        if well_formed {
            if str_eq(attr.value.as_str(), XMLNS_NAMESPACE) {
                return Err(SerializeError::XmlnsNamespaceDeclared);
            }
            if attr.value.as_str().is_empty() {
                return Err(SerializeError::EmptyNamespaceDeclared);
            }
        }
        return write_attr(out, attr, Some("xmlns"), well_formed);
    }
    let search_prefix = map_opt_atom(&attr.name.prefix);
    let candidate_prefix = map.retrieve_preferred_prefix(&Some(attr.name.ns.clone()), &search_prefix);
    match candidate_prefix {
        Some(prefix) => write_attr(out, attr, Some(prefix.as_str()), well_formed),
        None => {
            let prefix = generate_prefix(map, &attr.name.ns, prefix_index);
            write_declaration(out, Some(prefix.as_str()), attr.name.ns.as_str(), well_formed)?;
            write_attr(out, attr, Some(prefix.as_str()), well_formed)
        },
    }
}

/// Writes the attributes of an element, in their order. `ambient` holds
/// the prefixes that were known before the element, `map` those known
/// behind its name; prefixes made up for attributes are added to `map`.
pub fn serialize_elem_attrs(
    out: &mut String,
    attributes: &Vec<Attribute>,
    map: &mut NamespacePrefixMap,
    ambient: &NamespacePrefixMap,
    local_prefixes_map: &LocalPrefixMap,
    ignore_namespace_definition: bool,
    well_formed: bool,
    prefix_index: &mut u32,
) -> (r: Result<(), SerializeError>)
    requires
        old(map).wf(),
        ambient.wf(),
        *old(prefix_index) + attributes.len() <= u32::MAX,
    ensures
        final(map).wf(),
        ({
            let cx = AttrContext {
                ambient: ambient@,
                local: local_prefixes_map@,
                ignore_default: ignore_namespace_definition,
                well_formed,
            };
            let start = AttrState {
                map: old(map)@,
                index: *old(prefix_index) as nat,
                emission: Emission::nothing(),
            };
            let pass = attrs_pass(cx, start, attrs_view(attributes@), attributes.len() as nat);
            &&& final(out)@ == old(out)@ + pass.emission.text
            &&& r == pass.emission.result()
            &&& final(map)@ == pass.map
            &&& *final(prefix_index) == pass.index
            &&& *final(prefix_index) <= *old(prefix_index) + attributes.len()
        }),
{
    let ghost cx = AttrContext {
        ambient: ambient@,
        local: local_prefixes_map@,
        ignore_default: ignore_namespace_definition,
        well_formed,
    };
    let ghost start = AttrState {
        map: map@,
        index: *prefix_index as nat,
        emission: Emission::nothing(),
    };
    let ghost all = attrs_view(attributes@);
    let ghost mut written = Seq::<char>::empty();
    let mut i: usize = 0;
    while i < attributes.len()
        invariant
            i <= attributes.len(),
            all == attrs_view(attributes@),
            map.wf(),
            ambient.wf(),
            cx == (AttrContext {
                ambient: ambient@,
                local: local_prefixes_map@,
                ignore_default: ignore_namespace_definition,
                well_formed,
            }),
            start == (AttrState {
                map: old(map)@,
                index: *old(prefix_index) as nat,
                emission: Emission::nothing(),
            }),
            *prefix_index <= *old(prefix_index) + i,
            *old(prefix_index) + attributes.len() <= u32::MAX,
            attrs_pass(cx, start, all, i as nat) == (AttrState {
                map: map@,
                index: *prefix_index as nat,
                emission: Emission::of(written),
            }),
            out@ == old(out)@ + written,
        decreases attributes.len() - i,
    {
        let repeated = is_repeated(attributes, i);
        let r = serialize_attr(
            out,
            &attributes[i],
            repeated,
            map,
            ambient,
            local_prefixes_map,
            ignore_namespace_definition,
            well_formed,
            prefix_index,
        );
        proof {
            let step = attr_step(
                cx,
                attrs_pass(cx, start, all, i as nat).map,
                attrs_pass(cx, start, all, i as nat).index,
                all[i as int],
                duplicate_at(all, i as int),
            );
            written = written + step.emission.text;
        }
        match r {
            Err(e) => {
                proof {
                    lemma_attrs_pass_stops(cx, start, all, (i + 1) as nat, attributes.len() as nat);
                }
                return Err(e);
            },
            Ok(()) => {},
        }
        i += 1;
    }
    Ok(())
}

/// How the name of an element was written.
pub struct ElementName {
    /// The name as written.
    pub qualified_name: String,
    /// The namespace that the element's children inherit.
    pub inherited_ns: Option<Namespace>,
    /// The element's own declaration of a default namespace is not to be
    /// written.
    pub ignore_namespace_definition: bool,
}

fn clone_opt(o: &Option<String>) -> (r: Option<String>)
    ensures
        opt_text(r) == opt_text(*o),
{
    match o {
        Some(text) => Some(text.clone()),
        None => None,
    }
}

/// Writes the name of an element and, where one is due, the declaration
/// of its namespace. `inherited_ns` is the namespace that the element
/// inherits, `local_default_namespace` the default namespace that it
/// declares itself, `local_prefixes_map` the prefixes that it declares,
/// `map` the prefixes known.
pub fn write_element_name(
    out: &mut String,
    name: &QualName,
    inherited_ns: &Option<Namespace>,
    local_default_namespace: &Option<Namespace>,
    local_prefixes_map: &LocalPrefixMap,
    map: &mut NamespacePrefixMap,
    well_formed: bool,
    prefix_index: &mut u32,
) -> (r: Result<ElementName, SerializeError>)
    requires
        old(map).wf(),
        *old(prefix_index) < u32::MAX,
    ensures
        final(map).wf(),
        ({
            let res = resolution(
                opt_text(*inherited_ns),
                well_formed,
                *old(prefix_index) as nat,
                name@,
                Recorded {
                    map: old(map)@,
                    local: local_prefixes_map@,
                    default_ns: opt_text(*local_default_namespace),
                },
            );
            &&& final(out)@ == old(out)@ + res.emission.text
            &&& final(map)@ == res.map
            &&& *final(prefix_index) == res.index
            &&& *final(prefix_index) <= *old(prefix_index) + 1
            &&& match r {
                Ok(written) => {
                    &&& res.emission.error is None
                    &&& written.qualified_name@ == res.qualified_name
                    &&& opt_text(written.inherited_ns) == res.inherited
                    &&& written.ignore_namespace_definition == res.ignore_default
                },
                Err(e) => res.emission.error == Some(e),
            }
        }),
{
    reveal(resolution);
    let ns = name.ns.as_str();
    let same = match inherited_ns {
        Some(inherited) => str_eq(inherited.as_str(), ns),
        None => ns.is_empty(),
    };
    assert(same == (text_or_empty(opt_text(*inherited_ns)) == name@.ns)) by {
        if inherited_ns is None {
            assert(ns@.len() == 0 <==> ns@ =~= Seq::<char>::empty());
        }
    }
    let mut qualified_name = String::new();
    if same {
        if str_eq(ns, XML_NAMESPACE) {
            qualified_name.append("xml:");
        }
        qualified_name.append(name.local.as_str());
        out.append(qualified_name.as_str());
        return Ok(
            ElementName {
                qualified_name,
                inherited_ns: clone_opt(inherited_ns),
                ignore_namespace_definition: local_default_namespace.is_some(),
            },
        );
    }
    let xmlns_prefix = opt_eq(&name.prefix, "xmlns");
    if xmlns_prefix && well_formed {
        return Err(SerializeError::XmlnsElementPrefix);
    }
    let candidate_prefix = if xmlns_prefix {
        clone_opt(&name.prefix)
    } else {
        map.retrieve_preferred_prefix(&namespace_key(ns), &map_opt_atom(&name.prefix))
    };
    match candidate_prefix {
        Some(prefix) => {
            qualified_name.append(prefix.as_str());
            qualified_name.push(':');
            qualified_name.append(name.local.as_str());
            out.append(qualified_name.as_str());
            let inherited = match local_default_namespace {
                Some(declared) => {
                    if declared.as_str().is_empty() {
                        None
                    } else if !str_eq(declared.as_str(), XML_NAMESPACE) {
                        Some(declared.clone())
                    } else {
                        clone_opt(inherited_ns)
                    }
                },
                None => clone_opt(inherited_ns),
            };
            Ok(
                ElementName {
                    qualified_name,
                    inherited_ns: inherited,
                    ignore_namespace_definition: false,
                },
            )
        },
        None => match &name.prefix {
            Some(own) => {
                let prefix = if local_prefixes_map.contains_key(own) {
                    generate_prefix(map, &name.ns, prefix_index)
                } else {
                    own.clone()
                };
                map.add(namespace_key(ns), prefix.clone());
                qualified_name.append(prefix.as_str());
                qualified_name.push(':');
                qualified_name.append(name.local.as_str());
                out.append(qualified_name.as_str());
                write_declaration(out, Some(prefix.as_str()), ns, well_formed)?;
                let inherited = if local_default_namespace.is_some() {
                    clone_opt(local_default_namespace)
                } else {
                    clone_opt(inherited_ns)
                };
                Ok(
                    ElementName {
                        qualified_name,
                        inherited_ns: inherited,
                        ignore_namespace_definition: false,
                    },
                )
            },
            None => {
                qualified_name.append(name.local.as_str());
                out.append(qualified_name.as_str());
                if local_default_namespace.is_none() {
                    write_declaration(out, None, ns, well_formed)?;
                }
                Ok(
                    ElementName {
                        qualified_name,
                        inherited_ns: Some(name.ns.clone()),
                        ignore_namespace_definition: false,
                    },
                )
            },
        },
    }
}

/// What is kept of an open element until it is closed.
pub struct ElemInfo {
    /// Closing the element writes nothing.
    pub skip_end_tag: bool,
    /// The element's name as its start tag has it.
    pub qualified_name: String,
    /// The prefixes that the element's children know.
    pub prefix_map: NamespacePrefixMap,
    /// The namespace that the element's children inherit.
    pub inherited_ns: Option<Namespace>,
}

impl View for ElemInfo {
    type V = FrameView;

    open spec fn view(&self) -> FrameView {
        FrameView {
            skip_end_tag: self.skip_end_tag,
            qualified_name: self.qualified_name@,
            scope: Scope { map: self.prefix_map@, inherited: opt_text(self.inherited_ns) },
        }
    }
}

/// Writes the start tag of an element. `ambient` holds the prefixes known
/// around the element, `inherited_ns` is the namespace that it inherits.
/// Returns what is to be kept of the element while it is open.
pub fn write_start_tag(
    out: &mut String,
    name: &QualName,
    attrs: &Vec<Attribute>,
    leaf_node: bool,
    ambient: &NamespacePrefixMap,
    inherited_ns: &Option<Namespace>,
    well_formed: bool,
    prefix_index: &mut u32,
) -> (r: Result<ElemInfo, SerializeError>)
    requires
        ambient.wf(),
        *old(prefix_index) + attrs.len() < u32::MAX,
    ensures
        ({
            let o = opening(
                Scope { map: ambient@, inherited: opt_text(*inherited_ns) },
                well_formed,
                *old(prefix_index) as nat,
                name@,
                attrs_view(attrs@),
                leaf_node,
            );
            &&& final(out)@ == old(out)@ + o.emission.text
            &&& *final(prefix_index) == o.index
            &&& *final(prefix_index) <= *old(prefix_index) + attrs.len() + 1
            &&& match r {
                Ok(frame) => o.emission.error is None && frame@ == o.frame && frame.prefix_map.wf(),
                Err(e) => o.emission.error == Some(e),
            }
        }),
{
    reveal(opening);
    if well_formed {
        check_local_name(name.local.as_str())?;
    }
    out.push('<');
    let mut map = ambient.clone();
    let mut local_prefixes_map = LocalPrefixMap::new();
    let local_default_namespace = recording_namespace_information(
        &mut map,
        &mut local_prefixes_map,
        attrs,
    );
    let written = write_element_name(
        out,
        name,
        inherited_ns,
        &local_default_namespace,
        &local_prefixes_map,
        &mut map,
        well_formed,
        prefix_index,
    )?;
    serialize_elem_attrs(
        out,
        attrs,
        &mut map,
        ambient,
        &local_prefixes_map,
        written.ignore_namespace_definition,
        well_formed,
        prefix_index,
    )?;
    let html = str_eq(name.ns.as_str(), HTML_NAMESPACE);
    let ignore_children = html && leaf_node && is_void_element(&name.local);
    let empty_node = !html && leaf_node;
    if ignore_children {
        out.append(" />");
    } else if empty_node {
        out.append("/>");
    } else {
        out.append(">");
    }
    Ok(
        ElemInfo {
            skip_end_tag: ignore_children || empty_node,
            qualified_name: written.qualified_name,
            prefix_map: map,
            inherited_ns: written.inherited_ns,
        },
    )
}

} // verus!
