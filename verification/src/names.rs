//! Names: namespaces, prefixes, local names and qualified names.

use vstd::prelude::*;
use crate::text::str_eq;

verus! {

/// A namespace URI. The empty text stands for "no namespace".
pub type Namespace = String;

/// A namespace prefix.
pub type Prefix = String;

/// The local part of a qualified name.
pub type LocalName = String;

/// The namespace that the prefix `xml` is bound to in every document.
pub const XML_NAMESPACE: &'static str = "http://www.w3.org/XML/1998/namespace";

/// The namespace of namespace declarations.
pub const XMLNS_NAMESPACE: &'static str = "http://www.w3.org/2000/xmlns/";

/// The namespace of the HTML vocabulary.
pub const HTML_NAMESPACE: &'static str = "http://www.w3.org/1999/xhtml";

/// A qualified name. Two names are the same name when namespace and local
/// name agree; the prefix is presentation only.
#[derive(Debug)]
pub struct QualName {
    pub prefix: Option<Prefix>,
    pub ns: Namespace,
    pub local: LocalName,
}

/// What a `QualName` stands for.
pub ghost struct QualNameView {
    pub prefix: Option<Seq<char>>,
    pub ns: Seq<char>,
    pub local: Seq<char>,
}

/// The text in an optional text.
pub open spec fn opt_text(o: Option<String>) -> Option<Seq<char>> {
    match o {
        Some(s) => Some(s@),
        None => None,
    }
}

/// The text in an optional borrowed text.
pub open spec fn opt_str(o: Option<&str>) -> Option<Seq<char>> {
    match o {
        Some(s) => Some(s@),
        None => None,
    }
}

impl View for QualName {
    type V = QualNameView;

    open spec fn view(&self) -> QualNameView {
        QualNameView { prefix: opt_text(self.prefix), ns: self.ns@, local: self.local@ }
    }
}

impl QualName {
    /// A name from its three parts.
    pub fn new(prefix: Option<Prefix>, ns: Namespace, local: LocalName) -> (name: QualName)
        ensures
            name.prefix == prefix,
            name.ns == ns,
            name.local == local,
    {
        QualName { prefix, ns, local }
    }
}

impl PartialEq for QualName {
    /// Whether the two are the same name: the prefix does not count.
    fn eq(&self, other: &QualName) -> (r: bool) {
        str_eq(self.ns.as_str(), other.ns.as_str()) && str_eq(
            self.local.as_str(),
            other.local.as_str(),
        )
    }
}

impl vstd::std_specs::cmp::PartialEqSpecImpl for QualName {
    open spec fn obeys_eq_spec() -> bool {
        true
    }

    open spec fn eq_spec(&self, other: &QualName) -> bool {
        self.ns@ == other.ns@ && self.local@ == other.local@
    }
}

impl Clone for QualName {
    fn clone(&self) -> (name: QualName)
        ensures
            name@ == self@,
    {
        let prefix = match &self.prefix {
            Some(p) => Some(p.clone()),
            None => None,
        };
        QualName { prefix, ns: self.ns.clone(), local: self.local.clone() }
    }
}

/// An attribute: its name and its value.
#[derive(Debug)]
pub struct Attribute {
    pub name: QualName,
    pub value: String,
}

/// What an `Attribute` stands for.
pub ghost struct AttributeView {
    pub name: QualNameView,
    pub value: Seq<char>,
}

impl View for Attribute {
    type V = AttributeView;

    open spec fn view(&self) -> AttributeView {
        AttributeView { name: self.name@, value: self.value@ }
    }
}

impl Attribute {
    /// An attribute from its name and its value.
    pub fn new(name: QualName, value: String) -> (attr: Attribute)
        ensures
            attr.name == name,
            attr.value == value,
    {
        Attribute { name, value }
    }
}

impl Clone for Attribute {
    fn clone(&self) -> (attr: Attribute)
        ensures
            attr@ == self@,
    {
        Attribute { name: self.name.clone(), value: self.value.clone() }
    }
}

/// What a list of attributes stands for, in the order of the list.
pub open spec fn attrs_view(attrs: Seq<Attribute>) -> Seq<AttributeView> {
    Seq::new(attrs.len(), |i: int| attrs[i]@)
}

/// The key under which a namespace is recorded: none for the empty text.
pub open spec fn ns_key(ns: Seq<char>) -> Option<Seq<char>> {
    if ns.len() == 0 {
        None
    } else {
        Some(ns)
    }
}

/// The text of an optional name, empty where there is none.
pub open spec fn text_or_empty(o: Option<Seq<char>>) -> Seq<char> {
    match o {
        Some(s) => s,
        None => Seq::empty(),
    }
}

/// Comparison of a name, or of an optional name, with a text.
pub trait EqStr {
    /// What `eq_str` computes.
    spec fn eq_str_spec(&self, other: Seq<char>) -> bool;

    /// Whether this is the name `other`.
    fn eq_str(&self, other: &str) -> (r: bool)
        ensures
            r == self.eq_str_spec(other@),
    ;
}

impl EqStr for String {
    open spec fn eq_str_spec(&self, other: Seq<char>) -> bool {
        self@ == other
    }

    fn eq_str(&self, other: &str) -> (r: bool) {
        str_eq(self.as_str(), other)
    }
}

impl EqStr for Option<String> {
    open spec fn eq_str_spec(&self, other: Seq<char>) -> bool {
        opt_text(*self) == Some(other)
    }

    fn eq_str(&self, other: &str) -> (r: bool) {
        match self {
            Some(name) => str_eq(name.as_str(), other),
            None => false,
        }
    }
}

/// The name in `opt`, or the empty name where there is none.
pub fn map_opt_atom(opt: &Option<String>) -> (name: String)
    ensures
        name@ == text_or_empty(opt_text(*opt)),
{
    match opt {
        Some(name) => name.clone(),
        None => String::new(),
    }
}

/// Whether `opt` holds a name, and that name is `other`.
pub fn opt_eq(opt: &Option<String>, other: &str) -> (r: bool)
    ensures
        r == (opt_text(*opt) == Some(other@)),
{
    match opt {
        Some(name) => str_eq(name.as_str(), other),
        None => false,
    }
}

/// The local names of the HTML elements that never have content.
pub open spec fn void_element_name(local: Seq<char>) -> bool {
    ||| local == "area"@
    ||| local == "base"@
    ||| local == "basefont"@
    ||| local == "bgsound"@
    ||| local == "br"@
    ||| local == "col"@
    ||| local == "embed"@
    ||| local == "frame"@
    ||| local == "hr"@
    ||| local == "img"@
    ||| local == "input"@
    ||| local == "keygen"@
    ||| local == "link"@
    ||| local == "meta"@
    ||| local == "param"@
    ||| local == "source"@
    ||| local == "track"@
    ||| local == "wbr"@
}

/// Whether `local` names an HTML element that never has content.
pub fn is_void_element(local: &LocalName) -> (r: bool)
    ensures
        r == void_element_name(local@),
{
    let name = local.as_str();
    str_eq(name, "area") || str_eq(name, "base") || str_eq(name, "basefont")
        || str_eq(name, "bgsound") || str_eq(name, "br") || str_eq(name, "col")
        || str_eq(name, "embed") || str_eq(name, "frame") || str_eq(name, "hr")
        || str_eq(name, "img") || str_eq(name, "input") || str_eq(name, "keygen")
        || str_eq(name, "link") || str_eq(name, "meta") || str_eq(name, "param")
        || str_eq(name, "source") || str_eq(name, "track") || str_eq(name, "wbr")
}

} // verus!
