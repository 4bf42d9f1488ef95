use xml5ever::error::SerializeError;
use xml5ever::names::{Attribute, QualName, HTML_NAMESPACE, XMLNS_NAMESPACE, XML_NAMESPACE};
use xml5ever::prefix_map::NamespacePrefixMap;
use xml5ever::serialize::{SerializeOpts, XmlSerializer};

fn name(prefix: Option<&str>, ns: &str, local: &str) -> QualName {
    QualName::new(prefix.map(|p| p.to_string()), ns.to_string(), local.to_string())
}

fn attr(prefix: Option<&str>, ns: &str, local: &str, value: &str) -> Attribute {
    Attribute::new(name(prefix, ns, local), value.to_string())
}

fn lenient() -> SerializeOpts {
    let mut opts = SerializeOpts::default();
    opts.require_well_formed = false;
    opts
}

fn within(ns: &str) -> SerializeOpts {
    let mut opts = SerializeOpts::default();
    opts.context_namespace = Some(ns.to_string());
    opts
}

#[test]
fn element_without_namespace_and_text_child() {
    let mut ser = XmlSerializer::new(SerializeOpts::default());
    ser.start_elem(name(None, "", "a"), &Vec::new(), false).unwrap();
    ser.write_text("hi").unwrap();
    ser.end_elem(name(None, "", "a")).unwrap();
    assert_eq!(ser.output(), "<a>hi</a>");
}

#[test]
fn colon_in_local_name_is_refused_before_anything_is_written() {
    let mut ser = XmlSerializer::new(SerializeOpts::default());
    let r = ser.start_elem(name(None, "", "a:b"), &Vec::new(), false);
    assert_eq!(r, Err(SerializeError::LocalNameColon));
    assert_eq!(ser.output(), "");
    assert_eq!(ser.depth(), 0);
}

#[test]
fn colon_in_local_name_passes_without_enforcement() {
    let mut ser = XmlSerializer::new(lenient());
    ser.start_elem(name(None, "", "a:b"), &Vec::new(), false).unwrap();
    assert_eq!(ser.output(), "<a:b>");
}

#[test]
fn local_name_must_start_with_a_name_start_character() {
    let mut ser = XmlSerializer::new(SerializeOpts::default());
    let r = ser.start_elem(name(None, "", "1a"), &Vec::new(), false);
    assert_eq!(r, Err(SerializeError::LocalNameStart('1')));
    assert_eq!(ser.output(), "");
}

#[test]
fn local_name_must_go_on_with_name_characters() {
    let mut ser = XmlSerializer::new(SerializeOpts::default());
    let r = ser.start_elem(name(None, "", "a1 b!"), &Vec::new(), false);
    assert_eq!(r, Err(SerializeError::LocalNameChar(' ')));
    assert_eq!(ser.output(), "");
}

#[test]
fn digits_and_hyphens_may_follow_the_first_character() {
    let mut ser = XmlSerializer::new(SerializeOpts::default());
    ser.start_elem(name(None, "", "a-1.b_c"), &Vec::new(), false).unwrap();
    assert_eq!(ser.output(), "<a-1.b_c>");
}

#[test]
fn empty_local_name_is_let_through() {
    let mut ser = XmlSerializer::new(SerializeOpts::default());
    ser.start_elem(name(None, "", ""), &Vec::new(), false).unwrap();
    assert_eq!(ser.output(), "<>");
}

#[test]
fn attribute_in_unbound_namespace_gets_a_generated_prefix() {
    let mut ser = XmlSerializer::new(SerializeOpts::default());
    let attrs = vec![attr(None, "Y", "a", "v")];
    ser.start_elem(name(Some("p"), "X", "e"), &attrs, false).unwrap();
    assert_eq!(ser.output(), "<p:e xmlns:p=\"X\" xmlns:ns1=\"Y\" ns1:a=\"v\">");
    ser.end_elem(name(Some("p"), "X", "e")).unwrap();
    assert_eq!(ser.output(), "<p:e xmlns:p=\"X\" xmlns:ns1=\"Y\" ns1:a=\"v\"></p:e>");
}

#[test]
fn child_in_the_inherited_namespace_declares_nothing() {
    let mut ser = XmlSerializer::new(within("X"));
    ser.start_elem(name(None, "X", "parent"), &Vec::new(), false).unwrap();
    ser.start_elem(name(None, "X", "child"), &Vec::new(), false).unwrap();
    ser.end_elem(name(None, "X", "child")).unwrap();
    ser.end_elem(name(None, "X", "parent")).unwrap();
    assert_eq!(ser.output(), "<parent><child></child></parent>");
}

#[test]
fn child_inherits_the_default_namespace_that_its_parent_declared() {
    let mut ser = XmlSerializer::new(SerializeOpts::default());
    ser.start_elem(name(None, "X", "parent"), &Vec::new(), false).unwrap();
    ser.start_elem(name(None, "X", "child"), &Vec::new(), false).unwrap();
    ser.end_elem(name(None, "X", "child")).unwrap();
    ser.end_elem(name(None, "X", "parent")).unwrap();
    assert_eq!(ser.output(), "<parent xmlns=\"X\"><child></child></parent>");
}

#[test]
fn sibling_does_not_inherit_from_its_sibling() {
    let mut ser = XmlSerializer::new(SerializeOpts::default());
    ser.start_elem(name(None, "", "root"), &Vec::new(), false).unwrap();
    ser.start_elem(name(None, "X", "first"), &Vec::new(), false).unwrap();
    ser.end_elem(name(None, "X", "first")).unwrap();
    ser.start_elem(name(None, "X", "second"), &Vec::new(), false).unwrap();
    ser.end_elem(name(None, "X", "second")).unwrap();
    ser.end_elem(name(None, "", "root")).unwrap();
    assert_eq!(
        ser.output(),
        "<root><first xmlns=\"X\"></first><second xmlns=\"X\"></second></root>"
    );
}

#[test]
fn prefix_declared_by_the_parent_is_known_to_the_child_only() {
    let mut ser = XmlSerializer::new(SerializeOpts::default());
    ser.start_elem(name(None, "", "root"), &Vec::new(), false).unwrap();
    ser.start_elem(name(Some("p"), "X", "a"), &Vec::new(), false).unwrap();
    ser.start_elem(name(Some("q"), "X", "b"), &Vec::new(), false).unwrap();
    ser.end_elem(name(Some("q"), "X", "b")).unwrap();
    ser.end_elem(name(Some("p"), "X", "a")).unwrap();
    ser.start_elem(name(Some("q"), "X", "c"), &Vec::new(), false).unwrap();
    ser.end_elem(name(Some("q"), "X", "c")).unwrap();
    ser.end_elem(name(None, "", "root")).unwrap();
    assert_eq!(
        ser.output(),
        "<root><p:a xmlns:p=\"X\"><p:b></p:b></p:a><q:c xmlns:q=\"X\"></q:c></root>"
    );
}

#[test]
fn unprefixed_element_declares_its_namespace_as_default() {
    let mut ser = XmlSerializer::new(SerializeOpts::default());
    ser.start_elem(name(None, "X", "e"), &Vec::new(), false).unwrap();
    ser.end_elem(name(None, "X", "e")).unwrap();
    assert_eq!(ser.output(), "<e xmlns=\"X\"></e>");
}

#[test]
fn element_in_no_namespace_below_a_namespace_undeclares_the_default() {
    let mut ser = XmlSerializer::new(within("X"));
    ser.start_elem(name(None, "", "e"), &Vec::new(), false).unwrap();
    assert_eq!(ser.output(), "<e xmlns=\"\">");
}

#[test]
fn element_in_the_xml_namespace_is_written_with_the_xml_prefix() {
    let mut ser = XmlSerializer::new(SerializeOpts::default());
    ser.start_elem(name(None, XML_NAMESPACE, "a"), &Vec::new(), false).unwrap();
    ser.end_elem(name(None, XML_NAMESPACE, "a")).unwrap();
    assert_eq!(ser.output(), "<xml:a></xml:a>");
}

#[test]
fn element_that_inherits_the_xml_namespace_is_written_with_the_xml_prefix() {
    let mut ser = XmlSerializer::new(within(XML_NAMESPACE));
    ser.start_elem(name(Some("other"), XML_NAMESPACE, "a"), &Vec::new(), false).unwrap();
    assert_eq!(ser.output(), "<xml:a>");
}

#[test]
fn known_prefix_is_used_without_a_declaration() {
    let mut opts = SerializeOpts::default();
    opts.prefix_map.add(Some("X".to_string()), "p".to_string());
    opts.prefix_map.add(Some("X".to_string()), "q".to_string());
    let mut ser = XmlSerializer::new(opts);
    ser.start_elem(name(Some("p"), "X", "a"), &Vec::new(), true).unwrap();
    ser.end_elem(name(Some("p"), "X", "a")).unwrap();
    ser.start_elem(name(Some("z"), "X", "b"), &Vec::new(), true).unwrap();
    ser.end_elem(name(Some("z"), "X", "b")).unwrap();
    ser.start_elem(name(None, "X", "c"), &Vec::new(), true).unwrap();
    ser.end_elem(name(None, "X", "c")).unwrap();
    assert_eq!(ser.output(), "<p:a/><q:b/><q:c/>");
}

#[test]
fn own_prefix_bound_to_another_namespace_gives_way_to_a_generated_one() {
    let mut ser = XmlSerializer::new(SerializeOpts::default());
    let attrs = vec![attr(Some("xmlns"), XMLNS_NAMESPACE, "p", "Z")];
    ser.start_elem(name(Some("p"), "X", "e"), &attrs, false).unwrap();
    ser.end_elem(name(Some("p"), "X", "e")).unwrap();
    assert_eq!(ser.output(), "<ns1:e xmlns:ns1=\"X\" xmlns:p=\"Z\"></ns1:e>");
}

#[test]
fn declared_prefix_is_taken_for_the_element_that_declares_it() {
    let mut ser = XmlSerializer::new(SerializeOpts::default());
    let attrs = vec![attr(Some("xmlns"), XMLNS_NAMESPACE, "p", "X")];
    ser.start_elem(name(Some("p"), "X", "e"), &attrs, false).unwrap();
    assert_eq!(ser.output(), "<p:e xmlns:p=\"X\">");
}

#[test]
fn declaration_known_from_the_parent_is_not_repeated() {
    let mut ser = XmlSerializer::new(SerializeOpts::default());
    let attrs = vec![attr(Some("xmlns"), XMLNS_NAMESPACE, "p", "Z")];
    ser.start_elem(name(None, "", "a"), &attrs, false).unwrap();
    let again = vec![attr(Some("xmlns"), XMLNS_NAMESPACE, "p", "Z"), attr(None, "", "k", "v")];
    ser.start_elem(name(None, "", "b"), &again, false).unwrap();
    assert_eq!(ser.output(), "<a xmlns:p=\"Z\"><b k=\"v\">");
}

#[test]
fn declaration_of_the_xml_namespace_is_left_out() {
    let mut ser = XmlSerializer::new(SerializeOpts::default());
    let attrs = vec![attr(Some("xmlns"), XMLNS_NAMESPACE, "xml", XML_NAMESPACE)];
    ser.start_elem(name(None, "", "a"), &attrs, false).unwrap();
    assert_eq!(ser.output(), "<a>");
}

#[test]
fn default_declaration_is_left_out_where_the_namespace_is_inherited() {
    let mut ser = XmlSerializer::new(within("X"));
    let attrs = vec![attr(None, XMLNS_NAMESPACE, "xmlns", "X"), attr(None, "", "k", "v")];
    ser.start_elem(name(None, "X", "a"), &attrs, false).unwrap();
    assert_eq!(ser.output(), "<a k=\"v\">");
}

#[test]
fn element_that_declares_a_default_namespace_gets_no_second_declaration() {
    let mut ser = XmlSerializer::new(SerializeOpts::default());
    let attrs = vec![attr(None, XMLNS_NAMESPACE, "xmlns", "X")];
    ser.start_elem(name(None, "X", "a"), &attrs, false).unwrap();
    assert_eq!(ser.output(), "<a xmlns:xmlns=\"X\">");
    ser.start_elem(name(None, "X", "b"), &Vec::new(), false).unwrap();
    assert_eq!(ser.output(), "<a xmlns:xmlns=\"X\"><b>");
}

#[test]
fn declared_default_namespace_is_inherited_below_a_prefixed_element() {
    let mut ser = XmlSerializer::new(SerializeOpts::default());
    let attrs = vec![attr(None, XMLNS_NAMESPACE, "xmlns", "D")];
    ser.start_elem(name(Some("p"), "X", "a"), &attrs, false).unwrap();
    ser.start_elem(name(None, "D", "b"), &Vec::new(), false).unwrap();
    assert_eq!(ser.output(), "<p:a xmlns:p=\"X\" xmlns:xmlns=\"D\"><b>");
}

#[test]
fn element_with_the_xmlns_prefix_is_refused() {
    let mut ser = XmlSerializer::new(SerializeOpts::default());
    let r = ser.start_elem(name(Some("xmlns"), "X", "e"), &Vec::new(), false);
    assert_eq!(r, Err(SerializeError::XmlnsElementPrefix));
    assert_eq!(ser.output(), "<");
    assert_eq!(ser.depth(), 0);
}

#[test]
fn element_with_the_xmlns_prefix_is_written_without_enforcement() {
    let mut ser = XmlSerializer::new(lenient());
    ser.start_elem(name(Some("xmlns"), "X", "e"), &Vec::new(), false).unwrap();
    ser.end_elem(name(Some("xmlns"), "X", "e")).unwrap();
    assert_eq!(ser.output(), "<xmlns:e></xmlns:e>");
}

#[test]
fn attributes_keep_their_order() {
    let mut ser = XmlSerializer::new(SerializeOpts::default());
    let attrs = vec![attr(None, "", "z", "1"), attr(None, "", "a", "2"), attr(None, "", "m", "3")];
    ser.start_elem(name(None, "", "e"), &attrs, false).unwrap();
    assert_eq!(ser.output(), "<e z=\"1\" a=\"2\" m=\"3\">");
}

#[test]
fn attribute_value_is_escaped() {
    let mut ser = XmlSerializer::new(SerializeOpts::default());
    let attrs = vec![attr(None, "", "k", "a\"b&c<d>e'f")];
    ser.start_elem(name(None, "", "e"), &attrs, false).unwrap();
    assert_eq!(ser.output(), "<e k=\"a&quot;b&amp;c&lt;d&gt;e'f\">");
}

#[test]
fn attribute_in_the_xml_namespace_has_the_xml_prefix() {
    let mut ser = XmlSerializer::new(SerializeOpts::default());
    let attrs = vec![attr(Some("xml"), XML_NAMESPACE, "lang", "en")];
    ser.start_elem(name(None, "", "e"), &attrs, false).unwrap();
    assert_eq!(ser.output(), "<e xml:lang=\"en\">");
}

#[test]
fn attribute_takes_the_prefix_known_for_its_namespace() {
    let mut ser = XmlSerializer::new(SerializeOpts::default());
    let attrs = vec![attr(Some("q"), "X", "k", "v")];
    ser.start_elem(name(Some("p"), "X", "e"), &attrs, false).unwrap();
    assert_eq!(ser.output(), "<p:e xmlns:p=\"X\" p:k=\"v\">");
}

#[test]
fn generated_prefixes_count_up() {
    let mut ser = XmlSerializer::new(SerializeOpts::default());
    let attrs = vec![attr(None, "Y", "a", "1"), attr(None, "Z", "b", "2"), attr(None, "Y", "c", "3")];
    ser.start_elem(name(None, "", "e"), &attrs, true).unwrap();
    ser.end_elem(name(None, "", "e")).unwrap();
    ser.start_elem(name(None, "", "f"), &vec![attr(None, "Y", "a", "1")], true).unwrap();
    assert_eq!(
        ser.output(),
        "<e xmlns:ns1=\"Y\" ns1:a=\"1\" xmlns:ns2=\"Z\" ns2:b=\"2\" ns1:c=\"3\"/>\
         <f xmlns:ns3=\"Y\" ns3:a=\"1\"/>"
    );
}

#[test]
fn generated_prefix_starts_from_the_configured_index() {
    let mut opts = SerializeOpts::default();
    opts.prefix_index = 4294967293;
    let mut ser = XmlSerializer::new(opts);
    ser.start_elem(name(None, "", "e"), &vec![attr(None, "Y", "a", "1")], true).unwrap();
    assert_eq!(ser.output(), "<e xmlns:ns4294967293=\"Y\" ns4294967293:a=\"1\"/>");
}

#[test]
fn generated_prefix_with_a_zero_in_it() {
    let mut opts = SerializeOpts::default();
    opts.prefix_index = 100;
    let mut ser = XmlSerializer::new(opts);
    let attrs = vec![attr(None, "Y", "a", "1"), attr(None, "Z", "b", "2")];
    ser.start_elem(name(None, "", "e"), &attrs, true).unwrap();
    assert_eq!(ser.output(), "<e xmlns:ns100=\"Y\" ns100:a=\"1\" xmlns:ns101=\"Z\" ns101:b=\"2\"/>");
}

#[test]
fn repeated_attribute_is_refused() {
    let mut ser = XmlSerializer::new(SerializeOpts::default());
    let attrs = vec![attr(None, "", "k", "1"), attr(None, "", "j", "2"), attr(Some("p"), "", "k", "3")];
    let r = ser.start_elem(name(None, "", "e"), &attrs, false);
    assert_eq!(r, Err(SerializeError::DuplicateAttribute));
    assert_eq!(ser.output(), "<e k=\"1\" j=\"2\"");
    assert_eq!(ser.depth(), 0);
}

#[test]
fn repeated_attribute_is_written_without_enforcement() {
    let mut ser = XmlSerializer::new(lenient());
    let attrs = vec![attr(None, "", "k", "1"), attr(None, "", "k", "2")];
    ser.start_elem(name(None, "", "e"), &attrs, false).unwrap();
    assert_eq!(ser.output(), "<e k=\"1\" k=\"2\">");
}

#[test]
fn same_local_name_in_two_namespaces_is_no_repetition() {
    let mut ser = XmlSerializer::new(SerializeOpts::default());
    let attrs = vec![attr(None, "", "k", "1"), attr(None, "Y", "k", "2")];
    ser.start_elem(name(None, "", "e"), &attrs, false).unwrap();
    assert_eq!(ser.output(), "<e k=\"1\" xmlns:ns1=\"Y\" ns1:k=\"2\">");
}

#[test]
fn attribute_named_xmlns_in_no_namespace_is_refused() {
    let mut ser = XmlSerializer::new(SerializeOpts::default());
    let r = ser.start_elem(name(None, "", "e"), &vec![attr(None, "", "xmlns", "X")], false);
    assert_eq!(r, Err(SerializeError::XmlnsAttribute));
    assert_eq!(ser.output(), "<e ");
}

#[test]
fn attribute_name_with_a_colon_is_refused() {
    let mut ser = XmlSerializer::new(SerializeOpts::default());
    let r = ser.start_elem(name(None, "", "e"), &vec![attr(None, "", "a:b", "v")], false);
    assert_eq!(r, Err(SerializeError::LocalNameColon));
}

#[test]
fn attribute_name_is_checked_as_an_element_name_is() {
    let mut ser = XmlSerializer::new(SerializeOpts::default());
    let r = ser.start_elem(name(None, "", "e"), &vec![attr(None, "", "-a", "v")], false);
    assert_eq!(r, Err(SerializeError::LocalNameStart('-')));
    let mut ser = XmlSerializer::new(SerializeOpts::default());
    let r = ser.start_elem(name(None, "", "e"), &vec![attr(None, "", "a=b", "v")], false);
    assert_eq!(r, Err(SerializeError::LocalNameChar('=')));
}

#[test]
fn invalid_character_in_an_attribute_value_is_refused() {
    let mut ser = XmlSerializer::new(SerializeOpts::default());
    let r = ser.start_elem(name(None, "", "e"), &vec![attr(None, "", "k", "ab\u{1}c")], false);
    assert_eq!(r, Err(SerializeError::InvalidChar('\u{1}')));
    assert_eq!(ser.output(), "<e k=\"ab");
}

#[test]
fn declaration_of_the_xmlns_namespace_is_refused() {
    let mut ser = XmlSerializer::new(SerializeOpts::default());
    let attrs = vec![attr(Some("xmlns"), XMLNS_NAMESPACE, "p", XMLNS_NAMESPACE)];
    let r = ser.start_elem(name(None, "", "e"), &attrs, false);
    assert_eq!(r, Err(SerializeError::XmlnsNamespaceDeclared));
    assert_eq!(ser.output(), "<e");
}

#[test]
fn declaration_of_the_empty_namespace_is_refused() {
    let mut ser = XmlSerializer::new(SerializeOpts::default());
    let attrs = vec![attr(Some("xmlns"), XMLNS_NAMESPACE, "p", "")];
    let r = ser.start_elem(name(None, "", "e"), &attrs, false);
    assert_eq!(r, Err(SerializeError::EmptyNamespaceDeclared));
}

#[test]
fn declarations_are_not_checked_without_enforcement() {
    let mut ser = XmlSerializer::new(lenient());
    let attrs = vec![
        attr(Some("xmlns"), XMLNS_NAMESPACE, "p", ""),
        attr(Some("xmlns"), XMLNS_NAMESPACE, "q", XMLNS_NAMESPACE),
    ];
    ser.start_elem(name(None, "", "e"), &attrs, false).unwrap();
    assert_eq!(ser.output(), "<e xmlns:p=\"\" xmlns:q=\"http://www.w3.org/2000/xmlns/\">");
}

#[test]
fn invalid_character_in_a_namespace_stops_its_declaration() {
    let mut ser = XmlSerializer::new(SerializeOpts::default());
    let r = ser.start_elem(name(Some("p"), "X\u{0}", "e"), &Vec::new(), false);
    assert_eq!(r, Err(SerializeError::InvalidChar('\u{0}')));
    assert_eq!(ser.output(), "<p:e xmlns:p=\"X");
}

#[test]
fn childless_element_closes_itself_and_its_end_writes_nothing() {
    let mut ser = XmlSerializer::new(SerializeOpts::default());
    ser.start_elem(name(None, "", "a"), &vec![attr(None, "", "k", "v")], true).unwrap();
    assert_eq!(ser.depth(), 1);
    ser.end_elem(name(None, "", "a")).unwrap();
    assert_eq!(ser.depth(), 0);
    assert_eq!(ser.output(), "<a k=\"v\"/>");
}

#[test]
fn childless_void_html_element_closes_itself_with_a_space() {
    let mut ser = XmlSerializer::new(within(HTML_NAMESPACE));
    ser.start_elem(name(None, HTML_NAMESPACE, "br"), &Vec::new(), true).unwrap();
    ser.end_elem(name(None, HTML_NAMESPACE, "br")).unwrap();
    assert_eq!(ser.output(), "<br />");
}

#[test]
fn childless_html_element_that_is_not_void_gets_an_end_tag() {
    let mut ser = XmlSerializer::new(within(HTML_NAMESPACE));
    ser.start_elem(name(None, HTML_NAMESPACE, "div"), &Vec::new(), true).unwrap();
    ser.end_elem(name(None, HTML_NAMESPACE, "div")).unwrap();
    assert_eq!(ser.output(), "<div></div>");
}

#[test]
fn void_html_element_with_children_gets_an_end_tag() {
    let mut ser = XmlSerializer::new(SerializeOpts::default());
    ser.start_elem(name(None, HTML_NAMESPACE, "br"), &Vec::new(), false).unwrap();
    ser.end_elem(name(None, HTML_NAMESPACE, "br")).unwrap();
    assert_eq!(ser.output(), "<br xmlns=\"http://www.w3.org/1999/xhtml\"></br>");
}

#[test]
fn end_tag_has_the_generated_prefix_of_the_start_tag() {
    let mut opts = SerializeOpts::default();
    opts.prefix_index = 41;
    let mut ser = XmlSerializer::new(opts);
    let attrs = vec![attr(Some("xmlns"), XMLNS_NAMESPACE, "p", "Z")];
    ser.start_elem(name(Some("p"), "X", "e"), &attrs, false).unwrap();
    ser.write_text("t").unwrap();
    ser.end_elem(name(Some("other"), "other", "other")).unwrap();
    assert_eq!(ser.output(), "<ns41:e xmlns:ns41=\"X\" xmlns:p=\"Z\">t</ns41:e>");
}

#[test]
fn end_without_an_open_element_writes_nothing() {
    let mut ser = XmlSerializer::new(SerializeOpts::default());
    ser.end_elem(name(None, "", "a")).unwrap();
    assert_eq!(ser.output(), "");
    assert_eq!(ser.depth(), 0);
}

#[test]
fn taking_the_output_leaves_the_open_elements() {
    let mut ser = XmlSerializer::new(SerializeOpts::default());
    ser.start_elem(name(None, "X", "a"), &Vec::new(), false).unwrap();
    assert_eq!(ser.take_output(), "<a xmlns=\"X\">");
    assert_eq!(ser.output(), "");
    ser.start_elem(name(None, "X", "b"), &Vec::new(), true).unwrap();
    ser.end_elem(name(None, "X", "b")).unwrap();
    ser.end_elem(name(None, "X", "a")).unwrap();
    assert_eq!(ser.take_output(), "<b/></a>");
}

#[test]
fn empty_map_knows_no_prefix_for_the_xml_namespace() {
    let mut opts = SerializeOpts::default();
    opts.prefix_map = NamespacePrefixMap::new();
    let mut ser = XmlSerializer::new(opts);
    ser.start_elem(name(None, XML_NAMESPACE, "a"), &Vec::new(), true).unwrap();
    assert_eq!(ser.output(), "<a xmlns=\"http://www.w3.org/XML/1998/namespace\"/>");
}

#[test]
fn element_that_declares_another_default_namespace_gets_no_declaration_either() {
    let mut ser = XmlSerializer::new(lenient());
    let attrs = vec![attr(None, XMLNS_NAMESPACE, "xmlns", "D")];
    ser.start_elem(name(None, "X", "a"), &attrs, false).unwrap();
    ser.start_elem(name(None, "X", "b"), &Vec::new(), false).unwrap();
    ser.end_elem(name(None, "X", "b")).unwrap();
    ser.end_elem(name(None, "X", "a")).unwrap();
    assert_eq!(ser.output(), "<a xmlns:xmlns=\"D\"><b></b></a>");
}

#[test]
fn default_declaration_of_the_empty_namespace_is_refused() {
    let mut ser = XmlSerializer::new(within("X"));
    let attrs = vec![attr(None, XMLNS_NAMESPACE, "xmlns", "")];
    let r = ser.start_elem(name(None, "", "a"), &attrs, false);
    assert_eq!(r, Err(SerializeError::EmptyNamespaceDeclared));
    assert_eq!(ser.output(), "<a");
}

#[test]
fn attribute_names_are_not_checked_without_enforcement() {
    let mut ser = XmlSerializer::new(lenient());
    let attrs = vec![attr(None, "", "a:b c", "1"), attr(None, "", "xmlns", "2")];
    ser.start_elem(name(None, "", "e"), &attrs, false).unwrap();
    assert_eq!(ser.output(), "<e a:b c=\"1\" xmlns=\"2\">");
}

#[test]
fn later_default_declaration_of_an_element_wins() {
    let mut ser = XmlSerializer::new(lenient());
    let attrs = vec![attr(None, XMLNS_NAMESPACE, "xmlns", "D"), attr(None, XMLNS_NAMESPACE, "xmlns", "E")];
    ser.start_elem(name(Some("p"), "X", "a"), &attrs, false).unwrap();
    ser.start_elem(name(None, "E", "b"), &Vec::new(), false).unwrap();
    ser.start_elem(name(None, "D", "c"), &Vec::new(), false).unwrap();
    assert_eq!(
        ser.output(),
        "<p:a xmlns:p=\"X\" xmlns:xmlns=\"D\" xmlns:xmlns=\"E\"><b><c xmlns=\"D\">"
    );
}

#[test]
fn prefix_declared_for_no_namespace_is_recorded_under_no_namespace() {
    let mut ser = XmlSerializer::new(lenient());
    let attrs = vec![attr(Some("xmlns"), XMLNS_NAMESPACE, "p", "")];
    ser.start_elem(name(None, "X", "a"), &attrs, false).unwrap();
    ser.start_elem(name(None, "", "b"), &Vec::new(), false).unwrap();
    assert_eq!(ser.output(), "<a xmlns=\"X\" xmlns:p=\"\"><p:b>");
}

#[test]
fn scope_of_an_element_ends_with_the_element() {
    let mut ser = XmlSerializer::new(SerializeOpts::default());
    let attrs = vec![attr(Some("xmlns"), XMLNS_NAMESPACE, "p", "Z")];
    ser.start_elem(name(None, "", "r"), &Vec::new(), false).unwrap();
    ser.start_elem(name(None, "", "a"), &attrs, true).unwrap();
    ser.end_elem(name(None, "", "a")).unwrap();
    ser.start_elem(name(None, "", "b"), &attrs, true).unwrap();
    ser.end_elem(name(None, "", "b")).unwrap();
    ser.start_elem(name(None, "Z", "c"), &Vec::new(), true).unwrap();
    ser.end_elem(name(None, "Z", "c")).unwrap();
    ser.end_elem(name(None, "", "r")).unwrap();
    assert_eq!(
        ser.output(),
        "<r><a xmlns:p=\"Z\"/><b xmlns:p=\"Z\"/><c xmlns=\"Z\"/></r>"
    );
}

#[test]
fn counter_and_enforcement_can_be_read() {
    let mut ser = XmlSerializer::new(SerializeOpts::default());
    assert_eq!(ser.prefix_index(), 1);
    assert!(ser.require_well_formed());
    ser.start_elem(name(None, "", "e"), &vec![attr(None, "Y", "a", "1")], true).unwrap();
    assert_eq!(ser.prefix_index(), 2);
    assert!(!XmlSerializer::new(lenient()).require_well_formed());
}
