//! The SVG elements that the drawing is made of.
//!
//! The elements are those of the `svg` crate. An element has a tag, attributes and child
//! nodes; the functions here make its calls, and say of each what it does to them.

use svg::node::element::{Group, Line, Rectangle, Script, Text, SVG};
use svg::node::Value;
use vstd::prelude::*;

use crate::text::digits;

verus! {

/// A node of an SVG document: an element, or a piece of text.
pub enum SvgNode {
    Element {
        tag: Seq<char>,
        attributes: Map<Seq<char>, Seq<char>>,
        children: Seq<SvgNode>,
    },
    Text(Seq<char>),
}

/// `svg::node::Value`, the value of an attribute.
#[verifier::external_type_specification]
#[verifier::external_body]
pub struct ExValue(svg::node::Value);

/// `svg::node::Text`, a piece of text.
#[verifier::external_type_specification]
#[verifier::external_body]
pub struct ExTextNode(svg::node::Text);

/// `svg::node::element::Rectangle`, a `rect` element.
#[verifier::external_type_specification]
#[verifier::external_body]
pub struct ExRectangle(svg::node::element::Rectangle);

/// `svg::node::element::Text`, a `text` element.
#[verifier::external_type_specification]
#[verifier::external_body]
pub struct ExText(svg::node::element::Text);

/// `svg::node::element::Group`, a `g` element.
#[verifier::external_type_specification]
#[verifier::external_body]
pub struct ExGroup(svg::node::element::Group);

/// `svg::node::element::Line`, a `line` element.
#[verifier::external_type_specification]
#[verifier::external_body]
pub struct ExLine(svg::node::element::Line);

/// `svg::node::element::Script`, a `script` element.
#[verifier::external_type_specification]
#[verifier::external_body]
pub struct ExScript(svg::node::element::Script);

/// `svg::node::element::SVG`, an `svg` element.
#[verifier::external_type_specification]
#[verifier::external_body]
pub struct ExSVG(svg::node::element::SVG);

/// The attributes of an element that has none.
pub open spec fn no_attributes() -> Map<Seq<char>, Seq<char>> {
    Map::empty()
}

/// The text of an attribute value.
pub uninterp spec fn value_text(v: svg::node::Value) -> Seq<char>;

/// The characters of a piece of text.
pub uninterp spec fn text_content(t: svg::node::Text) -> Seq<char>;

/// The attributes of a `rect` element.
pub uninterp spec fn rectangle_attributes(e: svg::node::element::Rectangle) -> Map<Seq<char>, Seq<char>>;

/// The child nodes of a `rect` element, in order.
pub uninterp spec fn rectangle_children(e: svg::node::element::Rectangle) -> Seq<SvgNode>;

/// The attributes of a `text` element.
pub uninterp spec fn label_attributes(e: svg::node::element::Text) -> Map<Seq<char>, Seq<char>>;

/// The child nodes of a `text` element, in order.
pub uninterp spec fn label_children(e: svg::node::element::Text) -> Seq<SvgNode>;

/// The attributes of a `g` element.
pub uninterp spec fn group_attributes(e: svg::node::element::Group) -> Map<Seq<char>, Seq<char>>;

/// The child nodes of a `g` element, in order.
pub uninterp spec fn group_children(e: svg::node::element::Group) -> Seq<SvgNode>;

/// The attributes of a `line` element.
pub uninterp spec fn line_attributes(e: svg::node::element::Line) -> Map<Seq<char>, Seq<char>>;

/// The child nodes of a `line` element, in order.
pub uninterp spec fn line_children(e: svg::node::element::Line) -> Seq<SvgNode>;

/// The attributes of a `script` element.
pub uninterp spec fn script_attributes(e: svg::node::element::Script) -> Map<Seq<char>, Seq<char>>;

/// The child nodes of a `script` element, in order.
pub uninterp spec fn script_children(e: svg::node::element::Script) -> Seq<SvgNode>;

/// The attributes of an `svg` element.
pub uninterp spec fn document_attributes(e: svg::node::element::SVG) -> Map<Seq<char>, Seq<char>>;

/// The child nodes of an `svg` element, in order.
pub uninterp spec fn document_children(e: svg::node::element::SVG) -> Seq<SvgNode>;

/// A `rect` element as a node.
pub open spec fn rectangle_node(e: svg::node::element::Rectangle) -> SvgNode {
    SvgNode::Element {
        tag: "rect"@,
        attributes: rectangle_attributes(e),
        children: rectangle_children(e),
    }
}

/// A `text` element as a node.
pub open spec fn label_node(e: svg::node::element::Text) -> SvgNode {
    SvgNode::Element {
        tag: "text"@,
        attributes: label_attributes(e),
        children: label_children(e),
    }
}

/// A `g` element as a node.
pub open spec fn group_node(e: svg::node::element::Group) -> SvgNode {
    SvgNode::Element {
        tag: "g"@,
        attributes: group_attributes(e),
        children: group_children(e),
    }
}

/// A `line` element as a node.
pub open spec fn line_node(e: svg::node::element::Line) -> SvgNode {
    SvgNode::Element {
        tag: "line"@,
        attributes: line_attributes(e),
        children: line_children(e),
    }
}

/// A `script` element as a node.
pub open spec fn script_node(e: svg::node::element::Script) -> SvgNode {
    SvgNode::Element {
        tag: "script"@,
        attributes: script_attributes(e),
        children: script_children(e),
    }
}

/// An `svg` element as a node.
pub open spec fn document_node(e: svg::node::element::SVG) -> SvgNode {
    SvgNode::Element {
        tag: "svg"@,
        attributes: document_attributes(e),
        children: document_children(e),
    }
}

/// `svg::node::Value::from` on a text: the value is that text.
#[verifier::external_body]
pub(crate) fn value_of_text(s: &str) -> (r: Value)
    ensures
        value_text(r) == s@,
{
    Value::from(s)
}

/// `svg::node::Value::from` on a number: the value is its decimal text.
#[verifier::external_body]
pub(crate) fn value_of_number(n: u32) -> (r: Value)
    ensures
        value_text(r) == digits(n as nat, 10),
{
    Value::from(n)
}

/// `svg::node::Value::from` on four numbers: the value is their decimal texts, with a space
/// between each and the next.
#[verifier::external_body]
pub(crate) fn value_of_numbers(a: u32, b: u32, c: u32, d: usize) -> (r: Value)
    ensures
        value_text(r) == digits(a as nat, 10) + " "@ + digits(b as nat, 10) + " "@ + digits(
            c as nat,
            10,
        ) + " "@ + digits(d as nat, 10),
{
    Value::from((a, b, c, d))
}

/// `svg::node::Text::new`: a piece of text with the given content.
#[verifier::external_body]
pub(crate) fn new_text(content: &str) -> (r: svg::node::Text)
    ensures
        text_content(r) == content@,
{
    svg::node::Text::new(content)
}

/// `svg::node::element::Rectangle::new`: a `rect` element without attributes or child nodes.
#[verifier::external_body]
pub(crate) fn new_rectangle() -> (r: Rectangle)
    ensures
        rectangle_attributes(r) == no_attributes(),
        rectangle_children(r) == Seq::<SvgNode>::empty(),
{
    Rectangle::new()
}

/// `svg::node::element::Text::new`: a `text` element without attributes or child nodes.
#[verifier::external_body]
pub(crate) fn new_label() -> (r: Text)
    ensures
        label_attributes(r) == no_attributes(),
        label_children(r) == Seq::<SvgNode>::empty(),
{
    Text::new()
}

/// `svg::node::element::Group::new`: a `g` element without attributes or child nodes.
#[verifier::external_body]
pub(crate) fn new_group() -> (r: Group)
    ensures
        group_attributes(r) == no_attributes(),
        group_children(r) == Seq::<SvgNode>::empty(),
{
    Group::new()
}

/// `svg::node::element::Line::new`: a `line` element without attributes or child nodes.
#[verifier::external_body]
pub(crate) fn new_line() -> (r: Line)
    ensures
        line_attributes(r) == no_attributes(),
        line_children(r) == Seq::<SvgNode>::empty(),
{
    Line::new()
}

/// `svg::node::element::Script::new`: a script without attributes whose one child is the
/// given text.
#[verifier::external_body]
pub(crate) fn new_script(content: &str) -> (r: Script)
    ensures
        script_attributes(r) == no_attributes(),
        script_children(r) == seq![SvgNode::Text(content@)],
{
    Script::new(content)
}

/// `svg::node::element::SVG::new`: a document without child nodes whose one attribute is
/// the SVG name space.
#[verifier::external_body]
pub(crate) fn new_document() -> (r: SVG)
    ensures
        document_attributes(r) == no_attributes().insert(
            "xmlns"@,
            "http://www.w3.org/2000/svg"@,
        ),
        document_children(r) == Seq::<SvgNode>::empty(),
{
    SVG::new()
}

/// `svg::node::element::Rectangle::set`: gives the named attribute the value, in place of
/// any that it had.
#[verifier::external_body]
pub(crate) fn set_on_rectangle(e: Rectangle, name: &str, value: Value) -> (r: Rectangle)
    ensures
        rectangle_attributes(r) == rectangle_attributes(e).insert(name@, value_text(value)),
        rectangle_children(r) == rectangle_children(e),
{
    e.set(name, value)
}

/// `svg::node::element::Text::set`: gives the named attribute the value, in place of any
/// that it had.
#[verifier::external_body]
pub(crate) fn set_on_label(e: Text, name: &str, value: Value) -> (r: Text)
    ensures
        label_attributes(r) == label_attributes(e).insert(name@, value_text(value)),
        label_children(r) == label_children(e),
{
    e.set(name, value)
}

/// `svg::node::element::Group::set`: gives the named attribute the value, in place of any
/// that it had.
#[verifier::external_body]
pub(crate) fn set_on_group(e: Group, name: &str, value: Value) -> (r: Group)
    ensures
        group_attributes(r) == group_attributes(e).insert(name@, value_text(value)),
        group_children(r) == group_children(e),
{
    e.set(name, value)
}

/// `svg::node::element::Line::set`: gives the named attribute the value, in place of any
/// that it had.
#[verifier::external_body]
pub(crate) fn set_on_line(e: Line, name: &str, value: Value) -> (r: Line)
    ensures
        line_attributes(r) == line_attributes(e).insert(name@, value_text(value)),
        line_children(r) == line_children(e),
{
    e.set(name, value)
}

/// `svg::node::element::Script::set`: gives the named attribute the value, in place of
/// any that it had.
#[verifier::external_body]
pub(crate) fn set_on_script(e: Script, name: &str, value: Value) -> (r: Script)
    ensures
        script_attributes(r) == script_attributes(e).insert(name@, value_text(value)),
        script_children(r) == script_children(e),
{
    e.set(name, value)
}

/// `svg::node::element::SVG::set`: gives the named attribute the value, in place of any
/// that it had.
#[verifier::external_body]
pub(crate) fn set_on_document(e: SVG, name: &str, value: Value) -> (r: SVG)
    ensures
        document_attributes(r) == document_attributes(e).insert(name@, value_text(value)),
        document_children(r) == document_children(e),
{
    e.set(name, value)
}

/// `svg::node::element::Text::add` of a piece of text: the child comes behind the others.
#[verifier::external_body]
pub(crate) fn add_text_to_label(e: Text, child: svg::node::Text) -> (r: Text)
    ensures
        label_attributes(r) == label_attributes(e),
        label_children(r) == label_children(e).push(SvgNode::Text(text_content(child))),
{
    e.add(child)
}

/// `svg::node::element::Group::add` of a rectangle: the child comes behind the others.
#[verifier::external_body]
pub(crate) fn add_rectangle_to_group(e: Group, child: Rectangle) -> (r: Group)
    ensures
        group_attributes(r) == group_attributes(e),
        group_children(r) == group_children(e).push(rectangle_node(child)),
{
    e.add(child)
}

/// `svg::node::element::Group::add` of a label: the child comes behind the others.
#[verifier::external_body]
pub(crate) fn add_label_to_group(e: Group, child: Text) -> (r: Group)
    ensures
        group_attributes(r) == group_attributes(e),
        group_children(r) == group_children(e).push(label_node(child)),
{
    e.add(child)
}

/// `svg::node::element::SVG::add` of a script: the child comes behind the others.
#[verifier::external_body]
pub(crate) fn add_script_to_document(e: SVG, child: Script) -> (r: SVG)
    ensures
        document_attributes(r) == document_attributes(e),
        document_children(r) == document_children(e).push(script_node(child)),
{
    e.add(child)
}

/// `svg::node::element::SVG::add` of a group: the child comes behind the others.
#[verifier::external_body]
pub(crate) fn add_group_to_document(e: SVG, child: Group) -> (r: SVG)
    ensures
        document_attributes(r) == document_attributes(e),
        document_children(r) == document_children(e).push(group_node(child)),
{
    e.add(child)
}

/// `svg::node::element::SVG::add` of a line: the child comes behind the others.
#[verifier::external_body]
pub(crate) fn add_line_to_document(e: SVG, child: Line) -> (r: SVG)
    ensures
        document_attributes(r) == document_attributes(e),
        document_children(r) == document_children(e).push(line_node(child)),
{
    e.add(child)
}

} // verus!
