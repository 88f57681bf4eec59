//! Access to XML documents through `xmltree`.

use vstd::prelude::*;

verus! {

/// A parsed XML element.
#[verifier::external_type_specification]
#[verifier::external_body]
pub struct ExElement(xmltree::Element);

/// The reason why a document could not be parsed.
#[verifier::external_type_specification]
#[verifier::external_body]
pub struct ExParseError(xmltree::ParseError);

/// The text and CDATA nodes directly below an element, in document order.
pub uninterp spec fn element_texts(element: xmltree::Element) -> Seq<Seq<char>>;

/// The elements directly below an element, in document order: the local name of each, and its text
/// and CDATA nodes.
pub uninterp spec fn element_children(element: xmltree::Element) -> Seq<
    (Seq<char>, Seq<Seq<char>>),
>;

/// The children of the root element that `xmltree` finds in a document, as `element_children` gives
/// them, or `None` if `xmltree` rejects the document.
pub uninterp spec fn document_children(document: Seq<u8>) -> Option<
    Seq<(Seq<char>, Seq<Seq<char>>)>,
>;

/// The position of the first child with the given name.
pub open spec fn is_first_named(
    children: Seq<(Seq<char>, Seq<Seq<char>>)>,
    name: Seq<char>,
    i: int,
) -> bool {
    &&& 0 <= i < children.len()
    &&& children[i].0 == name
    &&& forall|j: int| 0 <= j < i ==> (#[trigger] children[j]).0 != name
}

/// The text of an element with the given text nodes: all of them joined, or nothing if it has none.
pub open spec fn joined_text(texts: Seq<Seq<char>>) -> Option<Seq<char>> {
    if texts.len() == 0 {
        None
    } else {
        Some(texts.flatten())
    }
}

/// The text of the first child with the given name, if there is such a child and it has any text.
pub open spec fn named_child_text(
    children: Seq<(Seq<char>, Seq<Seq<char>>)>,
    name: Seq<char>,
) -> Option<Seq<char>> {
    if exists|i: int| is_first_named(children, name, i) {
        joined_text(children[choose|i: int| is_first_named(children, name, i)].1)
    } else {
        None
    }
}

/// Calls `xmltree::Element::parse` on the bytes of a document.
///
/// Whether the bytes parse, and which children the root element then has, depends on the bytes
/// alone. The grammar that `xmltree` accepts is not restated here. The parser recurses once per
/// nesting level, so the depth of a document is limited by the stack.
#[verifier::external_body]
pub(crate) fn parse_document(document: &[u8]) -> (root: Result<
    xmltree::Element,
    xmltree::ParseError,
>)
    ensures
        match root {
            Ok(element) => document_children(document@) == Some(element_children(element)),
            Err(_) => document_children(document@) is None,
        },
{
    xmltree::Element::parse(document)
}

/// Calls `xmltree::Element::get_child` with a tag name.
///
/// The result is the first element directly below `element` whose local name is `name`, whatever
/// its namespace, or `None` if there is no such element.
#[verifier::external_body]
pub(crate) fn get_child<'a>(element: &'a xmltree::Element, name: &str) -> (child: Option<
    &'a xmltree::Element,
>)
    ensures
        match child {
            Some(found) => exists|i: int|
                {
                    &&& #[trigger] is_first_named(element_children(*element), name@, i)
                    &&& element_children(*element)[i].1 == element_texts(*found)
                },
            None => forall|i: int|
                0 <= i < element_children(*element).len() ==> (#[trigger] element_children(
                    *element,
                )[i]).0 != name@,
        },
{
    element.get_child(name)
}

/// Calls `xmltree::Element::get_text`.
///
/// The result joins the text and CDATA nodes directly below the element; it is `None` if there are
/// none.
#[verifier::external_body]
pub(crate) fn get_text(element: &xmltree::Element) -> (text: Option<String>)
    ensures
        match text {
            Some(joined) => joined_text(element_texts(*element)) == Some(joined@),
            None => joined_text(element_texts(*element)) is None,
        },
{
    element.get_text().map(|text| text.into_owned())
}

/// The text of the first child of the root element that has the given name.
///
/// There is none if the document does not parse, if the root has no such child, or if the first
/// such child has no text.
pub fn root_child_text(document: &[u8], name: &str) -> (text: Option<String>)
    ensures
        match text {
            Some(found) => document_children(document@) is Some && named_child_text(
                document_children(document@)->0,
                name@,
            ) == Some(found@),
            None => document_children(document@) is None || named_child_text(
                document_children(document@)->0,
                name@,
            ) is None,
        },
{
    match parse_document(document) {
        Ok(root) => {
            let ghost children = element_children(root);
            match get_child(&root, name) {
                Some(child) => {
                    proof {
                        let i = choose|i: int| #[trigger]
                            is_first_named(children, name@, i) && children[i].1 == element_texts(
                                *child,
                            );
                        let j = choose|j: int| is_first_named(children, name@, j);
                        assert(is_first_named(children, name@, i));
                        assert(is_first_named(children, name@, j));
                        assert(i == j) by {
                            assert(children[i].0 == name@);
                            assert(children[j].0 == name@);
                        }
                    }
                    get_text(child)
                },
                None => None,
            }
        },
        Err(_) => None,
    }
}

/// The first child with a name counts, however many there are. Its text nodes are joined; without
/// any there is no text, even if a later child of that name has some.
pub proof fn law_first_child_counts(
    children: Seq<(Seq<char>, Seq<Seq<char>>)>,
    name: Seq<char>,
    i: int,
)
    requires
        0 <= i < children.len(),
        children[i].0 == name,
        forall|j: int| 0 <= j < i ==> (#[trigger] children[j]).0 != name,
    ensures
        children[i].1.len() > 0 ==> named_child_text(children, name) == Some(
            children[i].1.flatten(),
        ),
        children[i].1.len() == 0 ==> named_child_text(children, name) is None,
{
    assert(is_first_named(children, name, i));
    let j = choose|j: int| is_first_named(children, name, j);
    assert(is_first_named(children, name, j));
    assert(i == j) by {
        assert(children[i].0 == name);
        assert(children[j].0 == name);
    }
}

/// A name that no child has leads to no text.
pub proof fn law_missing_child_has_no_text(
    children: Seq<(Seq<char>, Seq<Seq<char>>)>,
    name: Seq<char>,
)
    requires
        forall|j: int| 0 <= j < children.len() ==> (#[trigger] children[j]).0 != name,
    ensures
        named_child_text(children, name) is None,
{
    if exists|i: int| is_first_named(children, name, i) {
        let i = choose|i: int| is_first_named(children, name, i);
        assert(children[i].0 == name);
    }
}

} // verus!
