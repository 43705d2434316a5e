//! What the HTML reports of a game hold, read through the `select` crate as plain text.

use vstd::prelude::*;

verus! {

/// An element of a page: its text, and the texts of some of its descendants.
pub struct ElementText {
    pub text: String,
    pub parts: Vec<String>,
}

/// An element of a page: its text, and some of its descendants with their own parts.
pub struct ElementRows {
    pub text: String,
    pub rows: Vec<ElementText>,
}

/// The views of a sequence of strings.
pub open spec fn texts_view(v: Seq<String>) -> Seq<Seq<char>> {
    v.map_values(|x: String| x@)
}

/// An element as text and part texts.
pub open spec fn element_view(e: ElementText) -> (Seq<char>, Seq<Seq<char>>) {
    (e.text@, texts_view(e.parts@))
}

/// Elements as texts and part texts.
pub open spec fn elements_view(v: Seq<ElementText>) -> Seq<(Seq<char>, Seq<Seq<char>>)> {
    v.map_values(|e: ElementText| element_view(e))
}

/// Elements with their rows, as texts.
pub open spec fn nested_view(v: Seq<ElementRows>) -> Seq<(Seq<char>, Seq<(Seq<char>, Seq<Seq<char>>)>)> {
    v.map_values(|e: ElementRows| (e.text@, elements_view(e.rows@)))
}

/// Names what `select` finds in the page `html`: the elements named `tag` with the class
/// `class`, in document order, each with its text and the texts of its descendants named `part`.
pub uninterp spec fn html_class_elements(html: Seq<char>, class: Seq<char>, tag: Seq<char>, part: Seq<char>) -> Seq<(Seq<char>, Seq<Seq<char>>)>;

/// Names what `select` finds in the page `html`: the elements named `outer`, in document
/// order, each with its text and its descendants named `row`, each of those with its text and
/// the texts of its own descendants named `cell`.
pub uninterp spec fn html_nested_elements(html: Seq<char>, outer: Seq<char>, row: Seq<char>, cell: Seq<char>) -> Seq<(Seq<char>, Seq<(Seq<char>, Seq<Seq<char>>)>)>;

/// Names what `select` finds in the page `html`: the texts of the elements whose attribute
/// `attr` is `value`, in document order.
pub uninterp spec fn html_attr_texts(html: Seq<char>, attr: Seq<char>, value: Seq<char>) -> Seq<Seq<char>>;

/// Names what `select` finds in the page `html`: for the first element whose attribute `attr`
/// is `value`, the texts of its descendants named `tag`; `None` when there is no such element.
pub uninterp spec fn html_attr_descendant_texts(html: Seq<char>, attr: Seq<char>, value: Seq<char>, tag: Seq<char>) -> Option<Seq<Seq<char>>>;

/// `select`: parses `html` with `Document::from`, finds the elements matching
/// `And(Class(class), Name(tag))`, and hands out each one's `text()` with the `text()` of each
/// descendant that `find(Name(part))` yields. The result is what `html_class_elements` names.
#[verifier::external_body]
pub(crate) fn class_elements(html: &str, class: &str, tag: &str, part: &str) -> (r: Vec<ElementText>)
    ensures
        elements_view(r@) == html_class_elements(html@, class@, tag@, part@),
{
    let doc = select::document::Document::from(html);
    doc.find(select::predicate::And(select::predicate::Class(class), select::predicate::Name(tag)))
        .map(|n| ElementText { text: n.text(), parts: n.find(select::predicate::Name(part)).map(|p| p.text()).collect() })
        .collect()
}

/// `select`: parses `html` with `Document::from`, finds the elements matching `Name(outer)`,
/// and hands out each one's `text()` with, for each descendant that `find(Name(row))` yields,
/// its `text()` and the `text()` of each of its descendants that `find(Name(cell))` yields.
/// The result is what `html_nested_elements` names.
#[verifier::external_body]
pub(crate) fn nested_elements(html: &str, outer: &str, row: &str, cell: &str) -> (r: Vec<ElementRows>)
    ensures
        nested_view(r@) == html_nested_elements(html@, outer@, row@, cell@),
{
    let doc = select::document::Document::from(html);
    doc.find(select::predicate::Name(outer))
        .map(|t| ElementRows {
            text: t.text(),
            rows: t.find(select::predicate::Name(row))
                .map(|r| ElementText { text: r.text(), parts: r.find(select::predicate::Name(cell)).map(|c| c.text()).collect() })
                .collect(),
        })
        .collect()
}

/// `select`: parses `html` with `Document::from`, finds the elements matching
/// `Attr(attr, value)`, and hands out each one's `text()`. The result is what
/// `html_attr_texts` names.
#[verifier::external_body]
pub(crate) fn attr_texts(html: &str, attr: &str, value: &str) -> (r: Vec<String>)
    ensures
        texts_view(r@) == html_attr_texts(html@, attr@, value@),
{
    let doc = select::document::Document::from(html);
    doc.find(select::predicate::Attr(attr, value)).map(|n| n.text()).collect()
}

/// `select`: parses `html` with `Document::from`, takes the first element matching
/// `Attr(attr, value)`, and hands out the `text()` of each of its descendants that
/// `find(Name(tag))` yields. The result is what `html_attr_descendant_texts` names.
#[verifier::external_body]
pub(crate) fn attr_descendant_texts(html: &str, attr: &str, value: &str, tag: &str) -> (r: Option<Vec<String>>)
    ensures
        match r {
            Some(v) => html_attr_descendant_texts(html@, attr@, value@, tag@) == Some(texts_view(v@)),
            None => html_attr_descendant_texts(html@, attr@, value@, tag@) is None,
        },
{
    let doc = select::document::Document::from(html);
    doc.find(select::predicate::Attr(attr, value)).next().map(|n| n.find(select::predicate::Name(tag)).map(|t| t.text()).collect())
}

} // verus!
