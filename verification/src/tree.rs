//! The tree that parsing builds.

use vstd::prelude::*;

verus! {

/// The kinds of inline containers.
#[derive(Debug, Clone, Copy, PartialEq, Eq, Structural, Hash)]
pub enum ContainerType {
    Bold,
    Italics,
    Strikethrough,
}

/// The attributes of a container, in the order in which they were given.
#[derive(Debug, Clone, PartialEq, Eq)]
pub struct AttributeMap {
    entries: Vec<(String, String)>,
}

impl View for AttributeMap {
    type V = Seq<(Seq<char>, Seq<char>)>;

    closed spec fn view(&self) -> Seq<(Seq<char>, Seq<char>)> {
        Seq::new(self.entries@.len(), |i: int| (self.entries@[i].0@, self.entries@[i].1@))
    }
}

impl AttributeMap {
    /// No attributes.
    pub fn new() -> (r: AttributeMap)
        ensures
            r@ == Seq::<(Seq<char>, Seq<char>)>::empty(),
    {
        let r = AttributeMap { entries: Vec::new() };
        assert(r@ =~= Seq::empty());
        r
    }

    /// Adds an attribute behind those that are there.
    pub fn push(&mut self, name: String, value: String)
        ensures
            final(self)@ == old(self)@.push((name@, value@)),
    {
        self.entries.push((name, value));
        assert(self@ =~= old(self)@.push((name@, value@)));
    }

    /// The number of attributes.
    pub fn len(&self) -> (n: usize)
        ensures
            n == self@.len(),
    {
        self.entries.len()
    }
}

/// A node of the tree.
#[derive(Debug, PartialEq, Eq)]
pub enum Element {
    /// A container with the elements inside it.
    Container(Container),
    /// A piece of text.
    Text(String),
}

/// A delimited inline construct and what stands inside it.
#[derive(Debug, PartialEq, Eq)]
pub struct Container {
    pub ctype: ContainerType,
    pub attributes: AttributeMap,
    pub elements: Vec<Element>,
}

/// What an `Element` stands for.
pub enum ElementView {
    Container { ctype: ContainerType, attributes: Seq<(Seq<char>, Seq<char>)>, children: Seq<ElementView> },
    Text(Seq<char>),
}

/// The tree below an element.
pub open spec fn element_view(element: Element) -> ElementView
    decreases element,
{
    match element {
        Element::Container(c) => ElementView::Container {
            ctype: c.ctype,
            attributes: c.attributes@,
            children: Seq::new(
                c.elements@.len(),
                |i: int|
                    if 0 <= i < c.elements@.len() {
                        element_view(c.elements@[i])
                    } else {
                        ElementView::Text(Seq::empty())
                    },
            ),
        },
        Element::Text(s) => ElementView::Text(s@),
    }
}

/// The trees below a row of elements.
pub open spec fn element_views(elements: Seq<Element>) -> Seq<ElementView> {
    Seq::new(elements.len(), |i: int| element_view(elements[i]))
}

impl View for Element {
    type V = ElementView;

    open spec fn view(&self) -> ElementView {
        element_view(*self)
    }
}

impl Container {
    /// A container of the given kind.
    pub fn new(ctype: ContainerType, elements: Vec<Element>, attributes: AttributeMap) -> (r:
        Container)
        ensures
            r.ctype == ctype,
            r.elements == elements,
            r.attributes == attributes,
    {
        Container { ctype, attributes, elements }
    }
}

/// A container is the tree of its kind, its attributes and its children.
pub proof fn lemma_container_view(c: Container)
    ensures
        element_view(Element::Container(c)) == (ElementView::Container {
            ctype: c.ctype,
            attributes: c.attributes@,
            children: element_views(c.elements@),
        }),
{
    let e = Element::Container(c);
    assert(element_view(e)->children =~= element_views(c.elements@));
}

} // verus!
