//! An in-memory document tree.

use crate::tree::{locate_among, ElementView};
use vstd::prelude::*;

verus! {

/// An element of a document: a tag, an optional identifier and class marker,
/// a raw markup fragment, and the child elements appended after it.
#[derive(Debug, PartialEq, Eq)]
pub struct Element {
    pub tag: String,
    pub id: Option<String>,
    pub class: Option<String>,
    pub markup: String,
    pub children: Vec<Element>,
}

/// The view of an optional text.
pub open spec fn text_view(text: Option<String>) -> Option<Seq<char>> {
    match text {
        Some(t) => Some(t@),
        None => None,
    }
}

/// The tree of plain values that an element stands for.
pub open spec fn tree_of(element: Element) -> ElementView
    decreases element,
{
    ElementView {
        tag: element.tag@,
        id: text_view(element.id),
        class: text_view(element.class),
        markup: element.markup@,
        children: child_trees(element.children@),
    }
}

/// The trees of the children of an element, in their order.
pub open spec fn child_trees(children: Seq<Element>) -> Seq<ElementView>
    decreases children,
{
    Seq::new(
        children.len(),
        |i: int|
            if 0 <= i < children.len() {
                tree_of(children[i])
            } else {
                arbitrary()
            },
    )
}

impl View for Element {
    type V = ElementView;

    open spec fn view(&self) -> ElementView {
        tree_of(*self)
    }
}

/// A path as the exec code holds it, read as a sequence of positions.
pub open spec fn steps(path: Seq<usize>) -> Seq<int> {
    path.map_values(|step: usize| step as int)
}

/// The steps of a path that may be absent.
pub open spec fn optional_steps(path: Option<Vec<usize>>) -> Option<Seq<int>> {
    match path {
        Some(p) => Some(steps(p@)),
        None => None,
    }
}

impl Element {
    /// A new element with the given tag and nothing else.
    pub fn new(tag: &str) -> (element: Element)
        ensures
            element@ == (ElementView {
                tag: tag@,
                id: None,
                class: None,
                markup: Seq::empty(),
                children: Seq::empty(),
            }),
    {
        let element = Element {
            tag: tag.to_owned(),
            id: None,
            class: None,
            markup: String::new(),
            children: Vec::new(),
        };
        assert(element@.children =~= Seq::empty());
        element
    }

    /// Sets the class marker.
    pub fn set_class(&mut self, class: &str)
        ensures
            final(self)@ == (ElementView { class: Some(class@), ..old(self)@ }),
    {
        self.class = Some(class.to_owned());
    }

    /// Replaces the content of the element by a raw markup fragment.  The text
    /// is stored as given: nothing in it is escaped, so whatever it holds is
    /// markup to the host.  The children appended so far are dropped.
    pub fn set_raw_markup(&mut self, markup: &str)
        ensures
            final(self)@ == (ElementView { markup: markup@, children: Seq::empty(), ..old(self)@ }),
    {
        self.markup = markup.to_owned();
        self.children = Vec::new();
        assert(self@.children =~= Seq::empty());
    }

    /// Appends `child` after the children that the element has.
    pub fn append_child(&mut self, child: Element)
        ensures
            final(self)@ == old(self)@.with_children(Seq::empty(), seq![child@]),
    {
        self.children.push(child);
        assert(self@.children =~= old(self)@.children + seq![child@]);
    }

    /// Whether the identifier of the element is `id`.
    fn has_id(&self, id: &String) -> (r: bool)
        ensures
            r == (self@.id == Some(id@)),
    {
        match &self.id {
            Some(own) => *own == *id,
            None => false,
        }
    }

    /// The path of the first element in or below `self`, in document order,
    /// whose identifier is `id`.
    fn find_by_id(&self, id: &String) -> (r: Option<Vec<usize>>)
        ensures
            optional_steps(r) == self@.locate(id@),
        decreases self,
    {
        if self.has_id(id) {
            return Some(Vec::new());
        }
        let mut i: usize = 0;
        while i < self.children.len()
            invariant
                i <= self.children.len(),
                self@.locate(id@) == locate_among(self@.children, id@, i as nat),
            decreases self.children.len() - i,
        {
            match self.children[i].find_by_id(id) {
                Some(mut path) => {
                    let ghost below = path@;
                    path.insert(0, i);
                    assert(steps(path@) =~= seq![i as int] + steps(below));
                    return Some(path);
                },
                None => {},
            }
            i += 1;
        }
        None
    }

    /// The element reached by the steps of `path` from `from` on.
    fn descend(&self, path: &Vec<usize>, from: usize) -> (r: Option<&Element>)
        requires
            from <= path.len(),
        ensures
            match self@.at(steps(path@).skip(from as int)) {
                Some(found) => r matches Some(e) && e@ == found,
                None => r is None,
            },
        decreases path.len() - from,
    {
        if from == path.len() {
            return Some(self);
        }
        let step: usize = path[from];
        assert(steps(path@).skip(from as int).drop_first() =~= steps(path@).skip(from + 1));
        if step < self.children.len() {
            self.children[step].descend(path, from + 1)
        } else {
            None
        }
    }

    /// Appends `child` to the element reached by the steps of `path` from
    /// `from` on, and says at which position it now stands.  Where there is
    /// no such element the child comes back.
    fn attach(&mut self, path: &Vec<usize>, from: usize, child: Element) -> (r: Result<usize, Element>)
        requires
            from <= path.len(),
        ensures
            match old(self)@.at(steps(path@).skip(from as int)) {
                Some(parent) => r matches Ok(position) && position == parent.children.len()
                    && final(self)@ == old(self)@.with_children(
                    steps(path@).skip(from as int),
                    seq![child@],
                ),
                None => r == Err::<usize, Element>(child) && final(self)@ == old(self)@,
            },
        decreases path.len() - from,
    {
        if from == path.len() {
            let position: usize = self.children.len();
            self.children.push(child);
            assert(self@.children =~= old(self)@.children + seq![child@]);
            return Ok(position);
        }
        let step: usize = path[from];
        assert(steps(path@).skip(from as int).drop_first() =~= steps(path@).skip(from + 1));
        if step < self.children.len() {
            let ghost before = self@;
            let ghost rest = steps(path@).skip(from + 1);
            let r = self.children[step].attach(path, from + 1, child);
            assert(self@.children =~= before.children.update(step as int, self.children@[step as int]@));
            assert(before.at(steps(path@).skip(from as int)) == before.children[step as int].at(rest));
            assert(r is Err ==> self@.children =~= before.children);
            r
        } else {
            Err(child)
        }
    }
}

/// A document: the tree below its root element.  A handle to one of its
/// elements is the path from the root to it, each step the position of a
/// child; appending children leaves every handle good.
#[derive(Debug, PartialEq, Eq)]
pub struct Document {
    pub root: Element,
}

impl View for Document {
    type V = ElementView;

    open spec fn view(&self) -> ElementView {
        self.root@
    }
}

impl Document {
    /// The document with the given root element.
    pub fn new(root: Element) -> (document: Document)
        ensures
            document@ == root@,
    {
        Document { root }
    }

    /// A handle to the first element in document order whose identifier is
    /// `id`, or `None` where no element has it.
    pub fn get_element_by_id(&self, id: &str) -> (handle: Option<Vec<usize>>)
        ensures
            optional_steps(handle) == self@.locate(id@),
    {
        let wanted = id.to_owned();
        self.root.find_by_id(&wanted)
    }

    /// The element that `handle` stands for, or `None` where the document
    /// has no element there.
    pub fn element(&self, handle: &Vec<usize>) -> (r: Option<&Element>)
        ensures
            match self@.at(steps(handle@)) {
                Some(found) => r matches Some(e) && e@ == found,
                None => r is None,
            },
    {
        assert(steps(handle@).skip(0) =~= steps(handle@));
        self.root.descend(handle, 0)
    }

    /// Appends `child` to the element that `parent` stands for and gives the
    /// position at which it now stands among that element's children.  Where
    /// the document has no element at `parent`, the child comes back and the
    /// document is unchanged.
    pub fn append_child(&mut self, parent: &Vec<usize>, child: Element) -> (r: Result<usize, Element>)
        ensures
            match old(self)@.at(steps(parent@)) {
                Some(found) => r matches Ok(position) && position == found.children.len()
                    && final(self)@ == old(self)@.with_children(steps(parent@), seq![child@]),
                None => r == Err::<usize, Element>(child) && final(self)@ == old(self)@,
            },
    {
        assert(steps(parent@).skip(0) =~= steps(parent@));
        self.root.attach(parent, 0, child)
    }
}

} // verus!
