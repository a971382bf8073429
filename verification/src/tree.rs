//! Document trees as mathematical values: how an element is reached by a
//! path, how one is found by its identifier, and what appending children does
//! to a tree.

use vstd::prelude::*;

verus! {

/// An element as a tree of plain values.
pub struct ElementView {
    pub tag: Seq<char>,
    pub id: Option<Seq<char>>,
    pub class: Option<Seq<char>>,
    pub markup: Seq<char>,
    pub children: Seq<ElementView>,
}

impl ElementView {
    /// The element reached from `self` by `path`, each step of which is the
    /// position of a child.
    pub open spec fn at(self, path: Seq<int>) -> Option<ElementView>
        decreases path.len(),
    {
        if path.len() == 0 {
            Some(self)
        } else if 0 <= path[0] < self.children.len() {
            self.children[path[0]].at(path.drop_first())
        } else {
            None
        }
    }

    /// The path of the first element in document order whose identifier is
    /// `id`: an element comes before its children, a child before the
    /// children after it.
    pub open spec fn locate(self, id: Seq<char>) -> Option<Seq<int>>
        decreases self, 0nat,
    {
        if self.id == Some(id) {
            Some(Seq::empty())
        } else {
            locate_among(self.children, id, 0)
        }
    }

    /// `self` with `extra` appended to the children of the element at `path`.
    /// Where `path` reaches no element, nothing changes.
    pub open spec fn with_children(self, path: Seq<int>, extra: Seq<ElementView>) -> ElementView
        decreases path.len(),
    {
        if path.len() == 0 {
            ElementView { children: self.children + extra, ..self }
        } else if 0 <= path[0] < self.children.len() {
            let child = self.children[path[0]].with_children(path.drop_first(), extra);
            ElementView { children: self.children.update(path[0], child), ..self }
        } else {
            self
        }
    }
}

/// The path, from the parent of `elements`, of the first element in document
/// order that has the identifier `id` and lies in or below `elements[from..]`.
pub open spec fn locate_among(elements: Seq<ElementView>, id: Seq<char>, from: nat) -> Option<Seq<int>>
    decreases elements, elements.len() - from,
{
    if from >= elements.len() {
        None
    } else {
        match elements[from as int].locate(id) {
            Some(path) => Some(seq![from as int] + path),
            None => locate_among(elements, id, from + 1),
        }
    }
}

/// Where the search among `elements[from..]` succeeds, it does so at the first
/// element that holds the identifier, and gives that element's position
/// followed by the path inside it.
pub proof fn lemma_locate_among_first(elements: Seq<ElementView>, id: Seq<char>, from: nat) -> (i: int)
    requires
        locate_among(elements, id, from) is Some,
    ensures
        from <= i < elements.len(),
        forall|j: int| from <= j < i ==> (#[trigger] elements[j]).locate(id) is None,
        elements[i].locate(id) is Some,
        locate_among(elements, id, from) == Some(seq![i] + elements[i].locate(id).unwrap()),
    decreases elements.len() - from,
{
    if elements[from as int].locate(id) is Some {
        from as int
    } else {
        lemma_locate_among_first(elements, id, from + 1)
    }
}

/// The search among `elements[from..]` finds the element at `i` if none
/// before it holds the identifier.
pub proof fn lemma_locate_among_found(elements: Seq<ElementView>, id: Seq<char>, from: nat, i: int)
    requires
        from <= i < elements.len(),
        forall|j: int| from <= j < i ==> (#[trigger] elements[j]).locate(id) is None,
        elements[i].locate(id) is Some,
    ensures
        locate_among(elements, id, from) == Some(seq![i] + elements[i].locate(id).unwrap()),
    decreases i - from,
{
    if from < i {
        lemma_locate_among_found(elements, id, from + 1, i);
    }
}

/// The search among `elements[from..]` succeeds if any of them holds the
/// identifier.
pub proof fn lemma_locate_among_some(elements: Seq<ElementView>, id: Seq<char>, from: nat, i: int)
    requires
        from <= i < elements.len(),
        elements[i].locate(id) is Some,
    ensures
        locate_among(elements, id, from) is Some,
    decreases i - from,
{
    if elements[from as int].locate(id) is None {
        lemma_locate_among_some(elements, id, from + 1, i);
    }
}

/// `first` does not come after `second` in document order: it leads to an
/// element above the other, or to an earlier one.
pub open spec fn not_after(first: Seq<int>, second: Seq<int>) -> bool
    decreases first.len(),
{
    if first.len() == 0 {
        true
    } else if second.len() == 0 {
        false
    } else if first[0] != second[0] {
        first[0] < second[0]
    } else {
        not_after(first.drop_first(), second.drop_first())
    }
}

/// What `locate` finds is the first element in document order that has the
/// identifier: no element that has it comes before.
pub proof fn lemma_locate_is_first(root: ElementView, id: Seq<char>, path: Seq<int>)
    requires
        root.at(path) matches Some(element) && element.id == Some(id),
    ensures
        root.locate(id) matches Some(found) && not_after(found, path),
    decreases path.len(),
{
    if root.id != Some(id) {
        let rest = path.drop_first();
        lemma_locate_is_first(root.children[path[0]], id, rest);
        lemma_locate_among_some(root.children, id, 0, path[0]);
        let i = lemma_locate_among_first(root.children, id, 0);
        let below = root.children[i].locate(id).unwrap();
        let found = seq![i] + below;
        assert(found.drop_first() =~= below);
        if i > path[0] {
            assert(root.children[path[0]].locate(id) is None);
        }
    }
}

/// `root` has an element with the identifier `id`.
pub open spec fn has_element(root: ElementView, id: Seq<char>) -> bool {
    exists|path: Seq<int>| (#[trigger] root.at(path)) matches Some(element) && element.id == Some(id)
}

/// `locate` gives `None` exactly for a tree that has no element with the
/// identifier.
pub proof fn lemma_locate_none_iff_absent(root: ElementView, id: Seq<char>)
    ensures
        root.locate(id) is None <==> !has_element(root, id),
{
    if root.locate(id) is Some {
        lemma_located_is_there(root, id, root.locate(id).unwrap());
    }
    if has_element(root, id) {
        let path = choose|path: Seq<int>|
            (#[trigger] root.at(path)) matches Some(element) && element.id == Some(id);
        lemma_locate_is_first(root, id, path);
    }
}

/// An element that `locate` finds is there, and holds the identifier.
pub proof fn lemma_located_is_there(root: ElementView, id: Seq<char>, path: Seq<int>)
    requires
        root.locate(id) == Some(path),
    ensures
        root.at(path) matches Some(found) && found.id == Some(id),
    decreases path.len(),
{
    if root.id != Some(id) {
        let i = lemma_locate_among_first(root.children, id, 0);
        let below = root.children[i].locate(id).unwrap();
        assert(path.drop_first() =~= below);
        lemma_located_is_there(root.children[i], id, below);
    }
}

/// Appending no children changes nothing.
pub proof fn lemma_with_children_nothing(root: ElementView, path: Seq<int>)
    ensures
        root.with_children(path, Seq::empty()) == root,
    decreases path.len(),
{
    if path.len() == 0 {
        assert(root.children + Seq::<ElementView>::empty() =~= root.children);
    } else if 0 <= path[0] < root.children.len() {
        lemma_with_children_nothing(root.children[path[0]], path.drop_first());
        assert(root.children.update(path[0], root.children[path[0]]) =~= root.children);
    }
}

/// Appending twice at one place appends the two sequences one after the
/// other.
pub proof fn lemma_with_children_twice(
    root: ElementView,
    path: Seq<int>,
    first: Seq<ElementView>,
    second: Seq<ElementView>,
)
    ensures
        root.with_children(path, first).with_children(path, second) == root.with_children(
            path,
            first + second,
        ),
    decreases path.len(),
{
    if path.len() == 0 {
        assert((root.children + first) + second =~= root.children + (first + second));
    } else if 0 <= path[0] < root.children.len() {
        let child = root.children[path[0]];
        let rest = path.drop_first();
        lemma_with_children_twice(child, rest, first, second);
        assert(root.children.update(path[0], child.with_children(rest, first)).update(
            path[0],
            child.with_children(rest, first).with_children(rest, second),
        ) =~= root.children.update(path[0], child.with_children(rest, first + second)));
    }
}

/// After appending at `path`, the element there holds its old children and
/// then the new ones.
pub proof fn lemma_at_with_children(root: ElementView, path: Seq<int>, extra: Seq<ElementView>)
    requires
        root.at(path) is Some,
    ensures
        root.with_children(path, extra).at(path) == Some(
            root.at(path).unwrap().with_children(Seq::empty(), extra),
        ),
    decreases path.len(),
{
    if path.len() > 0 {
        lemma_at_with_children(root.children[path[0]], path.drop_first(), extra);
    }
}

/// Appending children leaves every path good: what a path reached is still
/// reached.  The element there gains the new children if the path is the
/// place of appending, keeps the number of its children if not, and is
/// untouched if the place is not at or below it.
pub proof fn lemma_at_stays(
    root: ElementView,
    path: Seq<int>,
    place: Seq<int>,
    extra: Seq<ElementView>,
)
    requires
        root.at(path) is Some,
    ensures
        root.with_children(place, extra).at(path) matches Some(now) && ({
            let before = root.at(path).unwrap();
            &&& now.tag == before.tag
            &&& now.id == before.id
            &&& now.class == before.class
            &&& now.markup == before.markup
            &&& path == place ==> now.children == before.children + extra
            &&& path != place ==> now.children.len() == before.children.len()
            &&& !path.is_prefix_of(place) ==> now == before
        }),
    decreases path.len(),
{
    if path.len() > 0 {
        let child = root.children[path[0]];
        let rest = path.drop_first();
        if place.len() > 0 && place[0] == path[0] {
            let below = place.drop_first();
            lemma_at_stays(child, rest, below, extra);
            assert(path =~= seq![path[0]] + rest);
            assert(place =~= seq![place[0]] + below);
            if rest == below {
                assert(path == place);
            }
            if rest.is_prefix_of(below) {
                assert(path.is_prefix_of(place));
            }
        } else {
            assert(root.with_children(place, extra).children[path[0]] == child);
        }
    } else if place.len() == 0 {
        assert(path =~= place);
    }
}

/// One step further than `path` lies the child, at that position, of the
/// element at `path`.
pub proof fn lemma_at_child(root: ElementView, path: Seq<int>, position: int)
    ensures
        root.at(path.push(position)) == match root.at(path) {
            Some(parent) => if 0 <= position < parent.children.len() {
                Some(parent.children[position])
            } else {
                None
            },
            None => None,
        },
    decreases path.len(),
{
    if path.len() == 0 {
        assert(path.push(position).drop_first() =~= Seq::<int>::empty());
        if 0 <= position < root.children.len() {
            assert(root.children[position].at(Seq::empty()) == Some(root.children[position]));
        }
    } else {
        assert(path.push(position).drop_first() =~= path.drop_first().push(position));
        if 0 <= path[0] < root.children.len() {
            lemma_at_child(root.children[path[0]], path.drop_first(), position);
        }
    }
}

/// Appending below an element that was itself just appended: the outcome is
/// the same as if that element had come with the extra children.
pub proof fn lemma_with_children_below(
    root: ElementView,
    path: Seq<int>,
    added: Seq<ElementView>,
    which: int,
    extra: Seq<ElementView>,
)
    requires
        root.at(path) is Some,
        0 <= which < added.len(),
    ensures
        root.with_children(path, added).with_children(
            path.push(root.at(path).unwrap().children.len() + which),
            extra,
        ) == root.with_children(
            path,
            added.update(which, added[which].with_children(Seq::empty(), extra)),
        ),
    decreases path.len(),
{
    let position = root.at(path).unwrap().children.len() + which;
    let grown = added.update(which, added[which].with_children(Seq::empty(), extra));
    if path.len() == 0 {
        let all = root.children + added;
        assert(path.push(position).drop_first() =~= Seq::<int>::empty());
        assert(all.update(position, all[position].with_children(Seq::empty(), extra))
            =~= root.children + grown);
    } else {
        let child = root.children[path[0]];
        let rest = path.drop_first();
        assert(path.push(position).drop_first() =~= rest.push(position));
        lemma_with_children_below(child, rest, added, which, extra);
        assert(root.children.update(path[0], child.with_children(rest, added)).update(
            path[0],
            child.with_children(rest, added).with_children(rest.push(position), extra),
        ) =~= root.children.update(path[0], child.with_children(rest, grown)));
    }
}

/// Appending at or below an element that `locate` finds does not change what
/// `locate` finds.
pub proof fn lemma_locate_stable(
    root: ElementView,
    id: Seq<char>,
    path: Seq<int>,
    extra: Seq<ElementView>,
)
    requires
        root.locate(id) matches Some(found) && found.is_prefix_of(path),
    ensures
        root.with_children(path, extra).locate(id) == root.locate(id),
    decreases path.len(),
{
    if root.id != Some(id) {
        let i = lemma_locate_among_first(root.children, id, 0);
        let below = root.children[i].locate(id).unwrap();
        let found = root.locate(id).unwrap();
        assert(found == seq![i] + below);
        assert(found[0] == i);
        assert(path[0] == i);
        let rest = path.drop_first();
        assert(below.is_prefix_of(rest)) by {
            assert(found.drop_first() =~= below);
            assert(forall|k: int| 0 <= k < below.len() ==> below[k] == found[k + 1]);
        }
        let child = root.children[i].with_children(rest, extra);
        lemma_locate_stable(root.children[i], id, rest, extra);
        let children = root.children.update(i, child);
        assert forall|j: int| 0 <= j < i implies (#[trigger] children[j]).locate(id) is None by {
            assert(children[j] == root.children[j]);
        }
        lemma_locate_among_found(children, id, 0, i);
    }
}

} // verus!
