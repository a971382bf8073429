//! The renderer: one section element per category, one post element per
//! post, appended below the main container of a host document.

use crate::dom::{steps, Document, Element};
use crate::model::{categories_view, CategoryView, ContentModel, PostView};
use crate::tree::{
    lemma_at_child, lemma_at_with_children, lemma_located_is_there, lemma_locate_stable,
    lemma_with_children_below, lemma_with_children_nothing, lemma_with_children_twice,
    ElementView,
};
use vstd::prelude::*;

verus! {

/// The identifier of the element below which everything is rendered.
pub const MAIN_CONTAINER_ID: &'static str = "main-container";

/// The class marker of a section element.
pub const SECTION_CLASS: &'static str = "section-container";

/// The class marker of a post element.
pub const POST_CLASS: &'static str = "post-container";

/// Why a rendering step failed.
#[derive(Clone, Copy, Debug, PartialEq, Eq)]
pub enum RenderError {
    /// The host document has no element with the identifier of the main
    /// container.
    MissingContainer,
    /// The host document has no element where a child was to be appended.
    AttachmentRefused,
}

/// An element that holds a raw markup fragment and nothing else.
pub open spec fn markup_element(tag: Seq<char>, markup: Seq<char>) -> ElementView {
    ElementView { tag, id: None, class: None, markup, children: Seq::empty() }
}

/// The element of a post: a marked `div` with the title as an `h3` and the
/// content as a `p`, each text taken as raw markup.
pub open spec fn post_element(post: PostView) -> ElementView {
    ElementView {
        tag: "div"@,
        id: None,
        class: Some(POST_CLASS@),
        markup: Seq::empty(),
        children: seq![markup_element("h3"@, post.title), markup_element("p"@, post.content)],
    }
}

/// The elements of a sequence of posts, in the same order.
pub open spec fn post_elements(posts: Seq<PostView>) -> Seq<ElementView> {
    posts.map_values(|post: PostView| post_element(post))
}

/// The element of a category that has no post yet: a marked `div` with the
/// name as an `h2`.
pub open spec fn section_start(name: Seq<char>) -> ElementView {
    ElementView {
        tag: "div"@,
        id: None,
        class: Some(SECTION_CLASS@),
        markup: Seq::empty(),
        children: seq![markup_element("h2"@, name)],
    }
}

/// The element of a category: its heading, then the elements of its posts in
/// their order.
pub open spec fn section_element(category: CategoryView) -> ElementView {
    section_start(category.name).with_children(Seq::empty(), post_elements(category.posts))
}

/// The section elements of a model, one per category, in the model's order.
pub open spec fn rendered(model: Seq<CategoryView>) -> Seq<ElementView> {
    model.map_values(|category: CategoryView| section_element(category))
}

/// Creates the section element of a category called `section_title`, with its
/// heading, and appends it to the main container of `document`.  Gives a
/// handle to the new section.  Without a main container the document is left
/// as it was.
pub fn create_section(document: &mut Document, section_title: &str) -> (r: Result<
    Vec<usize>,
    RenderError,
>)
    ensures
        match old(document)@.locate(MAIN_CONTAINER_ID@) {
            Some(container) => r matches Ok(section) && steps(section@) == container.push(
                old(document)@.at(container).unwrap().children.len() as int,
            ) && final(document)@ == old(document)@.with_children(
                container,
                seq![section_start(section_title@)],
            ),
            None => r == Err::<Vec<usize>, RenderError>(RenderError::MissingContainer)
                && final(document)@ == old(document)@,
        },
{
    let mut section_container = Element::new("div");
    section_container.set_class(SECTION_CLASS);
    let mut title = Element::new("h2");
    title.set_raw_markup(section_title);
    section_container.append_child(title);
    assert(section_container@.children =~= seq![markup_element("h2"@, section_title@)]);

    let mut main_container = match document.get_element_by_id(MAIN_CONTAINER_ID) {
        Some(handle) => handle,
        None => {
            return Err(RenderError::MissingContainer);
        },
    };
    proof {
        lemma_located_is_there(document@, MAIN_CONTAINER_ID@, steps(main_container@));
    }
    let ghost container = steps(main_container@);
    match document.append_child(&main_container, section_container) {
        Ok(position) => {
            main_container.push(position);
            assert(steps(main_container@) =~= container.push(position as int));
            Ok(main_container)
        },
        Err(_) => Err(RenderError::AttachmentRefused),
    }
}

/// Creates the element of a post and appends it to the section that
/// `section_container` stands for.  Where the document has no element there,
/// it is left as it was.
pub fn create_post(
    document: &mut Document,
    section_container: &Vec<usize>,
    title: &str,
    content: &str,
) -> (r: Result<(), RenderError>)
    ensures
        match old(document)@.at(steps(section_container@)) {
            Some(_) => r == Ok::<(), RenderError>(())
                && final(document)@ == old(document)@.with_children(
                    steps(section_container@),
                    seq![post_element(PostView { title: title@, content: content@ })],
                ),
            None => r == Err::<(), RenderError>(RenderError::AttachmentRefused)
                && final(document)@ == old(document)@,
        },
{
    let mut post_container = Element::new("div");
    post_container.set_class(POST_CLASS);
    let mut post_title = Element::new("h3");
    post_title.set_raw_markup(title);
    let mut post_content = Element::new("p");
    post_content.set_raw_markup(content);
    post_container.append_child(post_title);
    post_container.append_child(post_content);
    assert(post_container@.children =~= seq![
        markup_element("h3"@, title@),
        markup_element("p"@, content@),
    ]);

    match document.append_child(section_container, post_container) {
        Ok(_) => Ok(()),
        Err(_) => Err(RenderError::AttachmentRefused),
    }
}

/// The section of `category` while only its first `count` posts are in it.
pub open spec fn section_in_progress(category: CategoryView, count: int) -> ElementView {
    section_start(category.name).with_children(
        Seq::empty(),
        post_elements(category.posts.take(count)),
    )
}

/// Renders `model` into `host`: appends to the main container one section per
/// category, in the model's order, each with its posts in their order.
/// Without a main container nothing is rendered and the host is left as it
/// was.  What the container held before stays in front of the new sections.
pub fn render(model: &ContentModel, host: &mut Document) -> (r: Result<(), RenderError>)
    ensures
        match old(host)@.locate(MAIN_CONTAINER_ID@) {
            Some(container) => r == Ok::<(), RenderError>(())
                && final(host)@ == old(host)@.with_children(container, rendered(model@)),
            None => r == Err::<(), RenderError>(RenderError::MissingContainer)
                && final(host)@ == old(host)@,
        },
{
    let ghost base = host@;
    if host.get_element_by_id(MAIN_CONTAINER_ID).is_none() {
        return Err(RenderError::MissingContainer);
    }
    let ghost container = base.locate(MAIN_CONTAINER_ID@).unwrap();
    proof {
        lemma_located_is_there(base, MAIN_CONTAINER_ID@, container);
        assert(rendered(model@.take(0)) =~= Seq::empty());
        assert(base.with_children(container, Seq::empty()) == base) by {
            lemma_with_children_nothing(base, container);
        }
    }
    let ghost held = base.at(container).unwrap().children.len() as int;
    let categories = model.categories();
    let mut i: usize = 0;
    while i < categories.len()
        invariant
            i <= categories.len(),
            categories_view(categories@) == model@,
            base.locate(MAIN_CONTAINER_ID@) == Some(container),
            base.at(container) is Some,
            held == base.at(container).unwrap().children.len(),
            host@ == base.with_children(container, rendered(model@.take(i as int))),
        decreases categories.len() - i,
    {
        let category = &categories[i];
        let ghost done = rendered(model@.take(i as int));
        proof {
            lemma_locate_stable(base, MAIN_CONTAINER_ID@, container, done);
            lemma_at_with_children(base, container, done);
        }
        let section = match create_section(host, category.name.as_str()) {
            Ok(handle) => handle,
            Err(error) => {
                return Err(error);
            },
        };
        proof {
            lemma_with_children_twice(base, container, done, seq![section_start(category@.name)]);
            assert(done + seq![section_start(category@.name)] =~= done.push(
                section_in_progress(category@, 0),
            )) by {
                assert(post_elements(category@.posts.take(0)) =~= Seq::empty());
                assert(section_start(category@.name).children + Seq::<ElementView>::empty()
                    =~= section_start(category@.name).children);
            }
        }
        let mut j: usize = 0;
        while j < category.posts.len()
            invariant
                j <= category.posts.len(),
                i < model@.len(),
                category@ == model@[i as int],
                done == rendered(model@.take(i as int)),
                base.at(container) is Some,
                held == base.at(container).unwrap().children.len(),
                steps(section@) == container.push(held + done.len()),
                host@ == base.with_children(
                    container,
                    done.push(section_in_progress(category@, j as int)),
                ),
            decreases category.posts.len() - j,
        {
            let post = &category.posts[j];
            let ghost current = section_in_progress(category@, j as int);
            let ghost added = done.push(current);
            let ghost element = post_element(post@);
            proof {
                lemma_at_with_children(base, container, added);
                lemma_at_child(host@, container, held + done.len());
                lemma_with_children_below(base, container, added, done.len() as int, seq![element]);
            }
            match create_post(host, &section, post.title.as_str(), post.content.as_str()) {
                Ok(()) => {},
                Err(error) => {
                    return Err(error);
                },
            }
            proof {
                let posts = category@.posts;
                assert(posts[j as int] == post@);
                assert(post_elements(posts.take(j + 1)) =~= post_elements(posts.take(j as int)).push(
                    element,
                ));
                assert(current.with_children(Seq::empty(), seq![element]) == section_in_progress(
                    category@,
                    j + 1,
                )) by {
                    assert((section_start(category@.name).children + post_elements(
                        posts.take(j as int),
                    )) + seq![element] =~= section_start(category@.name).children + post_elements(
                        posts.take(j + 1),
                    ));
                }
                assert(added.update(
                    done.len() as int,
                    added[done.len() as int].with_children(Seq::empty(), seq![element]),
                ) =~= done.push(section_in_progress(category@, j + 1)));
            }
            j += 1;
        }
        proof {
            assert(category@.posts.take(j as int) =~= category@.posts);
            assert(rendered(model@.take(i + 1)) =~= done.push(section_element(category@)));
        }
        i += 1;
    }
    proof {
        assert(model@.take(i as int) =~= model@);
    }
    Ok(())
}

/// The children of an element that carry the marker of a section element.
pub open spec fn section_children(container: ElementView) -> Seq<ElementView> {
    container.children.filter(|child: ElementView| child.class == Some(SECTION_CLASS@))
}

/// The children of a section that carry the marker of a post element.
pub open spec fn post_children(section: ElementView) -> Seq<ElementView> {
    section.children.filter(|child: ElementView| child.class == Some(POST_CLASS@))
}

/// The post that a post element shows: the markup of its heading and of its
/// paragraph.
pub open spec fn shown_post(element: ElementView) -> PostView {
    PostView { title: element.children[0].markup, content: element.children[1].markup }
}

/// A filter keeps a sequence whose every item passes it as it is.
proof fn lemma_filter_keeps_all(items: Seq<ElementView>, pred: spec_fn(ElementView) -> bool)
    requires
        forall|i: int| 0 <= i < items.len() ==> pred(#[trigger] items[i]),
    ensures
        items.filter(pred) == items,
    decreases items.len(),
{
    reveal(Seq::filter);
    if items.len() > 0 {
        lemma_filter_keeps_all(items.drop_last(), pred);
        assert(items.drop_last().push(items.last()) =~= items);
    }
}

/// A section starts with the heading that holds the category's name; its
/// post elements are those of the category's posts, as many and in the same
/// order.
pub proof fn lemma_section_shows_category(category: CategoryView)
    ensures
        section_element(category).children[0] == markup_element("h2"@, category.name),
        post_children(section_element(category)) == post_elements(category.posts),
        post_children(section_element(category)).len() == category.posts.len(),
{
    let is_post = |child: ElementView| child.class == Some(POST_CLASS@);
    let heading = seq![markup_element("h2"@, category.name)];
    let posts = post_elements(category.posts);
    assert(section_element(category).children =~= heading + posts);
    Seq::filter_distributes_over_add(heading, posts, is_post);
    assert(heading.filter(is_post) =~= Seq::empty()) by {
        reveal_with_fuel(Seq::filter, 2);
        assert(heading.drop_last() =~= Seq::empty());
    }
    lemma_filter_keeps_all(posts, is_post);
    assert(heading.filter(is_post) + posts.filter(is_post) =~= posts);
}

/// Rendering makes one section per category, and under each section one post
/// element per post of that category.
pub proof fn lemma_rendered_counts(model: Seq<CategoryView>)
    ensures
        rendered(model).len() == model.len(),
        forall|i: int|
            0 <= i < model.len() ==> post_children(#[trigger] rendered(model)[i]).len()
                == model[i].posts.len(),
{
    assert forall|i: int| 0 <= i < model.len() implies post_children(
        #[trigger] rendered(model)[i],
    ).len() == model[i].posts.len() by {
        lemma_section_shows_category(model[i]);
    }
}

/// A post element shows the post it was made for, title and content as they
/// are.
pub proof fn lemma_post_element_shows_post(post: PostView)
    ensures
        shown_post(post_element(post)) == post,
{
    let element = post_element(post);
    assert(element.children[0] == markup_element("h3"@, post.title));
    assert(element.children[1] == markup_element("p"@, post.content));
}

/// Rendering keeps the order: the section at position `i` is that of the
/// category at `i`, and its post element at position `j` is that of the post
/// at `j` of that category.
pub proof fn lemma_rendered_order(model: Seq<CategoryView>, i: int, j: int)
    requires
        0 <= i < model.len(),
        0 <= j < model[i].posts.len(),
    ensures
        rendered(model)[i].children[0] == markup_element("h2"@, model[i].name),
        post_children(rendered(model)[i])[j] == post_element(model[i].posts[j]),
        shown_post(post_children(rendered(model)[i])[j]) == model[i].posts[j],
{
    let section = section_element(model[i]);
    assert(rendered(model)[i] == section);
    assert(section.children[0] == markup_element("h2"@, model[i].name)
        && post_children(section) == post_elements(model[i].posts)) by {
        lemma_section_shows_category(model[i]);
    }
    assert(post_elements(model[i].posts)[j] == post_element(model[i].posts[j]));
    lemma_post_element_shows_post(model[i].posts[j]);
}

/// What rendering does to a host that has a main container: the container is
/// still found where it was, and holds what it held, then the sections of the
/// model.  It has one section element more for each category.
pub proof fn lemma_render_appends(host: ElementView, model: Seq<CategoryView>)
    requires
        host.locate(MAIN_CONTAINER_ID@) is Some,
    ensures
        ({
            let container = host.locate(MAIN_CONTAINER_ID@).unwrap();
            let after = host.with_children(container, rendered(model));
            &&& host.at(container) is Some
            &&& after.locate(MAIN_CONTAINER_ID@) == Some(container)
            &&& after.at(container) is Some
            &&& after.at(container).unwrap().children == host.at(container).unwrap().children
                + rendered(model)
            &&& section_children(after.at(container).unwrap()).len() == section_children(
                host.at(container).unwrap(),
            ).len() + model.len()
        }),
{
    let container = host.locate(MAIN_CONTAINER_ID@).unwrap();
    let is_section = |child: ElementView| child.class == Some(SECTION_CLASS@);
    lemma_located_is_there(host, MAIN_CONTAINER_ID@, container);
    lemma_locate_stable(host, MAIN_CONTAINER_ID@, container, rendered(model));
    lemma_at_with_children(host, container, rendered(model));
    Seq::filter_distributes_over_add(host.at(container).unwrap().children, rendered(model), is_section);
    lemma_filter_keeps_all(rendered(model), is_section);
}

/// Rendering is not idempotent.  A second rendering of a model into the same
/// host finds the container again and appends the sections once more: the
/// container then holds them twice, after what it held at first, and has two
/// section elements more for each category.
pub proof fn lemma_render_twice(host: ElementView, model: Seq<CategoryView>)
    requires
        host.locate(MAIN_CONTAINER_ID@) is Some,
    ensures
        ({
            let container = host.locate(MAIN_CONTAINER_ID@).unwrap();
            let once = host.with_children(container, rendered(model));
            let twice = once.with_children(container, rendered(model));
            &&& once.locate(MAIN_CONTAINER_ID@) == Some(container)
            &&& twice == host.with_children(container, rendered(model) + rendered(model))
            &&& twice.at(container) is Some
            &&& twice.at(container).unwrap().children == host.at(container).unwrap().children
                + rendered(model) + rendered(model)
            &&& section_children(twice.at(container).unwrap()).len() == section_children(
                host.at(container).unwrap(),
            ).len() + 2 * model.len()
        }),
{
    let container = host.locate(MAIN_CONTAINER_ID@).unwrap();
    let sections = rendered(model);
    let once = host.with_children(container, sections);
    lemma_render_appends(host, model);
    lemma_render_appends(once, model);
    lemma_with_children_twice(host, container, sections, sections);
    assert(host.at(container).unwrap().children + sections + sections =~= host.at(
        container,
    ).unwrap().children + (sections + sections));
    lemma_at_with_children(host, container, sections + sections);
}

} // verus!
