//! The content model: categories, each with its posts in order.

use vstd::prelude::*;

verus! {

/// One blog post.  Either text may be empty.
#[derive(Clone, Debug, PartialEq, Eq)]
pub struct Post {
    pub title: String,
    pub content: String,
}

/// A post as a pair of texts.
pub struct PostView {
    pub title: Seq<char>,
    pub content: Seq<char>,
}

impl View for Post {
    type V = PostView;

    open spec fn view(&self) -> PostView {
        PostView { title: self.title@, content: self.content@ }
    }
}

/// The views of a sequence of posts, in the same order.
pub open spec fn posts_view(posts: Seq<Post>) -> Seq<PostView> {
    posts.map_values(|p: Post| p@)
}

/// A category name with the posts filed under it.
#[derive(Clone, Debug, PartialEq, Eq)]
pub struct Category {
    pub name: String,
    pub posts: Vec<Post>,
}

/// A category as a name and a sequence of posts.
pub struct CategoryView {
    pub name: Seq<char>,
    pub posts: Seq<PostView>,
}

impl View for Category {
    type V = CategoryView;

    open spec fn view(&self) -> CategoryView {
        CategoryView { name: self.name@, posts: posts_view(self.posts@) }
    }
}

/// The views of a sequence of categories, in the same order.
pub open spec fn categories_view(categories: Seq<Category>) -> Seq<CategoryView> {
    categories.map_values(|c: Category| c@)
}

/// No two categories of `model` share a name.
pub open spec fn distinct_names(model: Seq<CategoryView>) -> bool {
    forall|i: int, j: int|
        0 <= i < model.len() && 0 <= j < model.len() && i != j ==> model[i].name != model[j].name
}

/// Where the category called `name` stands in `model`, if there is one.
pub open spec fn position_of(model: Seq<CategoryView>, name: Seq<char>) -> Option<int> {
    if exists|i: int| 0 <= i < model.len() && model[i].name == name {
        Some(choose|i: int| 0 <= i < model.len() && model[i].name == name)
    } else {
        None
    }
}

/// `model` after `category` was filed: it takes the place of the category of
/// the same name, or comes last where there was none.
pub open spec fn with_category(model: Seq<CategoryView>, category: CategoryView) -> Seq<CategoryView> {
    match position_of(model, category.name) {
        Some(i) => model.update(i, category),
        None => model.push(category),
    }
}

/// Filing a category keeps the names distinct.
pub proof fn lemma_with_category_distinct(model: Seq<CategoryView>, category: CategoryView)
    requires
        distinct_names(model),
    ensures
        distinct_names(with_category(model, category)),
{
}

/// A category with a new name comes last; nothing else changes.
pub proof fn lemma_with_new_category(model: Seq<CategoryView>, category: CategoryView)
    requires
        forall|i: int| 0 <= i < model.len() ==> model[i].name != category.name,
    ensures
        with_category(model, category) == model.push(category),
{
}

/// The content of a blog: a mapping from category names to posts that keeps
/// the categories in the order in which they were first filed.
#[derive(Debug, PartialEq, Eq)]
pub struct ContentModel {
    categories: Vec<Category>,
}

impl View for ContentModel {
    type V = Seq<CategoryView>;

    closed spec fn view(&self) -> Seq<CategoryView> {
        categories_view(self.categories@)
    }
}

impl ContentModel {
    #[verifier::type_invariant]
    spec fn names_are_distinct(self) -> bool {
        distinct_names(self@)
    }

    /// A model without categories.
    pub fn new() -> (model: ContentModel)
        ensures
            model@ == Seq::<CategoryView>::empty(),
    {
        ContentModel { categories: Vec::new() }
    }

    /// The number of categories.
    pub fn len(&self) -> (n: usize)
        ensures
            n == self@.len(),
            distinct_names(self@),
    {
        proof {
            use_type_invariant(self);
        }
        self.categories.len()
    }

    /// The categories, in their order.
    pub fn categories(&self) -> (categories: &Vec<Category>)
        ensures
            categories_view(categories@) == self@,
    {
        &self.categories
    }

    /// The posts filed under `name`, or `None` where no category has that
    /// name.
    pub fn get(&self, name: &str) -> (found: Option<&Vec<Post>>)
        ensures
            match position_of(self@, name@) {
                Some(i) => found matches Some(posts) && posts_view(posts@) == self@[i].posts,
                None => found is None,
            },
    {
        proof {
            use_type_invariant(self);
        }
        let wanted = name.to_owned();
        match position(&self.categories, &wanted) {
            Some(i) => Some(&self.categories[i].posts),
            None => None,
        }
    }

    /// Files `posts` under `name`.  A category of that name keeps its place
    /// and hands back the posts it held; a new name comes last.
    pub fn insert(&mut self, name: String, posts: Vec<Post>) -> (replaced: Option<Vec<Post>>)
        ensures
            final(self)@ == with_category(
                old(self)@,
                CategoryView { name: name@, posts: posts_view(posts@) },
            ),
            distinct_names(final(self)@),
            match position_of(old(self)@, name@) {
                Some(i) => replaced matches Some(held) && posts_view(held@) == old(self)@[i].posts,
                None => replaced is None,
            },
    {
        proof {
            use_type_invariant(&*self);
        }
        let ghost before = self@;
        let ghost filed = CategoryView { name: name@, posts: posts_view(posts@) };
        let mut categories: Vec<Category> = Vec::new();
        std::mem::swap(&mut self.categories, &mut categories);
        let replaced = match position(&categories, &name) {
            Some(i) => {
                let mut held = posts;
                std::mem::swap(&mut categories[i].posts, &mut held);
                assert(categories_view(categories@) =~= before.update(i as int, filed));
                Some(held)
            },
            None => {
                categories.push(Category { name, posts });
                assert(categories_view(categories@) =~= before.push(filed));
                None
            },
        };
        std::mem::swap(&mut self.categories, &mut categories);
        replaced
    }
}

/// The place of the category called `name` among categories of distinct
/// names.
fn position(categories: &Vec<Category>, name: &String) -> (found: Option<usize>)
    requires
        distinct_names(categories_view(categories@)),
    ensures
        match found {
            Some(i) => i < categories.len() && position_of(categories_view(categories@), name@)
                == Some(i as int),
            None => position_of(categories_view(categories@), name@) is None,
        },
{
    let ghost model = categories_view(categories@);
    let mut i: usize = 0;
    while i < categories.len()
        invariant
            i <= categories.len(),
            model == categories_view(categories@),
            distinct_names(model),
            forall|j: int| 0 <= j < i ==> model[j].name != name@,
        decreases categories.len() - i,
    {
        if categories[i].name == *name {
            assert(model[i as int].name == name@);
            return Some(i);
        }
        i += 1;
    }
    None
}

} // verus!
