//! The loader: from a JSON text to the content model.
//!
//! The text is an object whose keys are category names.  Each value is an
//! array of posts, each post an object with a text `title` and a text
//! `content`.  Anything else is refused, with the first deviation in the
//! order of the document.

use crate::json::{item_trees, member_trees, Json, JsonValue};
use crate::model::{
    distinct_names, lemma_with_category_distinct, lemma_with_new_category, posts_view,
    with_category, CategoryView, ContentModel, Post, PostView,
};
use crate::parser::{parse_json, parse_outcome};
use vstd::prelude::*;

verus! {

/// One of the two texts of a post.
#[derive(Clone, Copy, Debug, PartialEq, Eq)]
pub enum Field {
    Title,
    Content,
}

/// The key under which a post holds a field.
pub open spec fn field_key(field: Field) -> Seq<char> {
    match field {
        Field::Title => "title"@,
        Field::Content => "content"@,
    }
}

impl Field {
    /// The key under which a post holds this field.
    pub fn key(self) -> (key: &'static str)
        ensures
            key@ == field_key(self),
    {
        match self {
            Field::Title => "title",
            Field::Content => "content",
        }
    }
}

/// What is wrong with an entry of a category's array.
#[derive(Clone, Copy, Debug, PartialEq, Eq)]
pub enum PostFault {
    /// The entry is not an object.
    NotAnObject,
    /// The object has no member under the field's key.
    Missing(Field),
    /// The member under the field's key is not a string.
    NotText(Field),
}

/// Why a text was refused.
#[derive(Clone, Debug, PartialEq, Eq)]
pub enum DecodeError {
    /// The text is not one JSON value; `message` says where and why.
    Syntax { message: String },
    /// The value is not an object.
    NotAnObject,
    /// The value of the named category is not an array.
    NotAnArray { category: String },
    /// The entry at `index` of the named category's array is no post.
    BadPost { category: String, index: usize, fault: PostFault },
}

/// A decode error over plain values.
pub enum DecodeErrorView {
    Syntax { message: Seq<char> },
    NotAnObject,
    NotAnArray { category: Seq<char> },
    BadPost { category: Seq<char>, index: int, fault: PostFault },
}

impl View for DecodeError {
    type V = DecodeErrorView;

    open spec fn view(&self) -> DecodeErrorView {
        match *self {
            DecodeError::Syntax { message } => DecodeErrorView::Syntax { message: message@ },
            DecodeError::NotAnObject => DecodeErrorView::NotAnObject,
            DecodeError::NotAnArray { category } => DecodeErrorView::NotAnArray {
                category: category@,
            },
            DecodeError::BadPost { category, index, fault } => DecodeErrorView::BadPost {
                category: category@,
                index: index as int,
                fault,
            },
        }
    }
}

/// The value that an object with the given members holds under `key`: that
/// of the last member with this key, as where each member is entered into a
/// map in its turn.
pub open spec fn member(members: Seq<(Seq<char>, Json)>, key: Seq<char>) -> Option<Json>
    decreases members.len(),
{
    if members.len() == 0 {
        None
    } else if members.last().0 == key {
        Some(members.last().1)
    } else {
        member(members.drop_last(), key)
    }
}

/// The text that an object with the given members holds for `field`.
pub open spec fn decoded_field(members: Seq<(Seq<char>, Json)>, field: Field) -> Result<
    Seq<char>,
    PostFault,
> {
    match member(members, field_key(field)) {
        Some(Json::Text(text)) => Ok(text),
        Some(_) => Err(PostFault::NotText(field)),
        None => Err(PostFault::Missing(field)),
    }
}

/// The post that a JSON value stands for: an object with a text title and a
/// text content.  Of two faults the title's is reported.
pub open spec fn decoded_post(value: Json) -> Result<PostView, PostFault> {
    match value {
        Json::Object(members) => match decoded_field(members, Field::Title) {
            Ok(title) => match decoded_field(members, Field::Content) {
                Ok(content) => Ok(PostView { title, content }),
                Err(fault) => Err(fault),
            },
            Err(fault) => Err(fault),
        },
        _ => Err(PostFault::NotAnObject),
    }
}

/// `index` is the first entry of `items` that is no post.
pub open spec fn first_bad_post(items: Seq<Json>, index: int) -> bool {
    &&& 0 <= index < items.len()
    &&& decoded_post(items[index]) is Err
    &&& forall|k: int| 0 <= k < index ==> decoded_post(#[trigger] items[k]) is Ok
}

/// The posts that the entries of an array stand for, or the position and
/// fault of the first entry that is no post.
pub open spec fn decoded_posts(items: Seq<Json>) -> Result<Seq<PostView>, (int, PostFault)> {
    if exists|index: int| first_bad_post(items, index) {
        let index = choose|index: int| first_bad_post(items, index);
        Err((index, decoded_post(items[index])->Err_0))
    } else {
        Ok(items.map_values(|item: Json| decoded_post(item)->Ok_0))
    }
}

/// The category that a member of the document stands for: its key is the
/// name, its value the array of posts.
pub open spec fn decoded_category(member: (Seq<char>, Json)) -> Result<
    CategoryView,
    DecodeErrorView,
> {
    match member.1 {
        Json::Array(items) => match decoded_posts(items) {
            Ok(posts) => Ok(CategoryView { name: member.0, posts }),
            Err((index, fault)) => Err(
                DecodeErrorView::BadPost { category: member.0, index, fault },
            ),
        },
        _ => Err(DecodeErrorView::NotAnArray { category: member.0 }),
    }
}

/// `index` is the first member that is no category.
pub open spec fn first_bad_category(members: Seq<(Seq<char>, Json)>, index: int) -> bool {
    &&& 0 <= index < members.len()
    &&& decoded_category(members[index]) is Err
    &&& forall|k: int| 0 <= k < index ==> decoded_category(#[trigger] members[k]) is Ok
}

/// The model in which the given categories were filed one after the other.
/// A name that comes again replaces the posts filed under it before.
pub open spec fn filed(categories: Seq<CategoryView>) -> Seq<CategoryView>
    decreases categories.len(),
{
    if categories.len() == 0 {
        Seq::empty()
    } else {
        with_category(filed(categories.drop_last()), categories.last())
    }
}

/// The model that a JSON value stands for, or the first deviation from the
/// expected shape.
pub open spec fn decoded(value: Json) -> Result<Seq<CategoryView>, DecodeErrorView> {
    match value {
        Json::Object(members) => if exists|index: int| first_bad_category(members, index) {
            let index = choose|index: int| first_bad_category(members, index);
            Err(decoded_category(members[index])->Err_0)
        } else {
            Ok(filed(members.map_values(|member: (Seq<char>, Json)| decoded_category(member)->Ok_0)))
        },
        _ => Err(DecodeErrorView::NotAnObject),
    }
}

/// The model that a text stands for: what `decoded` makes of the JSON value
/// that the text is, or the parser's message where it is none.
pub open spec fn loaded(text: Seq<char>) -> Result<Seq<CategoryView>, DecodeErrorView> {
    match parse_outcome(text) {
        Ok(value) => decoded(value),
        Err(message) => Err(DecodeErrorView::Syntax { message }),
    }
}

/// The outcome of decoding over plain values.
pub open spec fn outcome_view(outcome: Result<ContentModel, DecodeError>) -> Result<
    Seq<CategoryView>,
    DecodeErrorView,
> {
    match outcome {
        Ok(model) => Ok(model@),
        Err(error) => Err(error@),
    }
}

/// Filing never leaves two categories of one name.
pub proof fn lemma_filed_distinct(categories: Seq<CategoryView>)
    ensures
        distinct_names(filed(categories)),
        filed(categories).len() <= categories.len(),
    decreases categories.len(),
{
    if categories.len() > 0 {
        lemma_filed_distinct(categories.drop_last());
        lemma_with_category_distinct(filed(categories.drop_last()), categories.last());
    }
}

/// Categories whose names differ are filed as they come: each stays, in its
/// place.
pub proof fn lemma_filed_as_given(categories: Seq<CategoryView>)
    requires
        distinct_names(categories),
    ensures
        filed(categories) == categories,
    decreases categories.len(),
{
    if categories.len() > 0 {
        let front = categories.drop_last();
        lemma_filed_as_given(front);
        lemma_with_new_category(front, categories.last());
        assert(front.push(categories.last()) =~= categories);
    }
}

/// What decoding yields has no two categories of one name.
pub proof fn lemma_decoded_distinct(value: Json)
    requires
        decoded(value) is Ok,
    ensures
        distinct_names(decoded(value)->Ok_0),
{
    let members = value->Object_0;
    lemma_filed_distinct(
        members.map_values(|member: (Seq<char>, Json)| decoded_category(member)->Ok_0),
    );
}

/// The object with the given members holds a text under the key of `field`.
pub open spec fn has_text(members: Seq<(Seq<char>, Json)>, field: Field) -> bool {
    member(members, field_key(field)) matches Some(value) && value is Text
}

/// The value is an object that holds a text title and a text content.
pub open spec fn is_post(value: Json) -> bool {
    value matches Json::Object(members) && has_text(members, Field::Title) && has_text(
        members,
        Field::Content,
    )
}

/// The value is an array of objects that each hold a text title and a text
/// content.
pub open spec fn is_post_array(value: Json) -> bool {
    value matches Json::Array(items) && forall|k: int|
        0 <= k < items.len() ==> is_post(#[trigger] items[k])
}

/// The value is an object whose every value is an array of posts.
pub open spec fn is_content(value: Json) -> bool {
    value matches Json::Object(members) && forall|i: int|
        0 <= i < members.len() ==> is_post_array((#[trigger] members[i]).1)
}

/// Where some entry is no post, there is a first such entry.
proof fn lemma_first_bad_post(items: Seq<Json>, index: int)
    requires
        0 <= index < items.len(),
        decoded_post(items[index]) is Err,
    ensures
        exists|first: int| first_bad_post(items, first),
    decreases index,
{
    if exists|k: int| 0 <= k < index && decoded_post(items[k]) is Err {
        let k = choose|k: int| 0 <= k < index && decoded_post(items[k]) is Err;
        lemma_first_bad_post(items, k);
    } else {
        assert(first_bad_post(items, index));
    }
}

/// Where some member is no category, there is a first such member.
proof fn lemma_first_bad_category(members: Seq<(Seq<char>, Json)>, index: int)
    requires
        0 <= index < members.len(),
        decoded_category(members[index]) is Err,
    ensures
        exists|first: int| first_bad_category(members, first),
    decreases index,
{
    if exists|k: int| 0 <= k < index && decoded_category(members[k]) is Err {
        let k = choose|k: int| 0 <= k < index && decoded_category(members[k]) is Err;
        lemma_first_bad_category(members, k);
    } else {
        assert(first_bad_category(members, index));
    }
}

/// A value decodes to a post exactly when it is an object that holds a text
/// title and a text content.
pub proof fn lemma_post_decodes_iff(value: Json)
    ensures
        decoded_post(value) is Ok <==> is_post(value),
{
}

/// An array decodes to posts exactly when every entry is a post.
pub proof fn lemma_posts_decode_iff(items: Seq<Json>)
    ensures
        decoded_posts(items) is Ok <==> is_post_array(Json::Array(items)),
{
    let array = Json::Array(items);
    if decoded_posts(items) is Ok {
        assert forall|k: int| 0 <= k < items.len() implies is_post(#[trigger] items[k]) by {
            lemma_post_decodes_iff(items[k]);
            if decoded_post(items[k]) is Err {
                lemma_first_bad_post(items, k);
            }
        }
    } else {
        let index = choose|index: int| first_bad_post(items, index);
        lemma_post_decodes_iff(items[index]);
        assert(!is_post(array->Array_0[index]));
    }
}

/// Decoding succeeds exactly on an object whose every value is an array of
/// objects that each hold a text title and a text content.
pub proof fn lemma_decodes_iff_content(value: Json)
    ensures
        decoded(value) is Ok <==> is_content(value),
{
    if let Json::Object(members) = value {
        if decoded(value) is Ok {
            assert forall|i: int| 0 <= i < members.len() implies is_post_array(
                (#[trigger] members[i]).1,
            ) by {
                if decoded_category(members[i]) is Err {
                    lemma_first_bad_category(members, i);
                }
                if let Json::Array(items) = members[i].1 {
                    lemma_posts_decode_iff(items);
                }
            }
        } else {
            let index = choose|index: int| first_bad_category(members, index);
            if let Json::Array(items) = members[index].1 {
                lemma_posts_decode_iff(items);
            }
            assert(!is_post_array(members[index].1));
        }
    }
}

/// Loading succeeds exactly on a text that is a JSON value of the expected
/// shape.
pub proof fn lemma_loads_iff_content(text: Seq<char>)
    ensures
        loaded(text) is Ok <==> (parse_outcome(text) matches Ok(value) && is_content(value)),
{
    if let Ok(value) = parse_outcome(text) {
        lemma_decodes_iff_content(value);
    }
}

/// The value of the last member whose key is `key`.
fn find_member<'a>(members: &'a Vec<(String, JsonValue)>, key: &String) -> (r: Option<&'a JsonValue>)
    ensures
        match member(member_trees(members@), key@) {
            Some(value) => r matches Some(found) && found@ == value,
            None => r is None,
        },
{
    let ghost pairs = member_trees(members@);
    let mut i: usize = members.len();
    assert(pairs.take(i as int) =~= pairs);
    while i > 0
        invariant
            i <= members.len(),
            pairs == member_trees(members@),
            member(pairs, key@) == member(pairs.take(i as int), key@),
        decreases i,
    {
        i -= 1;
        let entry = &members[i];
        assert(pairs.take(i + 1).last() == (entry.0@, entry.1@));
        assert(pairs.take(i + 1).drop_last() =~= pairs.take(i as int));
        if entry.0 == *key {
            return Some(&entry.1);
        }
    }
    None
}

/// The text that an object with the given members holds for `field`.
fn decode_field(members: &Vec<(String, JsonValue)>, field: Field) -> (r: Result<String, PostFault>)
    ensures
        match decoded_field(member_trees(members@), field) {
            Ok(text) => r matches Ok(found) && found@ == text,
            Err(fault) => r == Err::<String, PostFault>(fault),
        },
{
    let key = field.key().to_owned();
    match find_member(members, &key) {
        Some(JsonValue::Text(text)) => Ok(text.clone()),
        Some(_) => Err(PostFault::NotText(field)),
        None => Err(PostFault::Missing(field)),
    }
}

/// The post that `value` stands for.
fn decode_post(value: &JsonValue) -> (r: Result<Post, PostFault>)
    ensures
        match decoded_post(value@) {
            Ok(post) => r matches Ok(found) && found@ == post,
            Err(fault) => r == Err::<Post, PostFault>(fault),
        },
{
    let members = match value {
        JsonValue::Object(members) => members,
        _ => {
            return Err(PostFault::NotAnObject);
        },
    };
    let title = match decode_field(members, Field::Title) {
        Ok(text) => text,
        Err(fault) => {
            return Err(fault);
        },
    };
    let content = match decode_field(members, Field::Content) {
        Ok(text) => text,
        Err(fault) => {
            return Err(fault);
        },
    };
    Ok(Post { title, content })
}

/// The posts that the entries of an array stand for.
fn decode_posts(items: &Vec<JsonValue>) -> (r: Result<Vec<Post>, (usize, PostFault)>)
    ensures
        match decoded_posts(item_trees(items@)) {
            Ok(posts) => r matches Ok(found) && posts_view(found@) == posts,
            Err((index, fault)) => r matches Err((at, why)) && at == index && why == fault,
        },
{
    let ghost trees = item_trees(items@);
    let mut posts: Vec<Post> = Vec::new();
    let mut i: usize = 0;
    while i < items.len()
        invariant
            i <= items.len(),
            trees == item_trees(items@),
            posts@.len() == i,
            forall|k: int| 0 <= k < i ==> decoded_post(#[trigger] trees[k]) == Ok::<
                PostView,
                PostFault,
            >(posts@[k]@),
        decreases items.len() - i,
    {
        assert(trees[i as int] == items@[i as int]@);
        match decode_post(&items[i]) {
            Ok(post) => {
                posts.push(post);
            },
            Err(fault) => {
                assert(first_bad_post(trees, i as int));
                let ghost chosen = choose|index: int| first_bad_post(trees, index);
                assert(chosen == i) by {
                    if chosen < i {
                        assert(decoded_post(trees[chosen]) is Ok);
                    }
                    if i < chosen {
                        assert(decoded_post(trees[i as int]) is Ok);
                    }
                }
                return Err((i, fault));
            },
        }
        i += 1;
    }
    proof {
        assert forall|index: int| !first_bad_post(trees, index) by {
            if 0 <= index < trees.len() {
                assert(decoded_post(trees[index]) is Ok);
            }
        }
        assert(posts_view(posts@) =~= trees.map_values(|item: Json| decoded_post(item)->Ok_0));
    }
    Ok(posts)
}

/// Decodes a JSON value into the content model.  Succeeds exactly on an
/// object whose every value is an array of objects that each hold a text
/// `title` and a text `content`; any other value is refused with the first
/// deviation in document order.
pub fn decode(value: &JsonValue) -> (r: Result<ContentModel, DecodeError>)
    ensures
        outcome_view(r) == decoded(value@),
{
    let members = match value {
        JsonValue::Object(members) => members,
        _ => {
            return Err(DecodeError::NotAnObject);
        },
    };
    let ghost pairs = value@->Object_0;
    let mut model = ContentModel::new();
    let mut i: usize = 0;
    while i < members.len()
        invariant
            i <= members.len(),
            value@ == Json::Object(pairs),
            pairs == member_trees(members@),
            forall|k: int| 0 <= k < i ==> decoded_category(#[trigger] pairs[k]) is Ok,
            model@ == filed(
                pairs.take(i as int).map_values(
                    |member: (Seq<char>, Json)| decoded_category(member)->Ok_0,
                ),
            ),
        decreases members.len() - i,
    {
        let member = &members[i];
        assert(pairs[i as int] == (member.0@, member.1@));
        let outcome = match &member.1 {
            JsonValue::Array(items) => match decode_posts(items) {
                Ok(posts) => Ok(posts),
                Err((index, fault)) => Err(
                    DecodeError::BadPost { category: member.0.clone(), index, fault },
                ),
            },
            _ => Err(DecodeError::NotAnArray { category: member.0.clone() }),
        };
        match outcome {
            Ok(posts) => {
                proof {
                    let categories = |member: (Seq<char>, Json)| decoded_category(member)->Ok_0;
                    assert(pairs.take(i + 1).map_values(categories).drop_last() =~= pairs.take(
                        i as int,
                    ).map_values(categories));
                }
                model.insert(member.0.clone(), posts);
            },
            Err(error) => {
                assert(first_bad_category(pairs, i as int));
                let ghost chosen = choose|index: int| first_bad_category(pairs, index);
                assert(chosen == i) by {
                    if chosen < i {
                        assert(decoded_category(pairs[chosen]) is Ok);
                    }
                    if i < chosen {
                        assert(decoded_category(pairs[i as int]) is Ok);
                    }
                }
                return Err(error);
            },
        }
        i += 1;
    }
    proof {
        assert forall|index: int| !first_bad_category(pairs, index) by {
            if 0 <= index < pairs.len() {
                assert(decoded_category(pairs[index]) is Ok);
            }
        }
        assert(pairs.take(i as int) =~= pairs);
    }
    Ok(model)
}

/// Loads the content model from a JSON text.  A text that is not one JSON
/// value is refused with the parser's message; a JSON value is decoded as
/// `decode` does.
pub fn load(source: &str) -> (r: Result<ContentModel, DecodeError>)
    ensures
        outcome_view(r) == loaded(source@),
{
    match parse_json(source) {
        Ok(value) => decode(&value),
        Err(message) => Err(DecodeError::Syntax { message }),
    }
}

} // verus!
