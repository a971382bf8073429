use my_blog::{ContentModel, Post};

fn post(title: &str, content: &str) -> Post {
    Post { title: title.to_string(), content: content.to_string() }
}

#[test]
fn a_new_model_is_empty() {
    let model = ContentModel::new();
    assert_eq!(model.len(), 0);
    assert_eq!(model.get("A"), None);
}

#[test]
fn insert_files_new_names_last() {
    let mut model = ContentModel::new();
    assert_eq!(model.insert("A".to_string(), vec![post("1", "x")]), None);
    assert_eq!(model.insert("B".to_string(), Vec::new()), None);
    assert_eq!(model.insert("".to_string(), vec![post("", "")]), None);
    assert_eq!(model.len(), 3);
    assert_eq!(model.categories()[0].name, "A");
    assert_eq!(model.categories()[0].posts, vec![post("1", "x")]);
    assert_eq!(model.categories()[1].name, "B");
    assert!(model.categories()[1].posts.is_empty());
    assert_eq!(model.categories()[2].name, "");
}

#[test]
fn insert_replaces_the_posts_of_a_known_name() {
    let mut model = ContentModel::new();
    model.insert("A".to_string(), vec![post("1", "x"), post("2", "y")]);
    model.insert("B".to_string(), vec![post("3", "z")]);
    let held = model.insert("A".to_string(), vec![post("4", "w")]);
    assert_eq!(held, Some(vec![post("1", "x"), post("2", "y")]));
    assert_eq!(model.len(), 2);
    assert_eq!(model.categories()[0].name, "A");
    assert_eq!(model.categories()[0].posts, vec![post("4", "w")]);
    assert_eq!(model.categories()[1].name, "B");
    assert_eq!(model.categories()[1].posts, vec![post("3", "z")]);
}

#[test]
fn get_finds_posts_by_name() {
    let mut model = ContentModel::new();
    model.insert("A".to_string(), vec![post("1", "x")]);
    model.insert("B".to_string(), vec![post("2", "y"), post("3", "z")]);
    assert_eq!(model.get("A"), Some(&vec![post("1", "x")]));
    assert_eq!(model.get("B"), Some(&vec![post("2", "y"), post("3", "z")]));
    assert_eq!(model.get("C"), None);
    assert_eq!(model.get("a"), None);
}

#[test]
fn names_stay_distinct() {
    let mut model = ContentModel::new();
    for name in ["x", "y", "x", "z", "y", "x"] {
        model.insert(name.to_string(), Vec::new());
    }
    assert_eq!(model.len(), 3);
    assert_eq!(model.categories()[0].name, "x");
    assert_eq!(model.categories()[1].name, "y");
    assert_eq!(model.categories()[2].name, "z");
}
