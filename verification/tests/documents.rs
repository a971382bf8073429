use my_blog::{Document, Element};

fn element(tag: &str, id: Option<&str>, children: Vec<Element>) -> Element {
    Element {
        tag: tag.to_string(),
        id: id.map(|text| text.to_string()),
        class: None,
        markup: String::new(),
        children,
    }
}

fn page() -> Document {
    Document::new(element(
        "html",
        None,
        vec![
            element("head", None, vec![element("title", Some("t"), Vec::new())]),
            element(
                "body",
                Some("b"),
                vec![
                    element("nav", None, vec![element("a", Some("x"), Vec::new())]),
                    element("div", Some("x"), vec![element("p", Some("deep"), Vec::new())]),
                    element("div", Some("t"), Vec::new()),
                ],
            ),
        ],
    ))
}

#[test]
fn a_new_element_has_only_its_tag() {
    assert_eq!(
        Element::new("div"),
        Element {
            tag: "div".to_string(),
            id: None,
            class: None,
            markup: String::new(),
            children: Vec::new(),
        }
    );
}

#[test]
fn set_class_changes_the_class_only() {
    let mut div = element("div", Some("i"), vec![Element::new("p")]);
    div.set_class("first");
    div.set_class("second");
    assert_eq!(div.class, Some("second".to_string()));
    assert_eq!(div.id, Some("i".to_string()));
    assert_eq!(div.tag, "div");
    assert_eq!(div.markup, "");
    assert_eq!(div.children, vec![Element::new("p")]);
}

#[test]
fn raw_markup_is_stored_as_given_and_drops_the_children() {
    let mut div = element("div", Some("i"), vec![Element::new("p")]);
    div.set_raw_markup("<b>bold</b> & <i>more</i>");
    assert_eq!(div.markup, "<b>bold</b> & <i>more</i>");
    assert!(div.children.is_empty());
    assert_eq!(div.id, Some("i".to_string()));
    assert_eq!(div.tag, "div");
}

#[test]
fn append_child_adds_at_the_end() {
    let mut div = Element::new("div");
    div.append_child(Element::new("h2"));
    div.append_child(Element::new("p"));
    assert_eq!(div.children, vec![Element::new("h2"), Element::new("p")]);
}

#[test]
fn finds_the_root_by_its_id() {
    let document = Document::new(element("html", Some("top"), vec![element("p", Some("top"), Vec::new())]));
    assert_eq!(document.get_element_by_id("top"), Some(Vec::new()));
}

#[test]
fn finds_the_first_element_in_document_order() {
    let document = page();
    assert_eq!(document.get_element_by_id("t"), Some(vec![0, 0]));
    assert_eq!(document.get_element_by_id("b"), Some(vec![1]));
    assert_eq!(document.get_element_by_id("x"), Some(vec![1, 0, 0]));
    assert_eq!(document.get_element_by_id("deep"), Some(vec![1, 1, 0]));
}

#[test]
fn finds_nothing_under_an_unknown_id() {
    let document = page();
    assert_eq!(document.get_element_by_id("main-container"), None);
    assert_eq!(document.get_element_by_id(""), None);
    assert_eq!(document.get_element_by_id("T"), None);
}

#[test]
fn an_element_without_id_is_not_found_under_the_empty_id() {
    let document = Document::new(element("html", None, vec![element("p", Some(""), Vec::new())]));
    assert_eq!(document.get_element_by_id(""), Some(vec![0]));
}

#[test]
fn a_handle_leads_to_its_element() {
    let document = page();
    assert_eq!(document.element(&Vec::new()).map(|e| e.tag.as_str()), Some("html"));
    assert_eq!(document.element(&vec![1, 1]).map(|e| e.tag.as_str()), Some("div"));
    assert_eq!(document.element(&vec![1, 1, 0]).map(|e| e.tag.as_str()), Some("p"));
    assert_eq!(document.element(&vec![2]), None);
    assert_eq!(document.element(&vec![1, 1, 0, 0]), None);
    assert_eq!(document.element(&vec![0, 5, 0]), None);
}

#[test]
fn append_child_appends_below_the_handle() {
    let mut document = page();
    assert_eq!(document.append_child(&vec![1, 1], Element::new("span")), Ok(1));
    assert_eq!(document.append_child(&vec![1, 1], Element::new("em")), Ok(2));
    assert_eq!(document.append_child(&vec![1, 1, 1], Element::new("b")), Ok(0));
    assert_eq!(document.append_child(&Vec::new(), Element::new("footer")), Ok(2));

    let mut expected = page();
    let mut span = Element::new("span");
    span.children.push(Element::new("b"));
    expected.root.children[1].children[1].children.push(span);
    expected.root.children[1].children[1].children.push(Element::new("em"));
    expected.root.children.push(Element::new("footer"));
    assert_eq!(document, expected);
}

#[test]
fn append_child_hands_the_child_back_where_nothing_is() {
    let mut document = page();
    let mut child = Element::new("span");
    child.set_raw_markup("kept");
    let mut same = Element::new("span");
    same.set_raw_markup("kept");
    assert_eq!(document.append_child(&vec![1, 3], child), Err(same));
    assert_eq!(document.append_child(&vec![0, 0, 0], Element::new("p")), Err(Element::new("p")));
    assert_eq!(document, page());
}

#[test]
fn handles_stay_good_after_appending() {
    let mut document = page();
    let handle = document.get_element_by_id("deep").unwrap();
    document.append_child(&vec![1], Element::new("aside")).unwrap();
    document.append_child(&vec![1, 1], Element::new("span")).unwrap();
    document.append_child(&handle, Element::new("b")).unwrap();
    assert_eq!(document.get_element_by_id("deep"), Some(handle.clone()));
    assert_eq!(document.element(&handle).unwrap().children, vec![Element::new("b")]);
}
