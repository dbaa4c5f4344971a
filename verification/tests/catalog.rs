use web_api_scraper::extract::{Api, Category, ExtractError};
use web_api_scraper::dom::{join_text, DomNode};
use web_api_scraper::{extract_categories, render};

fn text(s: &str) -> DomNode {
    DomNode::Text(s.to_string())
}

fn elem(name: &str, attrs: &[(&str, &str)], children: Vec<DomNode>) -> DomNode {
    DomNode::Element {
        name: name.to_string(),
        attrs: attrs.iter().map(|(k, v)| (k.to_string(), v.to_string())).collect(),
        children,
    }
}

#[test]
fn storage_scenario() {
    let html = "<section id=\"contentCols\"><dl><dt>Storage</dt>\
                <dd><a href=\"/storage\">LocalStorage</a></dd></dl></section>";
    let cats = extract_categories(html).unwrap();
    assert_eq!(cats.len(), 1);
    assert_eq!(cats[0].title, "Storage");
    assert_eq!(cats[0].items.len(), 1);
    assert_eq!(cats[0].items[0].name().as_str(), "LocalStorage");
    assert_eq!(cats[0].items[0].spec_link().as_str(), "/storage");
    let out = render(&cats);
    let mut lines = out.lines();
    assert_eq!(lines.next(), Some("# Storage"));
    assert_eq!(lines.next(), Some("  - [LocalStorage](/storage)"));
}

#[test]
fn various_other_is_filtered() {
    let html = "<section id=\"contentCols\">\
                <dl><dt>Graphics</dt><dd><a href=\"/canvas\">Canvas</a></dd></dl>\
                <dl><dt>Various other</dt><dd><a href=\"/misc\">Misc</a></dd></dl>\
                <dl><dt>Audio</dt><dd><a href=\"/audio\">WebAudio</a></dd></dl>\
                </section>";
    let cats = extract_categories(html).unwrap();
    assert_eq!(cats.len(), 2);
    assert_eq!(cats[0].title, "Graphics");
    assert_eq!(cats[1].title, "Audio");
}

#[test]
fn various_other_filter_is_case_sensitive() {
    let html = "<section id=\"contentCols\">\
                <dl><dt>various other</dt><dd><a href=\"/misc\">Misc</a></dd></dl>\
                </section>";
    let cats = extract_categories(html).unwrap();
    assert_eq!(cats.len(), 1);
    assert_eq!(cats[0].title, "various other");
}

#[test]
fn zero_lists_give_empty_catalog() {
    let html = "<section id=\"contentCols\"><p>nothing here</p></section>";
    let cats = extract_categories(html).unwrap();
    assert!(cats.is_empty());
}

#[test]
fn missing_region_is_an_error() {
    let html = "<section id=\"other\"><dl><dt>T</dt></dl></section>";
    assert!(matches!(extract_categories(html), Err(ExtractError::ContentRegionNotFound)));
}

#[test]
fn empty_document_has_no_region() {
    assert!(matches!(extract_categories(""), Err(ExtractError::ContentRegionNotFound)));
}

#[test]
fn missing_title_is_an_error() {
    let html = "<section id=\"contentCols\"><dl>\
                <dd><a href=\"/x\">X</a></dd></dl></section>";
    assert!(matches!(extract_categories(html), Err(ExtractError::MissingCategoryTitle)));
}

#[test]
fn missing_link_is_an_error() {
    let html = "<section id=\"contentCols\"><dl><dt>T</dt>\
                <dd>no link</dd></dl></section>";
    assert!(matches!(extract_categories(html), Err(ExtractError::MissingEntryLink)));
}

#[test]
fn missing_href_is_an_error() {
    let html = "<section id=\"contentCols\"><dl><dt>T</dt>\
                <dd><a>bare</a></dd></dl></section>";
    assert!(matches!(extract_categories(html), Err(ExtractError::MissingSpecHref)));
}

#[test]
fn error_in_filtered_category_still_aborts() {
    let html = "<section id=\"contentCols\">\
                <dl><dt>Various other</dt><dd>no link</dd></dl>\
                <dl><dt>Audio</dt><dd><a href=\"/audio\">WebAudio</a></dd></dl>\
                </section>";
    assert!(matches!(extract_categories(html), Err(ExtractError::MissingEntryLink)));
}

#[test]
fn first_region_wins() {
    let html = "<section id=\"contentCols\"><dl><dt>First</dt></dl></section>\
                <section id=\"contentCols\"><dl><dt>Second</dt></dl></section>";
    let cats = extract_categories(html).unwrap();
    assert_eq!(cats.len(), 1);
    assert_eq!(cats[0].title, "First");
}

#[test]
fn join_text_two_fragments() {
    let el = elem("span", &[], vec![text("Foo"), elem("b", &[], vec![]), text("Bar")]);
    assert_eq!(join_text(&el), "Foo Bar");
}

#[test]
fn join_text_single_fragment() {
    let el = elem("span", &[], vec![text("Foo")]);
    assert_eq!(join_text(&el), "Foo");
}

#[test]
fn join_text_empty_element() {
    let el = elem("span", &[], vec![]);
    assert_eq!(join_text(&el), "");
}

#[test]
fn entry_name_joins_split_text() {
    let html = "<section id=\"contentCols\"><dl><dt>T</dt>\
                <dd><a href=\"/x\">Web<b></b>GL</a></dd></dl></section>";
    let cats = extract_categories(html).unwrap();
    assert_eq!(cats[0].items[0].name().as_str(), "Web GL");
}

#[test]
fn render_exact_text() {
    let cats = vec![
        Category {
            title: "Graphics".to_string(),
            items: vec![
                Api::new("Canvas".to_string(), "/canvas".to_string()),
                Api::new("WebGL".to_string(), "/webgl".to_string()),
            ],
        },
        Category { title: "Empty".to_string(), items: vec![] },
    ];
    let out = render(&cats);
    assert_eq!(
        out,
        "# Graphics\n  - [Canvas](/canvas)\n  - [WebGL](/webgl)\n\n# Empty\n\n"
    );
}
