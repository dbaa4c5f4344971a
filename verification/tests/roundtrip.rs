use web_api_scraper::extract::{Api, Category};
use web_api_scraper::render;

// Mirrors the library's rendered-text grammar: `# ` heads a title line,
// `  - [name](link)` lines follow, a blank line closes each block.
fn reparse(text: &str) -> Option<Vec<(String, Vec<(String, String)>)>> {
    let mut cats: Vec<(String, Vec<(String, String)>)> = Vec::new();
    let mut lines = text.lines().peekable();
    while let Some(first) = lines.next() {
        let title = first.strip_prefix("# ")?;
        let mut items: Vec<(String, String)> = Vec::new();
        loop {
            match lines.peek() {
                Some(l) if l.starts_with("  - [") => {
                    let body = &lines.next().unwrap()[5..];
                    let mark = body.find("](")?;
                    let name = &body[..mark];
                    let rest = &body[mark + 2..];
                    let link = rest.strip_suffix(')')?;
                    items.push((name.to_string(), link.to_string()));
                },
                _ => break,
            }
        }
        if lines.next() != Some("") {
            return None;
        }
        cats.push((title.to_string(), items));
    }
    Some(cats)
}

fn triples(cats: &[(String, Vec<(String, String)>)]) -> Vec<(String, String, String)> {
    let mut out = Vec::new();
    for (title, items) in cats {
        for (name, link) in items {
            out.push((title.clone(), name.clone(), link.clone()));
        }
    }
    out
}

#[test]
fn render_then_reparse_recovers_catalog() {
    let cats = vec![
        Category {
            title: "Graphics".to_string(),
            items: vec![
                Api::new("Canvas 2D".to_string(), "/canvas".to_string()),
                Api::new("WebGL (3D)".to_string(), "https://example.org/webgl?x=1".to_string()),
            ],
        },
        Category { title: "No entries".to_string(), items: vec![] },
        Category {
            title: "Storage".to_string(),
            items: vec![Api::new("LocalStorage".to_string(), "/storage".to_string())],
        },
    ];
    let out = render(&cats);
    let parsed = reparse(&out).unwrap();
    assert_eq!(parsed.len(), 3);
    assert_eq!(parsed[0].0, "Graphics");
    assert_eq!(parsed[1].0, "No entries");
    assert_eq!(parsed[2].0, "Storage");
    let expected = vec![
        ("Graphics".to_string(), "Canvas 2D".to_string(), "/canvas".to_string()),
        (
            "Graphics".to_string(),
            "WebGL (3D)".to_string(),
            "https://example.org/webgl?x=1".to_string(),
        ),
        ("Storage".to_string(), "LocalStorage".to_string(), "/storage".to_string()),
    ];
    assert_eq!(triples(&parsed), expected);
}

#[test]
fn reparse_keeps_link_with_parentheses() {
    let cats = vec![Category {
        title: "T".to_string(),
        items: vec![Api::new("A".to_string(), "/x_(y)".to_string())],
    }];
    let parsed = reparse(&render(&cats)).unwrap();
    assert_eq!(parsed[0].1[0], ("A".to_string(), "/x_(y)".to_string()));
}
