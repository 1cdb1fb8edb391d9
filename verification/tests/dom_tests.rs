use scraperr::dom::Document;
use scraperr::selector::{parse_selector, parse_xpath, Extraction, SelectorKind};

const PAGE: &str = "<html><head></head><body><p id=\"a\">x <b>y</b></p><p>z</p></body></html>";

#[test]
fn the_tree_has_its_elements_in_document_order() {
    let doc = Document::parse_document(PAGE);
    let root = doc.root_element().unwrap();
    assert!(doc.matches_tag(root, &"html".to_string()));
    assert!(doc.matches_tag(root, &"*".to_string()));
    let kids = doc.element_children(root);
    assert_eq!(kids.len(), 2);
    assert!(doc.matches_tag(kids[0], &"head".to_string()));
    assert!(doc.matches_tag(kids[1], &"body".to_string()));
    assert_eq!(doc.initial_nodes(), vec![0]);
    let below = doc.collect_descendants(kids[1]);
    assert_eq!(below.len(), 3);
    assert!(doc.matches_tag(below[0], &"p".to_string()));
    assert!(doc.matches_tag(below[1], &"b".to_string()));
    assert!(doc.matches_tag(below[2], &"p".to_string()));
    assert!(doc.len() > below.len());
    assert!(doc.element_children(doc.len()).is_empty());
}

#[test]
fn values_of_an_element() {
    let doc = Document::parse_document(PAGE);
    let steps = match parse_xpath("/html/body/p[@id='a']") {
        Some((SelectorKind::Xpath(s), _)) => s,
        _ => panic!(),
    };
    let found = doc.xpath_select(&steps);
    assert_eq!(found.len(), 1);
    let p = found[0];
    assert_eq!(doc.attr(p, "id"), Some("a".to_string()));
    assert_eq!(doc.attr(p, "class"), None);
    assert_eq!(doc.extract_value(p, &Extraction::Html), "x <b>y</b>");
    assert_eq!(doc.extract_value(p, &Extraction::Text), "x  y");
    assert_eq!(doc.extract_value(p, &Extraction::Attribute("id".to_string())), "a");
    assert_eq!(doc.extract_value(p, &Extraction::Attribute("title".to_string())), "");
    assert_eq!(doc.outer_html(p), "<p id=\"a\">x <b>y</b></p>");
}

#[test]
fn absolute_paths_start_at_the_document() {
    let doc = Document::parse_document(PAGE);
    let steps = match parse_xpath("/html/body/p") {
        Some((SelectorKind::Xpath(s), _)) => s,
        _ => panic!(),
    };
    let found = doc.xpath_select(&steps);
    assert_eq!(found.len(), 2);
    let steps = match parse_xpath("/html") {
        Some((SelectorKind::Xpath(s), _)) => s,
        _ => panic!(),
    };
    let found = doc.xpath_select(&steps);
    assert_eq!(found, vec![doc.root_element().unwrap()]);
    let steps = match parse_xpath("/body") {
        Some((SelectorKind::Xpath(s), _)) => s,
        _ => panic!(),
    };
    assert!(doc.xpath_select(&steps).is_empty());
    let steps = match parse_xpath("//p[2]") {
        Some((SelectorKind::Xpath(s), _)) => s,
        _ => panic!(),
    };
    let found = doc.xpath_select(&steps);
    assert_eq!(found.len(), 1);
    assert_eq!(doc.extract_value(found[0], &Extraction::Text), "z");
    let steps = match parse_xpath("//p[3]") {
        Some((SelectorKind::Xpath(s), _)) => s,
        _ => panic!(),
    };
    assert!(doc.xpath_select(&steps).is_empty());
}

#[test]
fn css_selection_in_document_order() {
    let doc = Document::parse_document(PAGE);
    let sel = match parse_selector("body p") {
        Some((SelectorKind::Css(c), _)) => c,
        _ => panic!(),
    };
    let found = doc.select_css(&sel);
    assert_eq!(found.len(), 2);
    assert!(found[0] < found[1]);
    assert_eq!(doc.extract_value(found[1], &Extraction::Text), "z");
}

#[test]
fn fragments_parse_too() {
    let doc = Document::parse_fragment("<li>a</li><li>b</li>");
    let sel = match parse_selector("li") {
        Some((SelectorKind::Css(c), _)) => c,
        _ => panic!(),
    };
    let found = doc.select_css(&sel);
    assert_eq!(found.len(), 2);
    assert_eq!(doc.extract_value(found[0], &Extraction::Text), "a");
}
