use tampio::html::Html;

#[test]
fn elements_render_with_attributes_and_text() {
    let div = Html::new("div").with_class("a").with_text("x<y & z>w");
    assert_eq!(div.render(), "<div class=\"a\">x&lt;y &amp; z&gt;w</div>");
    assert_eq!(Html::div_with_class("c").render(), "<div class=\"c\"></div>");
    assert_eq!(
        Html::div_with_class_and_text("c", "t".to_string()).render(),
        "<div class=\"c\">t</div>"
    );
}

#[test]
fn raw_text_is_not_escaped() {
    let p = Html::new("p").with_raw("<b>x</b>");
    assert_eq!(p.render(), "<p><b>x</b></p>");
    let q = Html::new("p").with_string("<b>".to_string());
    assert_eq!(q.render(), "<p>&lt;b&gt;</p>");
}

#[test]
fn attributes_are_set_and_pushed() {
    let mut e = Html::new("a");
    e.set_attribute("href", "x");
    e.set_attribute("href", "y");
    e.push_attribute("class", "one");
    e.push_attribute("class", "two");
    assert_eq!(e.render(), "<a href=\"y\" class=\"one two\"></a>");
    assert!(e.is_element());
    assert!(!Html::document().is_element());
}

#[test]
fn void_elements_have_no_end_tag() {
    let input = Html::new_void("input").with_attribute("type", "text");
    assert_eq!(input.render(), "<input type=\"text\" />");
    assert_eq!(input.pretty(), "<input type=\"text\" />");
}

#[test]
fn children_are_joined_by_line_feeds() {
    let mut list = Html::new("ul");
    list.push_child(Html::new("li").with_text("a"));
    list.push_child_div_with_class_and_text("x", "b".to_string());
    assert_eq!(list.render(), "<ul><li>a</li>\n<div class=\"x\">b</div></ul>");
}

#[test]
fn pretty_indents_by_level() {
    let tree = Html::new("div").with_child(Html::new("p").with_text("hi")).with_child(Html::new("br"));
    assert_eq!(tree.pretty(), "<div>\n  <p>\n    hi\n  </p>\n  <br></br>\n</div>");
}

#[test]
fn documents_hold_top_level_nodes() {
    let doc = Html::document().with_raw("<!DOCTYPE html>").with_child(Html::new("html"));
    assert_eq!(doc.render(), "<!DOCTYPE html>\n<html></html>");
    assert_eq!(doc.pretty(), "<!DOCTYPE html>\n<html></html>");
    let mut text = Html::document();
    text.push_text("a&b".to_string());
    text.push_raw("c");
    assert_eq!(text.render(), "a&amp;b\nc");
}

#[test]
fn set_class_consumes_the_element() {
    Html::new("div").set_class("x");
}
