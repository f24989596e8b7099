use paint_layers::hyperlink::{LinkLook, OpenUrl};
use paint_layers::{Hyperlink, Link, WidgetText};

fn request(link: &Hyperlink, in_background: bool, clicked: bool) -> Option<(String, bool)> {
    link.open_request(in_background, clicked).map(|OpenUrl { url, new_tab }| (url, new_tab))
}

#[test]
fn widget_text_from_text() {
    assert_eq!(WidgetText::from("label").text, "label");
    assert_eq!(WidgetText::from(String::from("label")).text, "label");
}

#[test]
fn hyperlink_shows_its_address_by_default() {
    let link = Hyperlink::new("https://example.org");
    assert_eq!(link.label(), "https://example.org");
    assert_eq!(link.url(), "https://example.org");
    assert_eq!(request(&link, false, true), Some((String::from("https://example.org"), false)));
}

#[test]
fn hyperlink_with_a_label() {
    let link = Hyperlink::from_label_and_url("My favorite repo", "https://example.org/repo");
    assert_eq!(link.label(), "My favorite repo");
    assert_eq!(link.url(), "https://example.org/repo");
    assert_eq!(
        request(&link, false, true),
        Some((String::from("https://example.org/repo"), false))
    );
    let link = Hyperlink::from_label_and_url(String::from("owned"), "https://example.org");
    assert_eq!(link.label(), "owned");
}

#[test]
fn click_opens_as_configured() {
    let link = Hyperlink::new("https://example.org").open_in_new_tab(true);
    assert_eq!(request(&link, false, true), Some((String::from("https://example.org"), true)));
    let link = link.open_in_new_tab(false);
    assert_eq!(request(&link, false, true), Some((String::from("https://example.org"), false)));
}

#[test]
fn background_click_always_opens_a_new_tab() {
    let link = Hyperlink::new("https://example.org");
    assert_eq!(request(&link, true, false), Some((String::from("https://example.org"), true)));
    assert_eq!(request(&link, true, true), Some((String::from("https://example.org"), true)));
    let link = link.open_in_new_tab(true);
    assert_eq!(request(&link, true, true), Some((String::from("https://example.org"), true)));
}

#[test]
fn no_click_opens_nothing() {
    let link = Hyperlink::new("https://example.org").open_in_new_tab(true);
    assert_eq!(request(&link, false, false), None);
}

#[test]
fn link_keeps_its_text() {
    assert_eq!(Link::new("Documentation").label(), "Documentation");
    assert_eq!(Link::new(String::from("Documentation")).label(), "Documentation");
}

#[test]
fn link_is_underlined_when_hovered_or_focused() {
    assert_eq!(Link::look(false, true, true, true), None);
    assert_eq!(
        Link::look(true, false, false, false),
        Some(LinkLook { underline: false, selectable: false, pointing_hand: false })
    );
    assert_eq!(
        Link::look(true, true, false, false),
        Some(LinkLook { underline: true, selectable: false, pointing_hand: true })
    );
    assert_eq!(
        Link::look(true, false, true, true),
        Some(LinkLook { underline: true, selectable: true, pointing_hand: false })
    );
    assert_eq!(
        Link::look(true, true, true, true),
        Some(LinkLook { underline: true, selectable: true, pointing_hand: true })
    );
}
