//! Clickable text that looks like a hyperlink, and what a click on it asks
//! for.

use vstd::prelude::*;
use vstd::std_specs::convert::FromSpecImpl;
use vstd::string::*;

verus! {

/// The text that a widget shows.
pub struct WidgetText {
    pub text: String,
}

/// The text `text`, as it is.
impl From<String> for WidgetText {
    fn from(text: String) -> (widget_text: WidgetText) {
        WidgetText { text }
    }
}

impl FromSpecImpl<String> for WidgetText {
    open spec fn obeys_from_spec() -> bool {
        true
    }

    open spec fn from_spec(text: String) -> WidgetText {
        WidgetText { text }
    }
}

/// A string is known by its characters only, so no spec function can name
/// the text that [`From::from`] makes of a `&str`: its own contract says
/// which characters the text has.
impl<'a> FromSpecImpl<&'a str> for WidgetText {
    open spec fn obeys_from_spec() -> bool {
        false
    }

    open spec fn from_spec(text: &'a str) -> WidgetText {
        arbitrary()
    }
}

/// The text with the characters of `text`.
impl<'a> From<&'a str> for WidgetText {
    fn from(text: &'a str) -> (widget_text: WidgetText)
        ensures
            widget_text.text@ == text@,
    {
        WidgetText { text: String::from_str(text) }
    }
}

/// Clickable text, that looks like a hyperlink.
///
/// To link to a web page, use [`Hyperlink`].
#[must_use]
pub struct Link {
    text: WidgetText,
}

impl View for Link {
    type V = WidgetText;

    /// The text of the link.
    closed spec fn view(&self) -> WidgetText {
        self.text
    }
}

/// How a [`Link`] is to be shown, given how the pointer and the focus stand
/// to it.
#[derive(Clone, Copy, Debug, PartialEq, Eq, Structural)]
pub struct LinkLook {
    /// The text is underlined.
    pub underline: bool,
    /// The text can be selected, so it is painted through the text selection.
    pub selectable: bool,
    /// The pointer becomes a pointing hand.
    pub pointing_hand: bool,
}

impl Link {
    /// A link that shows `text`.
    pub fn new<T: Into<WidgetText>>(text: T) -> (link: Link)
        ensures
            call_ensures(T::into, (text,), link@),
    {
        Link { text: text.into() }
    }

    /// The text that the link shows.
    pub fn label(&self) -> (label: &str)
        ensures
            label@ == self@.text@,
    {
        self.text.text.as_str()
    }

    /// How the link is to be shown; `None` where it is not visible, so that
    /// nothing is painted. It is underlined while the pointer is over it or
    /// it has the focus, and the pointer is a pointing hand while over it.
    pub fn look(visible: bool, hovered: bool, has_focus: bool, selectable_labels: bool) -> (look:
        Option<LinkLook>)
        ensures
            look == (if visible {
                Some(
                    LinkLook {
                        underline: hovered || has_focus,
                        selectable: selectable_labels,
                        pointing_hand: hovered,
                    },
                )
            } else {
                None::<LinkLook>
            }),
    {
        if visible {
            Some(
                LinkLook {
                    underline: hovered || has_focus,
                    selectable: selectable_labels,
                    pointing_hand: hovered,
                },
            )
        } else {
            None
        }
    }
}

/// A request to open an address.
pub struct OpenUrl {
    pub url: String,
    /// Whether to open it in a new tab rather than in place of the page.
    pub new_tab: bool,
}

/// A clickable hyperlink, such as one to "https://github.com/emilk/egui".
#[must_use]
pub struct Hyperlink {
    url: String,
    text: WidgetText,
    new_tab: bool,
}

/// A [`Hyperlink`] as the contracts see it.
pub struct HyperlinkView {
    /// The address that the hyperlink leads to.
    pub url: Seq<char>,
    /// The text that the hyperlink shows.
    pub text: WidgetText,
    /// Whether a plain click opens the address in a new tab.
    pub new_tab: bool,
}

impl View for Hyperlink {
    type V = HyperlinkView;

    closed spec fn view(&self) -> HyperlinkView {
        HyperlinkView { url: self.url@, text: self.text, new_tab: self.new_tab }
    }
}

impl Hyperlink {
    /// A hyperlink to `url` that shows the address itself.
    pub fn new(url: &str) -> (link: Hyperlink)
        ensures
            link@.url == url@,
            link@.text.text@ == url@,
            !link@.new_tab,
    {
        let url = String::from_str(url);
        Hyperlink { url: url.clone(), text: url.into(), new_tab: false }
    }

    /// A hyperlink to `url` that shows `text`.
    pub fn from_label_and_url<T: Into<WidgetText>>(text: T, url: &str) -> (link: Hyperlink)
        ensures
            link@.url == url@,
            call_ensures(T::into, (text,), link@.text),
            !link@.new_tab,
    {
        Hyperlink { url: String::from_str(url), text: text.into(), new_tab: false }
    }

    /// Sets whether a plain click opens the address in a new tab.
    pub fn open_in_new_tab(self, new_tab: bool) -> (link: Hyperlink)
        ensures
            link@ == (HyperlinkView { new_tab, ..self@ }),
    {
        Hyperlink { url: self.url, text: self.text, new_tab }
    }

    /// The address that the hyperlink leads to.
    pub fn url(&self) -> (url: &str)
        ensures
            url@ == self@.url,
    {
        self.url.as_str()
    }

    /// The text that the hyperlink shows.
    pub fn label(&self) -> (label: &str)
        ensures
            label@ == self@.text.text@,
    {
        self.text.text.as_str()
    }

    /// What a click asks for. A click that asks for the background opens the
    /// address in a new tab; any other click opens it as
    /// [`Hyperlink::open_in_new_tab`] has set; no click asks for nothing.
    pub fn open_request(&self, clicked_with_open_in_background: bool, clicked: bool) -> (request:
        Option<OpenUrl>)
        ensures
            request is Some <==> clicked_with_open_in_background || clicked,
            request matches Some(open) ==> open.url@ == self@.url && open.new_tab == (
            clicked_with_open_in_background || self@.new_tab),
    {
        if clicked_with_open_in_background {
            Some(OpenUrl { url: self.url.clone(), new_tab: true })
        } else if clicked {
            Some(OpenUrl { url: self.url.clone(), new_tab: self.new_tab })
        } else {
            None
        }
    }
}

} // verus!
