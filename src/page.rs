//! What a worker makes of one address: which request to make, how to read the
//! reply, and the result it hands to the spider.
use vstd::prelude::*;
use vstd::utf8::{valid_utf8, decode_utf8};
use crate::item::GopherItem;
use crate::menu::{DirEntry, EntryView, Menu, parse_entry};
use crate::text::push_char;
use crate::url::{AddressView, GopherURL};

verus! {

/// How a worker treats an address of a given type.
#[derive(Clone, Copy, Debug, PartialEq, Eq, Structural)]
pub enum FetchPlan {
    /// Fetch the document and keep its text.
    Text,
    /// Fetch and parse the menu, keeping its labels and following its links.
    Menu,
    /// Record the address without downloading it.
    Skip,
}

pub open spec fn plan_of(kind: GopherItem) -> FetchPlan {
    match kind {
        GopherItem::TextFile => FetchPlan::Text,
        GopherItem::Submenu => FetchPlan::Menu,
        _ => FetchPlan::Skip,
    }
}

/// The body a worker obtained for an address, by the address's plan.
pub enum Fetched {
    Text(String),
    Menu(Menu),
    NotFetched,
}

/// The outcome of fetching one address.
#[derive(Debug)]
pub struct PageResult {
    pub url: GopherURL,
    pub text: Option<String>,
    pub links: Option<Vec<GopherURL>>,
}

/// The mathematical value of a page result.
pub struct PageView {
    pub url: AddressView,
    pub text: Option<Seq<char>>,
    pub links: Option<Seq<AddressView>>,
}

pub open spec fn urls_view(v: Seq<GopherURL>) -> Seq<AddressView> {
    v.map_values(|u: GopherURL| u@)
}

impl View for PageResult {
    type V = PageView;

    open spec fn view(&self) -> PageView {
        PageView {
            url: self.url@,
            text: match self.text {
                Some(t) => Some(t@),
                None => None,
            },
            links: match self.links {
                Some(l) => Some(urls_view(l@)),
                None => None,
            },
        }
    }
}

/// The labels of a menu's entries, joined by newlines.
pub open spec fn menu_text(entries: Seq<EntryView>) -> Seq<char>
    decreases entries.len(),
{
    if entries.len() == 0 {
        Seq::empty()
    } else if entries.len() == 1 {
        entries[0].label
    } else {
        menu_text(entries.drop_last()) + seq!['\n'] + entries.last().label
    }
}

/// The addresses of a menu's entries, in order; informational entries have none.
pub open spec fn menu_links(entries: Seq<EntryView>) -> Seq<AddressView>
    decreases entries.len(),
{
    if entries.len() == 0 {
        Seq::empty()
    } else {
        let rest = menu_links(entries.drop_last());
        match entries.last().url {
            Some(a) => rest.push(a),
            None => rest,
        }
    }
}

/// The result a worker reports for `url` once it has obtained `body`.
pub open spec fn page_of(url: AddressView, text: Option<Seq<char>>, menu: Option<Seq<EntryView>>) -> PageView {
    match menu {
        Some(m) => PageView { url, text: Some(menu_text(m)), links: Some(menu_links(m)) },
        None => PageView { url, text, links: None },
    }
}

/// The text of a request for `selector`, with a search query where one is given.
pub open spec fn request_text(selector: Seq<char>, query: Option<Seq<char>>) -> Seq<char> {
    match query {
        Some(q) => selector + seq!['\t'] + q + seq!['\r', '\n'],
        None => selector + seq!['\r', '\n'],
    }
}

/// The message of the error entry that a reply starts with, if it starts with one.
pub open spec fn error_in_reply(header: Seq<u8>) -> Option<Seq<char>> {
    if valid_utf8(header) && parse_entry(decode_utf8(header)).kind == GopherItem::Error {
        Some(parse_entry(decode_utf8(header)).label)
    } else {
        None
    }
}

/// Relies on `String::from_utf8`: it succeeds exactly on valid UTF-8 and then
/// holds the decoded characters.
#[verifier::external_body]
fn utf8_to_string(bytes: &[u8]) -> (r: Option<String>)
    ensures
        r is Some <==> valid_utf8(bytes@),
        r is Some ==> r->0@ == decode_utf8(bytes@),
{
    String::from_utf8(bytes.to_vec()).ok()
}

/// How a worker treats an address of type `kind`.
pub fn fetch_plan(kind: GopherItem) -> (r: FetchPlan)
    ensures
        r == plan_of(kind),
{
    match kind {
        GopherItem::TextFile => FetchPlan::Text,
        GopherItem::Submenu => FetchPlan::Menu,
        _ => FetchPlan::Skip,
    }
}

/// The line a client sends to ask for `selector`: the selector, a tab and the
/// query where there is one, then CR LF.
pub fn request_line(selector: &str, query: Option<&str>) -> (r: String)
    ensures
        r@ == request_text(
            selector@,
            match query {
                Some(q) => Some(q@),
                None => None,
            },
        ),
{
    let mut r = String::from_str(selector);
    match query {
        Some(q) => {
            push_char(&mut r, '\t');
            r.append(q);
        },
        None => {},
    }
    push_char(&mut r, '\r');
    push_char(&mut r, '\n');
    r
}

/// The server's message where the first block of a reply reads as a menu
/// entry of type `Error`; `None` where it is not UTF-8 or not such an entry.
pub fn reply_error(header: &[u8]) -> (r: Option<String>)
    ensures
        match r {
            Some(m) => error_in_reply(header@) == Some(m@),
            None => error_in_reply(header@) is None,
        },
{
    match utf8_to_string(header) {
        Some(text) => {
            let e = DirEntry::parse(text.as_str());
            if e.item_type == GopherItem::Error {
                Some(e.label)
            } else {
                None
            }
        },
        None => None,
    }
}

impl PageResult {
    /// The result for `url` once its body has been obtained: a text file keeps
    /// its text; a menu gives its labels joined by newlines and the addresses of
    /// its entries; anything else is recorded with neither.
    pub fn from_fetched(url: &GopherURL, body: Fetched) -> (r: PageResult)
        ensures
            r@ == page_of(
                url@,
                match body {
                    Fetched::Text(t) => Some(t@),
                    _ => None,
                },
                match body {
                    Fetched::Menu(m) => Some(m@),
                    _ => None,
                },
            ),
    {
        match body {
            Fetched::Text(t) => PageResult { url: url.clone(), text: Some(t), links: None },
            Fetched::Menu(m) => {
                let (text, links) = menu_parts(&m);
                PageResult { url: url.clone(), text: Some(text), links: Some(links) }
            },
            Fetched::NotFetched => PageResult { url: url.clone(), text: None, links: None },
        }
    }
}

/// The joined labels and the addresses of a menu.
fn menu_parts(m: &Menu) -> (r: (String, Vec<GopherURL>))
    ensures
        r.0@ == menu_text(m@),
        urls_view(r.1@) == menu_links(m@),
{
    let mut text = String::new();
    let mut links: Vec<GopherURL> = Vec::new();
    let mut i: usize = 0;
    while i < m.items.len()
        invariant
            i <= m.items@.len(),
            text@ == menu_text(m@.subrange(0, i as int)),
            urls_view(links@) == menu_links(m@.subrange(0, i as int)),
        decreases m.items.len() - i,
    {
        let ghost pre = m@.subrange(0, i as int);
        let ghost next = m@.subrange(0, i + 1);
        assert(next.drop_last() =~= pre);
        assert(next.last() == m.items@[i as int]@);
        if i > 0 {
            push_char(&mut text, '\n');
        }
        text.append(m.items[i].label.as_str());
        match &m.items[i].url {
            Some(u) => {
                links.push(u.clone());
            },
            None => {},
        }
        proof {
            if i == 0 {
                assert(pre.len() == 0);
            }
        }
        assert(text@ =~= menu_text(next));
        assert(urls_view(links@) =~= menu_links(next));
        i = i + 1;
    }
    assert(m@.subrange(0, i as int) =~= m@);
    (text, links)
}

} // verus!
