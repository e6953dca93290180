use snitch::{
    fetch_plan, reply_error, request_line, selector_depth, FetchPlan, Fetched, GopherItem,
    GopherURL, Menu, PageResult, Spider,
};

fn url(s: &str) -> GopherURL {
    GopherURL::parse(s).unwrap()
}

fn page(u: &str, links: &[&str]) -> PageResult {
    PageResult {
        url: url(u),
        text: Some(String::from("t")),
        links: Some(links.iter().map(|l| url(l)).collect()),
    }
}

#[test]
fn seeds_are_deduplicated() {
    let mut s = Spider::new();
    let seeds = vec![
        String::from("gopher://a/1"),
        String::from(""),
        String::from("gopher://a:70/1"),
        String::from("b"),
    ];
    let out = s.seed(&seeds);
    assert_eq!(out.len(), 2);
    assert_eq!(out[0].host, "a");
    assert_eq!(out[1].host, "b");
    assert_eq!(s.visited_count(), 2);
    assert!(s.seed(&seeds).is_empty());
}

#[test]
fn links_are_sent_once() {
    let mut s = Spider::new();
    s.seed(&vec![String::from("gopher://root")]);
    let first = s.on_page(&page("gopher://root", &["x/0a", "y/0b", "x/0a", "root"]));
    let hosts: Vec<&str> = first.iter().map(|u| u.host.as_str()).collect();
    assert_eq!(hosts, vec!["x", "y"]);
    let second = s.on_page(&page("gopher://x/1m", &["y/0b", "z/0c", "x/0a"]));
    assert_eq!(second.len(), 1);
    assert_eq!(second[0].host, "z");
    assert!(s.is_visited(&url("y/0b")));
    assert!(!s.is_visited(&url("y/0other")));
    assert_eq!(s.visited_count(), 4);
}

#[test]
fn same_host_different_type_is_distinct() {
    let mut s = Spider::new();
    let out = s.on_page(&page("r", &["h/0sel", "h/1sel", "h:71/0sel"]));
    assert_eq!(out.len(), 3);
}

#[test]
fn deep_selector_is_not_followed() {
    let deep = format!("h/1{}", "/".repeat(50));
    let mut s = Spider::new();
    let out = s.on_page(&page(&deep, &["x/0a"]));
    assert!(out.is_empty());
    assert_eq!(s.visited_count(), 0);
    let shallow = format!("h/1{}", "/".repeat(49));
    assert_eq!(s.on_page(&page(&shallow, &["x/0a"])).len(), 1);
}

#[test]
fn page_without_links_adds_nothing() {
    let mut s = Spider::new();
    let p = PageResult { url: url("h/0doc"), text: None, links: None };
    assert!(s.on_page(&p).is_empty());
}

#[test]
fn counts_slashes() {
    assert_eq!(selector_depth(""), 0);
    assert_eq!(selector_depth("/a/b/c"), 3);
    assert_eq!(selector_depth("no slashes"), 0);
}

#[test]
fn plans_by_type() {
    assert_eq!(fetch_plan(GopherItem::TextFile), FetchPlan::Text);
    assert_eq!(fetch_plan(GopherItem::Submenu), FetchPlan::Menu);
    assert_eq!(fetch_plan(GopherItem::ImageFile), FetchPlan::Skip);
    assert_eq!(fetch_plan(GopherItem::Info), FetchPlan::Skip);
}

#[test]
fn request_lines() {
    assert_eq!(request_line("/sel", None), "/sel\r\n");
    assert_eq!(request_line("/find", Some("gopher")), "/find\tgopher\r\n");
    assert_eq!(request_line("", None), "\r\n");
}

#[test]
fn error_reply_is_detected() {
    let r = reply_error(b"3Not found\t\terror.host\t1\r\n.\r\n");
    assert_eq!(r, Some(String::from("Not found")));
    assert_eq!(reply_error(b"Just some text"), None);
    assert_eq!(reply_error(b"1Dir\t/d\th\t70\r\n"), None);
    assert_eq!(reply_error(&[0x33, 0xff, 0x09, 0x09, 0x09]), None);
    assert_eq!(reply_error(b""), None);
}

#[test]
fn page_from_text() {
    let u = url("h/0doc");
    let p = PageResult::from_fetched(&u, Fetched::Text(String::from("body")));
    assert_eq!(p.url, u);
    assert_eq!(p.text, Some(String::from("body")));
    assert!(p.links.is_none());
}

#[test]
fn page_from_menu() {
    let u = url("h");
    let m = Menu::from_lines(&vec![
        String::from("iHello\t\th\t1"),
        String::from("0Doc\t/doc\th\t70"),
        String::from("1Dir\t/dir\tother\t71"),
    ]);
    let p = PageResult::from_fetched(&u, Fetched::Menu(m));
    assert_eq!(p.text, Some(String::from("Hello\nDoc\nDir")));
    let links = p.links.unwrap();
    assert_eq!(links.len(), 2);
    assert_eq!(links[0].to_string(), "gopher://h:70/0/doc");
    assert_eq!(links[1].to_string(), "gopher://other:71/1/dir");
}

#[test]
fn page_not_fetched() {
    let p = PageResult::from_fetched(&url("h/Ipic"), Fetched::NotFetched);
    assert!(p.text.is_none());
    assert!(p.links.is_none());
}

#[test]
fn failed_fetch_does_not_stop_the_next() {
    let mut s = Spider::new();
    let seeds = s.seed(&vec![String::from("a/0x"), String::from("b/0y")]);
    let failed = reply_error(b"3Gone\t\terror.host\t1\r\n");
    assert!(failed.is_some());
    let next = PageResult::from_fetched(&seeds[1], Fetched::Text(String::from("ok")));
    assert!(s.on_page(&next).is_empty());
    assert_eq!(next.text, Some(String::from("ok")));
}

#[test]
fn many_links_each_sent_once() {
    let mut s = Spider::new();
    let texts: Vec<String> = (0..2000).map(|i| format!("h{}/0sel{}", i % 700, i % 900)).collect();
    let links: Vec<GopherURL> = texts.iter().map(|t| url(t)).collect();
    let p = PageResult { url: url("root"), text: None, links: Some(links.clone()) };
    let out = s.on_page(&p);
    let mut expected: Vec<String> = Vec::new();
    for t in &texts {
        let c = url(t).to_string();
        if !expected.contains(&c) {
            expected.push(c);
        }
    }
    let got: Vec<String> = out.iter().map(|u| u.to_string()).collect();
    assert_eq!(got, expected);
    assert_eq!(s.visited_count(), expected.len());
    assert!(s.on_page(&p).is_empty());
    for l in &links {
        assert!(s.is_visited(l));
    }
}
