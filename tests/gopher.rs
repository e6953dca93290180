use snitch::{DirEntry, GopherItem, GopherURL, Menu, ParseError};

#[test]
fn parsing_entries() {
    let mut e = DirEntry::parse("1Test entry\t/test\texample.com\t70\r\n");
    assert_eq!(e.label, "Test entry");
    assert_eq!(e.item_type, GopherItem::Submenu);
    assert_eq!(e.url.unwrap().host, "example.com");
    e = DirEntry::parse("0test2	selector	1.1.1.1	70\r\n");
    assert_eq!(e.label, "test2");
    assert_eq!(e.item_type, GopherItem::TextFile);
    let url = e.url.unwrap();
    assert_eq!(url.host, "1.1.1.1");
    assert_eq!(url.selector, "selector");
    assert_eq!(url.gopher_type, GopherItem::TextFile);
}

#[test]
fn parsing_urls() {
    let mut u = GopherURL::parse("gopher://example.com/0/path/to/document").unwrap();
    assert_eq!(u.gopher_type, GopherItem::TextFile);
    assert_eq!(u.host, "example.com");
    assert_eq!(u.port, 70);
    assert_eq!(u.selector, "/path/to/document");
    assert_eq!(u.to_string(), "gopher://example.com:70/0/path/to/document");

    u = GopherURL::parse("gopher://example2.com:71").unwrap();
    assert_eq!(u.gopher_type, GopherItem::Submenu);
    assert_eq!(u.host, "example2.com");
    assert_eq!(u.port, 71);
    assert_eq!(u.selector, "");
    assert_eq!(u.to_string(), "gopher://example2.com:71");

    u = GopherURL::parse("gopher://khzae.net:70/</music/khzae/khzae.ogg").unwrap();
    assert_eq!(u.gopher_type, GopherItem::SoundFile);
    assert_eq!(u.host, "khzae.net");
    assert_eq!(u.port, 70);

    u = GopherURL::new("1.1.1.1", "70", &GopherItem::TextFile, "some-selector");
    assert_eq!(u.to_string(), "gopher://1.1.1.1:70/0some-selector");
}

#[test]
fn url_without_scheme() {
    let u = GopherURL::parse("example.com:7070/1/dir").unwrap();
    assert_eq!(u.host, "example.com");
    assert_eq!(u.port, 7070);
    assert_eq!(u.gopher_type, GopherItem::Submenu);
    assert_eq!(u.selector, "/dir");
}

#[test]
fn url_missing_host_is_an_error() {
    assert_eq!(GopherURL::parse("").unwrap_err(), ParseError::MissingHost);
    assert_eq!(GopherURL::parse("gopher://").unwrap_err(), ParseError::MissingHost);
    assert_eq!(GopherURL::parse("gopher://:70/0x").unwrap_err(), ParseError::MissingHost);
    assert_eq!(GopherURL::parse("/0selector").unwrap_err(), ParseError::MissingHost);
}

#[test]
fn url_bad_port_falls_back_to_default() {
    assert_eq!(GopherURL::parse("h:70000").unwrap().port, 70);
    assert_eq!(GopherURL::parse("h:65535").unwrap().port, 65535);
    assert_eq!(GopherURL::parse("h:0").unwrap().port, 0);
    assert_eq!(GopherURL::parse("h:abc/0x").unwrap().port, 70);
    assert_eq!(GopherURL::parse("h:").unwrap().port, 70);
    assert_eq!(GopherURL::parse("h:007").unwrap().port, 7);
    assert_eq!(GopherURL::parse("h:99999999999999999999").unwrap().port, 70);
}

#[test]
fn url_type_and_selector() {
    let u = GopherURL::parse("h/").unwrap();
    assert_eq!(u.gopher_type, GopherItem::Submenu);
    assert_eq!(u.selector, "");
    let u = GopherURL::parse("h/0").unwrap();
    assert_eq!(u.gopher_type, GopherItem::TextFile);
    assert_eq!(u.selector, "");
    let u = GopherURL::parse("h/Zodd").unwrap();
    assert_eq!(u.gopher_type, GopherItem::Unknown);
    assert_eq!(u.selector, "odd");
    assert_eq!(u.to_string(), "gopher://h:70/?odd");
}

#[test]
fn canonical_form_is_a_fixed_point() {
    for s in [
        "gopher://example.com/0/path/to/document",
        "example2.com:71",
        "h:abc/9bin",
        "gopher://h/Zodd",
        "h/0",
        "host:00071/1/a/b",
    ] {
        let once = GopherURL::parse(s).unwrap();
        let text = once.to_string();
        let twice = GopherURL::parse(&text).unwrap();
        assert_eq!(twice.to_string(), text);
        if !once.selector.is_empty() || once.gopher_type == GopherItem::Submenu {
            assert_eq!(twice, once);
        }
    }
}

#[test]
fn empty_selector_drops_the_type() {
    let u = GopherURL::parse("gopher://h/0").unwrap();
    let again = GopherURL::parse(&u.to_string()).unwrap();
    assert_eq!(again.gopher_type, GopherItem::Submenu);
    assert_ne!(again, u);
}

#[test]
fn item_codes_round_trip() {
    for c in "0123456789+gIT:;<dhipsrPX".chars() {
        let t = GopherItem::from_char(c);
        assert_ne!(t, GopherItem::Unknown);
        assert_eq!(t.to_char(), c);
        assert_eq!(GopherItem::from(c), t);
    }
    assert_eq!(GopherItem::from_char('?'), GopherItem::Unknown);
    assert_eq!(GopherItem::from_char('z'), GopherItem::Unknown);
    assert_eq!(GopherItem::Unknown.to_char(), '?');
}

#[test]
fn entry_with_too_few_fields_is_invalid() {
    let e = DirEntry::parse("1label\tselector\thost");
    assert_eq!(e.item_type, GopherItem::Unknown);
    assert_eq!(e.label, "");
    assert!(e.url.is_none());
    let e = DirEntry::parse("\tselector\thost\t70");
    assert_eq!(e.item_type, GopherItem::Unknown);
    assert!(e.url.is_none());
}

#[test]
fn entry_fields_and_extra_fields() {
    let e = DirEntry::parse("7Search\t/find\tsearch.example\t7071\t+");
    assert_eq!(e.item_type, GopherItem::FullTextSearch);
    assert_eq!(e.label, "Search");
    let u = e.url.unwrap();
    assert_eq!(u.port, 7071);
    assert_eq!(u.host, "search.example");
    assert_eq!(u.selector, "/find");
    assert_eq!(u.gopher_type, GopherItem::FullTextSearch);
}

#[test]
fn info_entry_has_no_address() {
    let e = DirEntry::parse("iWelcome\t\terror.host\t1");
    assert_eq!(e.item_type, GopherItem::Info);
    assert_eq!(e.label, "Welcome");
    assert!(e.url.is_none());
    let n = DirEntry::new(GopherItem::Info, "x", "s", "h", "70");
    assert!(n.url.is_none());
    let m = DirEntry::new(GopherItem::BinaryFile, "x", "s", "h", "71");
    assert_eq!(m.url.unwrap().port, 71);
}

fn lines(ls: &[&str]) -> Vec<String> {
    ls.iter().map(|s| s.to_string()).collect()
}

#[test]
fn menu_merges_info_lines() {
    let m = Menu::from_lines(&lines(&[
        "i /\\_/\\\t\terror.host\t1",
        "i( o.o )\t\terror.host\t1",
        "1Next\t/next\thost\t70",
    ]));
    assert_eq!(m.items.len(), 2);
    assert_eq!(m.items[0].item_type, GopherItem::Info);
    assert_eq!(m.items[0].label, " /\\_/\\\n( o.o )");
    assert!(m.items[0].url.is_none());
    assert_eq!(m.items[1].label, "Next");
}

#[test]
fn menu_stops_at_terminator_and_drops_bad_lines() {
    let m = Menu::from_lines(&lines(&[
        "0Doc\t/doc\thost\t70",
        "garbage line",
        "zOdd\t/odd\thost\t70",
        "iA\t\th\t1",
        "1Dir\t/dir\thost\t70",
        "iB\t\th\t1",
        ".",
        "1After\t/after\thost\t70",
    ]));
    let labels: Vec<&str> = m.items.iter().map(|e| e.label.as_str()).collect();
    assert_eq!(labels, vec!["Doc", "A", "Dir", "B"]);
}

#[test]
fn empty_menu() {
    assert!(Menu::from_lines(&Vec::new()).items.is_empty());
    assert!(Menu::from_lines(&lines(&["."])).items.is_empty());
}

#[test]
fn port_with_plus_sign() {
    assert_eq!(GopherURL::new("h", "+71", &GopherItem::TextFile, "s").port, 71);
    assert_eq!(GopherURL::new("h", "+", &GopherItem::TextFile, "s").port, 70);
    assert_eq!(GopherURL::new("h", "++71", &GopherItem::TextFile, "s").port, 70);
    assert_eq!(GopherURL::new("h", "-71", &GopherItem::TextFile, "s").port, 70);
    let e = DirEntry::new(GopherItem::Submenu, "x", "s", "h", "+71");
    assert_eq!(e.url.unwrap().port, 71);
    assert_eq!(GopherURL::parse("h:+71/0doc").unwrap().port, 71);
}

#[test]
fn entry_port_ends_at_line_end() {
    let e = DirEntry::parse("1x\ts\th\t71\r\n");
    let u = e.url.unwrap();
    assert_eq!(u.port, 71);
    assert_eq!(u.host, "h");
    assert_eq!(u.selector, "s");
    assert_eq!(DirEntry::parse("1x\ts\th\t72\n").url.unwrap().port, 72);
    assert_eq!(DirEntry::parse("1x\ts\th\t73\r").url.unwrap().port, 73);
    assert_eq!(DirEntry::parse("1x\ts\th\t\r\n").url.unwrap().port, 70);
}

#[test]
fn menu_merges_a_run_of_info_lines() {
    let m = Menu::from_lines(&lines(&[
        "1Top\t/top\thost\t70",
        "ia\t\th\t1",
        "ib\t\th\t1",
        "ic\t\th\t1",
        "0Doc\t/doc\thost\t70",
        "id\t\th\t1",
    ]));
    let labels: Vec<&str> = m.items.iter().map(|e| e.label.as_str()).collect();
    assert_eq!(labels, vec!["Top", "a\nb\nc", "Doc", "d"]);
}

#[test]
fn end_line() {
    assert!(Menu::is_end_line("."));
    assert!(!Menu::is_end_line(".."));
    assert!(!Menu::is_end_line(""));
    assert!(!Menu::is_end_line(". "));
}
