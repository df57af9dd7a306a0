//! The web browser and its scripts.

use mayos::gui::app::AppEvent;
use mayos::gui::browser::history::{Address, History};
use mayos::gui::browser::load::{Answer, Load, Order, Reply, Stage, PICTURE_BYTES, STYLE_BYTES};
use mayos::gui::browser::page::{classify, escape, folder_html, image_list, kept_size, refusal, Content};
use mayos::gui::browser::typed::{read_input, search_url, url_encode, Typed};
use mayos::gui::browser::window::{Browser, Effect, Link};
use mayos::gui::js::asks::{query_result, Grove, Query, Wanted};
use mayos::gui::js::calls::{bytes, cstr, rs_box, scripts, viewport_text, NodeBox};
use mayos::gui::js::dom::{Kind, Node};
use mayos::gui::js::host::{Host, Request, CONSOLE_LIMIT, DOCUMENT_ID};
use mayos::gui::js::libc::{days_from_civil, localtime_r};
use mayos::gui::js::props::{W_ATTR, W_RMATTR, W_STYLE, W_TAG, W_TEXT, W_TYPE, W_VALUE};
use mayos::gui::js::store::{escape as file_escape, load, save, site, storage_file, unescape, Shelf};
use mayos::gui::js::table::{Row, Table};
use mayos::fs::entry::DirEntry;

fn chars(s: &str) -> Vec<char> {
    s.chars().collect()
}

fn text(v: &[char]) -> String {
    v.iter().collect()
}

fn address(t: &str) -> Address {
    Address { text: chars(t), host: chars("h"), about: t.starts_with("about:") }
}

#[test]
fn typed_text_is_an_address_or_a_search() {
    assert!(matches!(read_input(&chars("  ")), Typed::Home));
    assert!(matches!(read_input(&chars("/docs")), Typed::Address { url, .. } if text(&url) == "file:///docs"));
    assert!(matches!(read_input(&chars("example.com")), Typed::Address { .. }));
    assert!(matches!(read_input(&chars("what is e.g. this")), Typed::Search(_)));
    assert_eq!(url_encode("a b&ü"), "a+b%26%C3%BC");
    assert!(text(&search_url(&chars("a b"))).ends_with("a+b"));
}

#[test]
fn pages_are_gone_back_to() {
    let mut h = History::new();
    h.visit(address("http://a/"), true);
    h.visit(address("http://b/"), true);
    assert_eq!(h.go_back().map(|a| text(&a.text)).as_deref(), Some("http://a/"));
    assert_eq!(h.go_forward().map(|a| text(&a.text)).as_deref(), Some("http://b/"));
    assert!(h.go_forward().is_none());
    h.go_back();
    h.visit(address("http://c/"), true);
    assert!(h.go_forward().is_none());
}

#[test]
fn html_is_escaped() {
    assert_eq!(escape("<a href=\"x\">&</a>"), "&lt;a href=&quot;x&quot;&gt;&amp;&lt;/a&gt;");
    let t = text(&folder_html(&chars("/d"), &[DirEntry::virtual_dir("<x>")]));
    assert!(t.contains("<li><a href=\"&lt;x&gt;/\">&lt;x&gt;/</a></li>"));
    assert!(t.contains("\"../\""));
    assert!(!text(&folder_html(&chars("/"), &[])).contains("../"));
}

#[test]
fn answers_are_told_apart() {
    assert_eq!(classify(500, &[], &chars("/"), b"", false), Content::Refused);
    assert_eq!(classify(200, &chars("image/png"), &chars("/"), b"x", false), Content::Picture);
    assert_eq!(classify(200, &chars("text/plain"), &chars("/a.txt"), b"hello", false), Content::Text);
    assert_eq!(classify(200, &chars("text/html"), &chars("/"), b"<p>", false), Content::Page);
    assert_eq!(text(&refusal(404)), "The server answered 404.");
    assert_eq!(kept_size(3200, 100), (1600, 50));
    assert_eq!(kept_size(800, 600), (800, 600));
}

#[test]
fn pictures_are_loaded_once() {
    let v = image_list(&[chars("a"), chars("b"), chars("a"), chars("data:x")]);
    let v: Vec<String> = v.iter().map(|c| text(c)).collect();
    assert_eq!(v, ["a", "b"]);
}

#[test]
fn links_are_followed() {
    let mut b = Browser::new();
    b.event(&AppEvent::Resized { w: 800, h: 600 }, None);
    assert!(matches!(b.navigate(address("http://a/"), true), Effect::Load(_)));
    assert!(b.tab.loading);
    b.page_loaded(address("http://a/"), Some(chars("Title")));
    assert!(!b.tab.loading);
    assert!(text(&b.title()).starts_with("Title"));
    b.set_layout(2000, vec![Link { x: 10, y: 10, w: 50, h: 20, href: chars("/next") }]);
    assert_eq!(b.link_at(20, 46 + 15).map(|l| text(&l)).as_deref(), Some("/next"));
    assert_eq!(b.link_at(200, 46 + 15), None);
    b.page_failed(chars("no such host"));
    assert_eq!(b.error.map(|e| text(&e)).as_deref(), Some("no such host"));
}

// Scripts -------------------------------------------------------------------

fn element(id: u32, tag: &str, children: Vec<Node>) -> Node {
    Node { id, kind: Kind::Element { tag: chars(tag), attrs: Table::new() }, children }
}

fn words(id: u32, t: &str) -> Node {
    Node { id, kind: Kind::Text(chars(t)), children: vec![] }
}

fn page() -> Host {
    let body = element(3, "body", vec![element(4, "p", vec![words(5, "Hello")]), element(6, "div", vec![])]);
    Host::new(element(1, "html", vec![element(2, "head", vec![]), body]), chars("T"))
}

#[test]
fn nodes_know_their_relatives() {
    let h = page();
    assert_eq!(h.rs_children(DOCUMENT_ID), [2, 3]);
    assert_eq!(h.rs_rel(4, 0), Some(3));
    assert_eq!(h.rs_rel(3, 1), Some(4));
    assert_eq!(h.rs_rel(3, 4), Some(6));
    assert_eq!(h.rs_rel(4, 2), Some(6));
    assert_eq!(h.rs_rel(6, 3), Some(4));
    assert_eq!(h.rs_rel(4, 3), None);
    assert_eq!(h.rs_rel(1, 0), Some(DOCUMENT_ID));
    assert_eq!(h.rs_rel(DOCUMENT_ID, 1), Some(1));
    assert_eq!(h.rs_rel(99, 0), None);
}

#[test]
fn nodes_are_moved_and_removed() {
    let mut h = page();
    h.rs_insert(6, 4, None);
    assert_eq!(h.rs_children(6), [4]);
    assert_eq!(h.rs_children(3), [6]);
    assert!(h.dirty);
    h.rs_remove(4);
    assert!(!h.in_doc(4));
    assert!(h.node(4).is_some());
    h.rs_insert(3, 4, Some(6));
    assert_eq!(h.rs_children(3), [4, 6]);
    assert!(h.limbo.is_empty());
    h.rs_remove(1);
    assert!(h.in_doc(1));
}

#[test]
fn a_node_is_not_put_into_itself() {
    let mut h = page();
    h.rs_insert(3, 3, None);
    assert_eq!(h.rs_children(1), [2, 3]);
    // Into what is below it: it leaves the page instead.
    h.rs_insert(4, 3, None);
    assert!(!h.in_doc(3));
    assert!(h.node(4).is_some());
}

#[test]
fn properties_are_written_and_read() {
    let mut h = page();
    let none: Vec<Row> = vec![];
    h.rs_set(6, W_ATTR, chars("class"), Some(chars("big")), vec![], &none, 100);
    h.rs_set(6, W_ATTR, chars("alt"), Some(chars("x")), vec![], &none, 100);
    assert_eq!(h.rs_get(6, W_ATTR, &chars("class"), &[], &none).map(|t| text(&t)).as_deref(), Some("big"));
    assert_eq!(h.rs_get(6, W_ATTR, &[], &[], &none).map(|t| text(&t)).as_deref(), Some("alt\0class"));
    h.rs_set(6, W_RMATTR, chars("class"), None, vec![], &none, 100);
    assert_eq!(h.rs_get(6, W_ATTR, &chars("class"), &[], &none), None);
    h.rs_set(6, W_TEXT, vec![], Some(chars("new")), vec![], &none, 100);
    assert_eq!(h.rs_children(6), [100]);
    assert_eq!(h.rs_get(3, W_TEXT, &[], &[], &none).map(|t| text(&t)).as_deref(), Some("Hellonew"));
    assert_eq!(h.rs_get(4, W_TAG, &[], &[], &none).map(|t| text(&t)).as_deref(), Some("p"));
    assert_eq!(h.rs_get(5, W_TYPE, &[], &[], &none).map(|t| text(&t)).as_deref(), Some("3"));
    assert_eq!(h.rs_get(5, W_TAG, &[], &[], &none), None);
    assert_eq!(h.rs_get(DOCUMENT_ID, W_TYPE, &[], &[], &none).map(|t| text(&t)).as_deref(), Some("9"));
    assert_eq!(h.rs_get(6, W_VALUE, &[], &[], &none).map(|t| text(&t)).as_deref(), Some(""));
}

#[test]
fn styles_are_changed_one_by_one() {
    let mut h = page();
    let decls = vec![
        Row { key: chars("color"), value: chars("red") },
        Row { key: chars("top"), value: chars("1px") },
    ];
    h.rs_set(6, W_STYLE, chars("color"), Some(chars("blue")), vec![], &decls, 100);
    let s = h.rs_get(6, W_ATTR, &chars("style"), &[], &decls).map(|t| text(&t));
    assert_eq!(s.as_deref(), Some("top: 1px; color: blue"));
    h.rs_set(6, W_STYLE, chars("color"), None, vec![], &decls, 100);
    let s = h.rs_get(6, W_ATTR, &chars("style"), &[], &decls).map(|t| text(&t));
    assert_eq!(s.as_deref(), Some("top: 1px"));
    assert_eq!(h.rs_get(6, W_STYLE, &chars("top"), &[], &decls).map(|t| text(&t)).as_deref(), Some("1px"));
}

#[test]
fn every_page_has_a_body() {
    let mut h = page();
    assert_eq!(h.rs_special(2, 50), 3);
    let mut h = Host::new(element(1, "html", vec![element(2, "head", vec![]), element(4, "p", vec![])]), vec![]);
    assert_eq!(h.rs_special(2, 50), 50);
    assert_eq!(h.rs_children(1), [2, 50]);
    assert_eq!(h.rs_children(50), [4]);
    let mut h = Host::new(element(1, "html", vec![element(4, "p", vec![])]), vec![]);
    assert_eq!(h.rs_special(1, 50), 50);
    assert_eq!(h.rs_children(1), [50, 4]);
    assert_eq!(h.rs_special(9, 50), DOCUMENT_ID);
}

#[test]
fn selectors_look_below_a_node() {
    let mut h = page();
    let whole = Query { root: 1, grove: Grove::Page, whole: true };
    assert_eq!(h.rs_query(DOCUMENT_ID), Some(whole));
    assert_eq!(h.rs_query(3), Some(Query { root: 3, grove: Grove::Page, whole: false }));
    assert_eq!(h.rs_query(999), None);
    h.rs_remove(4);
    h.rs_create(&chars("div"), false, 60);
    let loose = h.rs_query(60).unwrap();
    assert!(loose.whole && loose.grove != Grove::Page);
    assert_eq!(query_result(&[5, 6], &[1, 5, 1], whole, 10), [1, 1, 5, 6]);
    assert_eq!(query_result(&[5, 6], &[1, 5], whole, 2), [1, 5]);
    assert_eq!(query_result(&[5, 6], &[1], Query { whole: false, ..whole }, -1), [5, 6]);
    assert!(query_result(&[5], &[], whole, 0).is_empty());
}

#[test]
fn scripts_want_to_know_things() {
    let h = page();
    let ask = |op: i32, a: &str| h.rs_ask(op, &chars(a), (800, 600), -5);
    assert!(matches!(ask(0, ""), Wanted::Address));
    assert!(matches!(ask(1, "Lk"), Wanted::Stored(k) if text(&k) == "Lk"));
    assert!(matches!(ask(2, "L"), Wanted::Keys(k) if text(&k) == "L"));
    assert!(matches!(ask(3, ""), Wanted::Cookies) && matches!(ask(4, ""), Wanted::Agent));
    assert!(matches!(ask(5, ""), Wanted::Text(t) if text(&t) == "800,600"));
    assert!(matches!(ask(6, ""), Wanted::Text(t) if text(&t) == "-5"));
    assert!(matches!(ask(7, "x"), Wanted::Resolved(a) if text(&a) == "x"));
    assert!(matches!(ask(8, ""), Wanted::Text(t) if text(&t) == "T"));
    assert!(matches!(ask(9, "http://a/\0b\0c"), Wanted::Joined(a, b) if text(&a) == "http://a/" && text(&b) == "b\0c"));
    assert!(matches!(ask(9, "http://a/"), Wanted::Joined(a, b) if text(&a) == "http://a/" && b.is_empty()));
    assert!(matches!(ask(10, ""), Wanted::Unknown));
}

#[test]
fn scripts_ask_for_things() {
    let mut h = page();
    h.rs_call(1, chars("x"), vec![], chars("http://h/x"), 0);
    assert!(matches!(h.requests.last(), Some(Request::Navigate(u)) if text(u) == "http://h/x"));
    h.rs_call(9, chars("12"), chars("[]"), vec![], 0);
    assert!(matches!(h.requests.last(), Some(Request::Canvas(12, _))));
    h.rs_call(9, chars("x"), chars("[]"), vec![], 0);
    assert!(matches!(h.requests.last(), Some(Request::Canvas(0, _))));
    h.rs_call(3, chars("New"), vec![], vec![], 0);
    assert_eq!(text(&h.title), "New");
    for i in 0..CONSOLE_LIMIT + 20 {
        h.rs_call(0, chars(&format!("{}", i)), chars("log"), vec![], 0);
    }
    assert_eq!(h.console.len(), CONSOLE_LIMIT + 1);
    assert_eq!(text(&h.console.last().unwrap().value), "519");
}

#[test]
fn scripts_of_a_page_are_found() {
    let mut attrs = Table::new();
    attrs.put(chars("src"), chars("a.js"));
    let with_src = Node { id: 7, kind: Kind::Element { tag: chars("script"), attrs }, children: vec![] };
    let mut attrs = Table::new();
    attrs.put(chars("type"), chars("text/JavaScript"));
    let inline = Node { id: 8, kind: Kind::Element { tag: chars("script"), attrs }, children: vec![words(9, "f()")] };
    let mut attrs = Table::new();
    attrs.put(chars("type"), chars("text/template"));
    let other = Node { id: 10, kind: Kind::Element { tag: chars("script"), attrs }, children: vec![] };
    let v = scripts(&element(1, "html", vec![with_src, inline, other]));
    assert_eq!(v.len(), 2);
    assert_eq!(v[0].src.as_ref().map(|s| text(s)).as_deref(), Some("a.js"));
    assert_eq!(text(&v[1].code), "f()");
}

#[test]
fn boxes_are_put_together() {
    let b = |id, x, y, w, h| NodeBox { id, x, y, w, h };
    assert_eq!(rs_box(&[], 1), (0, 0, 0, 0));
    assert_eq!(rs_box(&[b(1, 5, 5, 10, 10), b(2, 0, 0, 99, 99), b(1, 20, 0, 5, 5)], 1), (5, 0, 20, 15));
    assert_eq!(text(&viewport_text(800, -1)), "800,-1");
}

#[test]
fn texts_come_from_c() {
    assert_eq!(text(&cstr(b"abc\0def")), "abc");
    assert_eq!(text(&bytes(&[0xff, 0xfe])), "");
    assert_eq!(text(&bytes("ü".as_bytes())), "ü");
}

#[test]
fn storage_files_come_back() {
    let tricky = chars("a\\n\tb\nc");
    assert_eq!(unescape(&file_escape(&tricky)), tricky);
    let mut t = Table::new();
    t.put(chars("k\t1"), chars("v\n1"));
    t.put(chars("a"), chars(""));
    let f = save(&t);
    let back = load(&f);
    assert_eq!(back.len(), 2);
    assert_eq!(back.get(&chars("k\t1")).map(|v| text(&v)).as_deref(), Some("v\n1"));
    assert_eq!(text(&f), "a\t\nk\\t1\tv\\n1\n");
    assert_eq!(text(&storage_file(&chars("h:80/x"))), "/config/web/h_80_x.storage");
}

#[test]
fn pages_keep_their_storage() {
    let mut s = Shelf::new();
    let host = chars("h");
    let saved = s.storage_op(4, &host, &chars("Lk"), &chars("v"), Some(&chars("old\t1\n"))).unwrap();
    assert_eq!(text(&saved), "k\tv\nold\t1\n");
    assert_eq!(s.storage_get(&host, &chars("Lk"), None).map(|v| text(&v)).as_deref(), Some("v"));
    assert_eq!(s.storage_get(&host, &chars("Sk"), None), None);
    assert_eq!(text(&s.storage_keys(&host, &chars("L"), None)), "k\nold");
    assert!(s.storage_op(4, &host, &chars("Sk"), &chars("w"), None).is_none());
    assert_eq!(text(&s.storage_op(5, &host, &chars("Lk"), &[], None).unwrap()), "old\t1\n");
    assert_eq!(text(&s.storage_op(6, &host, &chars("L"), &[], None).unwrap()), "");
}

#[test]
fn cookies_belong_to_a_site() {
    assert_eq!(text(&site(&chars("www.x.com"))), "x.com");
    assert_eq!(text(&site(&chars("localhost"))), "localhost");
    let mut s = Shelf::new();
    s.set_cookie(&chars("www.x.com"), &chars(" b = 2 ; Path=/"));
    s.set_cookie(&chars("x.com"), &chars("a=1"));
    s.set_cookie(&chars("y.com"), &chars("c=3"));
    s.set_cookie(&chars("x.com"), &chars("nonsense"));
    assert_eq!(text(&s.cookie_header(&chars("shop.x.com"))), "a=1; b=2");
    s.set_cookie(&chars("x.com"), &chars("a=; Max-Age=0"));
    assert_eq!(text(&s.cookie_header(&chars("x.com"))), "b=2");
    assert_eq!(text(&s.cookie_header(&chars("z.com"))), "");
}

#[test]
fn days_are_counted() {
    assert_eq!(days_from_civil(1970, 1, 1), 0);
    assert_eq!(days_from_civil(2000, 3, 1), 11017);
    let t = localtime_r(951_782_400);
    assert_eq!((t.year, t.mon, t.mday), (100, 1, 29));
    let t = localtime_r(-1);
    assert_eq!((t.year, t.mon, t.mday, t.hour, t.min, t.sec, t.wday), (69, 11, 31, 23, 59, 59, 3));
    let t = localtime_r(i64::MIN);
    assert!(t.sec < 60 && t.mon < 12 && t.wday < 7 && t.yday == 0);
}

fn answer(status: u32, content_type: &str, body: &str) -> Reply {
    Reply::Page(Answer {
        status,
        content_type: chars(content_type),
        url: chars("https://a.org/p"),
        path: chars("/p"),
        body: body.as_bytes().to_vec(),
        image: false,
    })
}

#[test]
fn a_page_is_loaded_with_its_styles_and_pictures() {
    let (mut l, first) = Load::new(false);
    assert!(matches!(first, Order::Fetch));
    let o = l.step(answer(200, "text/html", "<p>hi"));
    assert!(matches!(o, Order::Parse(t, true) if text(&t) == "<p>hi"));
    assert_eq!(l.status(&chars("a.org")).map(|t| text(&t)).unwrap(), "Reading a.org\u{2026}");
    assert!(matches!(l.step(Reply::Document(25, 2)), Order::Style(0)));
    assert_eq!(l.status(&[]).map(|t| text(&t)).unwrap(), "Loading styles (1/10)\u{2026}");
    assert!(matches!(l.step(Reply::Decoded(1, 1)), Order::Wait));
    assert!(matches!(l.step(Reply::File(200, STYLE_BYTES)), Order::Style(1)));
    assert!(matches!(l.step(Reply::File(404, 10)), Order::Style(2)));
    assert!(matches!(l.step(Reply::File(200, STYLE_BYTES - 1)), Order::Style(3)));
    for _ in 0..6 {
        assert!(matches!(l.step(Reply::Missing), Order::Style(_)));
    }
    assert!(matches!(l.step(Reply::File(200, 1)), Order::Publish));
    assert_eq!(l.kept, [2, 9]);
    assert!(matches!(l.step(Reply::Done), Order::Picture(0)));
    assert_eq!(l.status(&[]).map(|t| text(&t)).unwrap(), "Loading pictures (1/2)\u{2026}");
    assert!(matches!(l.step(Reply::File(200, PICTURE_BYTES)), Order::Decode(0)));
    assert!(matches!(l.step(Reply::Decoded(3200, 100)), Order::Keep(0, 1600, 50)));
    assert!(matches!(l.step(Reply::Done), Order::Picture(1)));
    assert!(matches!(l.step(Reply::File(200, PICTURE_BYTES + 1)), Order::Finish));
    assert_eq!(l.stage, Stage::Over);
    assert_eq!(l.status(&[]), Some(Vec::new()));
}

#[test]
fn folders_texts_and_pictures_become_pages_without_styles() {
    let (mut l, first) = Load::new(true);
    assert!(matches!(first, Order::LookForFolder));
    let o = l.step(Reply::Folder(chars("/"), vec![DirEntry::virtual_dir("bin")]));
    assert!(matches!(o, Order::Parse(t, false) if text(&t) == text(&folder_html(&chars("/"), &[DirEntry::virtual_dir("bin")]))));
    assert!(matches!(l.step(Reply::Document(3, 0)), Order::Publish));
    assert!(matches!(l.step(Reply::Done), Order::Finish));
    let (mut l, _) = Load::new(true);
    assert!(matches!(l.step(Reply::NoFolder), Order::Fetch));
    let o = l.step(answer(200, "text/plain", "a<b"));
    assert!(matches!(o, Order::Parse(t, false) if text(&t) == "<html><body><pre>a&lt;b</pre></body></html>"));
    let (mut l, _) = Load::new(false);
    assert!(matches!(l.step(answer(200, "Image/png", "x")), Order::Parse(t, false) if text(&t).contains("<img src=\"/p\">")));
}

#[test]
fn a_load_fails_or_is_given_up() {
    let (mut l, _) = Load::new(false);
    assert!(matches!(l.step(answer(404, "", "")), Order::Fail(e) if text(&e) == "The server answered 404."));
    let (mut l, _) = Load::new(false);
    assert!(matches!(l.step(Reply::Failed(chars("no route"))), Order::Fail(e) if text(&e) == "no route"));
    let (mut l, _) = Load::new(false);
    l.cancel();
    assert!(matches!(l.step(Reply::Failed(chars("no route"))), Order::Stop));
    let (mut l, _) = Load::new(false);
    l.step(answer(200, "text/html", "x"));
    l.step(Reply::Document(2, 2));
    l.cancel();
    assert!(matches!(l.step(Reply::File(200, 5)), Order::Stop));
    assert_eq!(l.stage, Stage::Over);
}

#[test]
fn the_browser_takes_what_the_load_brings() {
    let mut b = Browser::new();
    b.navigate(address("https://a.org/"), true);
    assert!(b.tab.loading);
    let t = b.tick(None, false, chars("Reading a.org\u{2026}"));
    assert_eq!((t.layout, t.redraw, t.progress), (false, true, true));
    let t = b.tick(None, false, chars("Reading a.org\u{2026}"));
    assert!(!t.redraw && t.progress);
    let t = b.tick(Some(Ok((address("https://a.org/x"), Some(chars("Hi"))))), false, chars("Reading a.org\u{2026}"));
    assert_eq!((t.layout, t.redraw, t.progress), (true, true, false));
    assert_eq!(text(&b.address.text), "https://a.org/x");
    let t = b.tick(None, true, Vec::new());
    assert!(t.layout && t.redraw);
    b.navigate(address("https://b.org/"), true);
    let t = b.tick(Some(Err(chars("no route"))), false, Vec::new());
    assert!(!t.layout && t.redraw && !b.tab.loading);
    assert_eq!(b.error.map(|e| text(&e)), Some(String::from("no route")));
}
