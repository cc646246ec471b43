//! The extraction engine on hand-built node trees: head fields,
//! body buffers, drawing detection, link rewriting, and every
//! structural error of the dialect.

use nico_bbs::board::Board;
use nico_bbs::dom::{Attr, Elem, Node};
use nico_bbs::res::{ExtractionError, Res};
use nico_bbs::timestamp::Timestamp;

fn text(s: &str) -> Node {
    Node::Text(s.to_string())
}

fn elem(name: &str, attrs: &[(&str, &str)], children: Vec<Node>) -> Elem {
    Elem {
        name: name.to_string(),
        attrs: attrs
            .iter()
            .map(|(k, v)| Attr {
                key: k.to_string(),
                value: v.to_string(),
            })
            .collect(),
        children,
    }
}

fn el(name: &str, attrs: &[(&str, &str)], children: Vec<Node>) -> Node {
    Node::Element(elem(name, attrs, children))
}

fn head_elem(no: &str, tail: &str) -> Elem {
    elem(
        "dt",
        &[],
        vec![el("a", &[("name", no)], vec![text(no)]), text(tail)],
    )
}

#[test]
fn head_parses_number_date_and_id() {
    let mut r = Res::default();
    let head = head_elem("5", " : 2012/05/06(\u{65e5}) 12:34:56 ID: abcXYZ+");
    r.parse_res_head(&head).unwrap();
    assert_eq!(r.no, 5);
    assert_eq!(
        r.datetime,
        Some(Timestamp {
            year: 2012,
            month: 5,
            day: 6,
            hour: 12,
            minute: 34,
            second: 56
        })
    );
    assert_eq!(r.datetime_text, "2012/05/06(\u{65e5}) 12:34:56");
    assert_eq!(r.id, "abcXYZ+");
}

#[test]
fn head_joins_name_and_trip_spans() {
    let mut r = Res::default();
    let head = elem(
        "dt",
        &[],
        vec![
            el("a", &[("name", "7")], vec![]),
            el("span", &[("class", "name")], vec![text("alice")]),
            el("span", &[("class", "trip")], vec![text("sig")]),
            text(" 2012/05/06(\u{65e5}) 12:34:56 ID: aa"),
        ],
    );
    r.parse_res_head(&head).unwrap();
    assert_eq!(r.name_and_trip, "alice sig");
}

#[test]
fn deleted_post_has_no_timestamp() {
    // the deletion marker wins over everything around it
    let mut r = Res::default();
    let head = head_elem("9", "xx \u{524a}\u{9664}\u{3057}\u{307e}\u{3057}\u{305f} yy ID: zz");
    r.parse_res_head(&head).unwrap();
    assert_eq!(r.datetime, None);
    assert_eq!(r.datetime_text, "\u{524a}\u{9664}\u{3057}\u{307e}\u{3057}\u{305f}");
    assert_eq!(r.id, "zz");
}

#[test]
fn head_errors() {
    let mut r = Res::default();
    let no_anchor = elem("dt", &[], vec![text("x ID: a")]);
    assert_eq!(
        r.parse_res_head(&no_anchor),
        Err(ExtractionError::MissingPostNumber)
    );
    let bad_no = elem(
        "dt",
        &[],
        vec![el("a", &[("name", "x1")], vec![]), text("t ID: a")],
    );
    assert_eq!(
        r.parse_res_head(&bad_no),
        Err(ExtractionError::BadPostNumber)
    );
    let overflowing = elem(
        "dt",
        &[],
        vec![el("a", &[("name", "99999999999")], vec![]), text("t ID: a")],
    );
    assert_eq!(
        r.parse_res_head(&overflowing),
        Err(ExtractionError::BadPostNumber)
    );
    let no_text = elem("dt", &[], vec![el("a", &[("name", "3")], vec![])]);
    assert_eq!(
        r.parse_res_head(&no_text),
        Err(ExtractionError::MissingDateText)
    );
    let no_date = head_elem("3", " ID: abc");
    assert_eq!(
        r.parse_res_head(&no_date),
        Err(ExtractionError::DatePatternNotFound)
    );
    let bad_date = head_elem("3", " 2012/13/45(\u{65e5}) 12:34:56 ID: a");
    assert_eq!(
        r.parse_res_head(&bad_date),
        Err(ExtractionError::InvalidDate)
    );
    let no_id = head_elem("3", " 2012/05/06(\u{65e5}) 12:34:56");
    assert_eq!(
        r.parse_res_head(&no_id),
        Err(ExtractionError::IdPatternNotFound)
    );
}

#[test]
fn leap_day_is_a_real_date() {
    let mut r = Res::default();
    let head = head_elem("4", " 2012/02/29(\u{6c34}) 00:00:00 ID: a");
    r.parse_res_head(&head).unwrap();
    assert!(r.datetime.is_some());
    let mut r2 = Res::default();
    let head2 = head_elem("4", " 2013/02/29(\u{91d1}) 00:00:00 ID: a");
    assert_eq!(
        r2.parse_res_head(&head2),
        Err(ExtractionError::InvalidDate)
    );
}

#[test]
fn body_text_and_breaks() {
    let mut r = Res::default();
    let body = elem("dd", &[], vec![text("hello"), el("br", &[], vec![]), text("world")]);
    let o = r.parse_res_body(&body).unwrap();
    assert!(o.is_none());
    assert_eq!(r.main_text, "hello\nworld");
    assert_eq!(r.main_text_html, "hello<br>world");
    assert_eq!(r.oekaki_id, None);
}

#[test]
fn body_encodes_markup_characters() {
    let mut r = Res::default();
    let body = elem("dd", &[], vec![text("a<b&c>d")]);
    r.parse_res_body(&body).unwrap();
    assert_eq!(r.main_text, "a<b&c>d");
    assert_eq!(r.main_text_html, "a&lt;b&amp;c&gt;d");
}

#[test]
fn body_trims_ascii_whitespace_only() {
    let mut r = Res::default();
    let body = elem("dd", &[], vec![text("  \u{3000}hi\u{3000}\n")]);
    r.parse_res_body(&body).unwrap();
    // full-width spaces survive the trim
    assert_eq!(r.main_text, "\u{3000}hi\u{3000}");
}

#[test]
fn encyclopedia_anchor_is_delinked() {
    let mut r = Res::default();
    let body = elem(
        "dd",
        &[],
        vec![el("a", &[("class", "auto")], vec![text("foo")])],
    );
    r.parse_res_body(&body).unwrap();
    assert_eq!(r.main_text, "foo");
    assert_eq!(r.main_text_html, "foo");
}

#[test]
fn dictionary_anchor_is_rewritten_absolute() {
    let mut r = Res::default();
    let body = elem(
        "dd",
        &[],
        vec![el(
            "a",
            &[("class", "dic"), ("href", "/a/foo")],
            vec![text("foo"), el("wbr", &[], vec![])],
        )],
    );
    r.parse_res_body(&body).unwrap();
    assert_eq!(r.main_text, "foo");
    assert_eq!(
        r.main_text_html,
        "<a href=\"https://dic.nicovideo.jp/a/foo\">foo<wbr></a>"
    );
}

#[test]
fn external_link_keeps_target_encoded() {
    let mut r = Res::default();
    let body = elem(
        "dd",
        &[],
        vec![el(
            "a",
            &[("target", "_blank"), ("href", "http://e.com/?a=1&b=2")],
            vec![text("sm9")],
        )],
    );
    r.parse_res_body(&body).unwrap();
    assert_eq!(r.main_text, "sm9");
    assert_eq!(
        r.main_text_html,
        "<a href=\"http://e.com/?a=1&amp;b=2\">sm9</a>"
    );
}

#[test]
fn unclassified_anchor_is_dropped() {
    let mut r = Res::default();
    let body = elem(
        "dd",
        &[],
        vec![text("x"), el("a", &[("href", "http://e.com/")], vec![text("gone")])],
    );
    r.parse_res_body(&body).unwrap();
    assert_eq!(r.main_text, "x");
    assert_eq!(r.main_text_html, "x");
}

#[test]
fn frame_removes_preceding_break() {
    let mut r = Res::default();
    let body = elem(
        "dd",
        &[],
        vec![text("x"), el("br", &[], vec![]), el("iframe", &[], vec![])],
    );
    r.parse_res_body(&body).unwrap();
    assert_eq!(r.main_text, "x");
    assert_eq!(r.main_text_html, "x");
}

fn drawing_body(extra: Vec<Node>) -> Elem {
    let mut children = vec![
        text("hi"),
        el("br", &[], vec![]),
        text("\n"),
        el("div", &[("id", "oekaki42")], vec![]),
    ];
    children.extend(extra);
    elem("dd", &[], children)
}

#[test]
fn drawing_container_yields_drawing() {
    let mut r = Res::default();
    let o = r.parse_res_body(&drawing_body(vec![])).unwrap().unwrap();
    assert_eq!(o.oekaki_id, 42);
    assert_eq!(r.oekaki_id, Some(42));
    assert_eq!(o.oekaki_title, None);
    assert_eq!(o.original_oekaki_res_no, None);
    assert_eq!(r.main_text, "hi");
    assert_eq!(r.main_text_html, "hi");
}

#[test]
fn drawing_title_and_origin() {
    let mut r = Res::default();
    let extra = vec![
        text("\n\u{30bf}\u{30a4}\u{30c8}\u{30eb}:\u{7d75}"),
        el("a", &[("href", "#12")], vec![text(">>12")]),
    ];
    let o = r.parse_res_body(&drawing_body(extra)).unwrap().unwrap();
    assert_eq!(o.oekaki_title, Some("\u{7d75}".to_string()));
    assert_eq!(o.original_oekaki_res_no, Some(12));
    // the title line is appended to the searchable text
    assert_eq!(r.main_text, "hi\u{30bf}\u{30a4}\u{30c8}\u{30eb}:\u{7d75}");
}

#[test]
fn title_line_skips_dialect_whitespace() {
    let mut r = Res::default();
    let extra = vec![text("\n\u{3000}\u{30bf}\u{30a4}\u{30c8}\u{30eb}:x")];
    let o = r.parse_res_body(&drawing_body(extra)).unwrap().unwrap();
    assert_eq!(o.oekaki_title, Some("x".to_string()));
}

#[test]
fn body_errors() {
    let mut r = Res::default();
    let bare_frame = elem("dd", &[], vec![el("iframe", &[], vec![])]);
    assert!(matches!(
        r.parse_res_body(&bare_frame),
        Err(ExtractionError::DanglingBreakBeforeFrame)
    ));
    let bare_div = elem("dd", &[], vec![el("div", &[("id", "oekaki1")], vec![])]);
    assert!(matches!(
        r.parse_res_body(&bare_div),
        Err(ExtractionError::DanglingBreakBeforeDrawing)
    ));
    let no_id = elem(
        "dd",
        &[],
        vec![
            text("x"),
            el("br", &[], vec![]),
            text("\n"),
            el("div", &[], vec![]),
        ],
    );
    assert!(matches!(
        r.parse_res_body(&no_id),
        Err(ExtractionError::MissingDrawingId)
    ));
    let bad_id = elem(
        "dd",
        &[],
        vec![
            text("x"),
            el("br", &[], vec![]),
            text("\n"),
            el("div", &[("id", "oekakixy")], vec![]),
        ],
    );
    assert!(matches!(
        r.parse_res_body(&bad_id),
        Err(ExtractionError::BadDrawingId)
    ));
    let dic_without_href = elem(
        "dd",
        &[],
        vec![el("a", &[("class", "dic")], vec![text("foo")])],
    );
    assert!(matches!(
        r.parse_res_body(&dic_without_href),
        Err(ExtractionError::MissingLinkTarget)
    ));
    let bad_backref = drawing_body(vec![el("a", &[("href", "nohash")], vec![])]);
    assert!(matches!(
        r.parse_res_body(&bad_backref),
        Err(ExtractionError::BadFragmentNumber)
    ));
}

fn post_pair(no: &str) -> Vec<Node> {
    vec![
        Node::Element(head_elem(no, " 2012/05/06(\u{65e5}) 12:34:56 ID: aa")),
        el("dd", &[], vec![text("body")]),
    ]
}

#[test]
fn page_extraction_is_order_preserving() {
    let mut nodes: Vec<Node> = Vec::new();
    for no in ["5", "6", "7"] {
        nodes.extend(post_pair(no));
    }
    let pairs = Board::extract_page(&nodes).unwrap();
    assert_eq!(pairs.len(), 3);
    assert_eq!(pairs[0].0.no, 5);
    assert_eq!(pairs[1].0.no, 6);
    assert_eq!(pairs[2].0.no, 7);
    for (r, o) in &pairs {
        assert_eq!(r.main_text, "body");
        assert!(o.is_none());
    }
}

#[test]
fn page_ignores_other_children() {
    let mut nodes = vec![text("\n"), el("p", &[], vec![])];
    nodes.extend(post_pair("8"));
    let pairs = Board::extract_page(&nodes).unwrap();
    assert_eq!(pairs.len(), 1);
    assert_eq!(pairs[0].0.no, 8);
}

#[test]
fn page_propagates_structural_errors() {
    let nodes = vec![el("dt", &[], vec![text("no anchor ID: a")])];
    assert!(matches!(
        Board::extract_page(&nodes),
        Err(ExtractionError::MissingPostNumber)
    ));
}
