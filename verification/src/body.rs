//! The body parser: walks one body element's children in document
//! order, keeping a plain-text buffer and a sanitized-HTML buffer in
//! parallel, detecting the embedded-drawing region, and rewriting
//! links. Both buffers are segment lists, so that the line break that
//! must precede an embedded frame or drawing can be removed with its
//! consistency check.

use vstd::prelude::*;
use vstd::string::*;
use crate::chars::{
    all_digits,
    digits_value,
    encode_text_spec,
    join_segs,
    segs_view,
    trim_spec,
    push_chars,
    push_char_vec,
    push_encoded,
    push_encoded_vec,
    chars_eq_str,
    parse_i32_chars,
    string_from_chars,
    str_eq,
    join_segments,
    trim_ascii,
};
use crate::dom::{Node, Elem, attr_of, direct_text, has_class_token};
use crate::patterns::{
    title_match,
    title_capture,
    fragment_match,
    fragment_capture,
    oekaki_id_match,
    oekaki_id_capture,
};
use crate::res::{Res, ResView, Oekaki, OekakiView, ExtractionError};

verus! {

/// The marker that announces a drawing's title line.
pub open spec fn title_marker() -> Seq<char> {
    "\u{30bf}\u{30a4}\u{30c8}\u{30eb}:"@
}

/// State of the body walk: the two parallel segment buffers, whether
/// the drawing region has been entered, and the drawing record under
/// construction.
#[verifier::ext_equal]
pub ghost struct BodyState {
    pub texts: Seq<Seq<char>>,
    pub htmls: Seq<Seq<char>>,
    pub found: bool,
    pub oekaki_id: int,
    pub title: Option<Seq<char>>,
    pub origin: Option<int>,
}

pub open spec fn initial_body_state() -> BodyState {
    BodyState {
        texts: Seq::empty(),
        htmls: Seq::empty(),
        found: false,
        oekaki_id: 0,
        title: None,
        origin: None,
    }
}

/// A line break pair stands last in both buffers, ready to be removed
/// before an embedded frame or drawing container.
pub open spec fn pending_break(texts: Seq<Seq<char>>, htmls: Seq<Seq<char>>) -> bool {
    texts.len() > 0 && texts.last() == "\n"@ && htmls.len() > 0 && htmls.last() == "<br>"@
}

/// Plain text and inner HTML gathered from an anchor's children:
/// text passes through to both (entity-encoded on the HTML side), a
/// line-wrap hint keeps its HTML-only form, anything else is dropped.
pub open spec fn link_parts(children: Seq<Node>) -> (Seq<char>, Seq<char>)
    decreases children.len(),
{
    if children.len() == 0 {
        (Seq::empty(), Seq::empty())
    } else {
        let rest = link_parts(children.drop_last());
        match children.last() {
            Node::Text(t) => (rest.0 + t@, rest.1 + encode_text_spec(t@)),
            Node::Element(e) => if e.name@ == "wbr"@ {
                (rest.0, rest.1 + "<wbr>"@)
            } else {
                rest
            },
        }
    }
}

/// The single reconstructed anchor element: the accumulated inner
/// HTML wrapped in an anchor whose target is entity-encoded.
pub open spec fn link_html(children: Seq<Node>, href: Seq<char>) -> Seq<char> {
    "<a href=\""@ + encode_text_spec(href) + "\">"@ + link_parts(children).1 + "</a>"@
}

/// A text child: body text before the drawing region; after it, only
/// a title line is recognized, and only into the plain-text buffer.
pub open spec fn body_text_step(st: BodyState, t: Seq<char>) -> BodyState {
    if st.found {
        if title_match(t) {
            BodyState {
                texts: st.texts.push(title_marker() + title_capture(t)),
                title: Some(title_capture(t)),
                ..st
            }
        } else {
            st
        }
    } else {
        BodyState {
            texts: st.texts.push(t),
            htmls: st.htmls.push(encode_text_spec(t)),
            ..st
        }
    }
}

/// The anchor's class list marks it as an auto-generated encyclopedia
/// cross-reference.
pub open spec fn anchor_is_encyclopedia(e: Elem) -> bool {
    match attr_of(e.attrs@, "class"@) {
        Some(s) => has_class_token(s, "auto"@) || has_class_token(s, "auto-hdn"@),
        None => false,
    }
}

/// An anchor child. After the drawing region it is a back-reference
/// to the originating post. Before it, an encyclopedia cross-reference
/// is deliberately de-linked; a dictionary anchor is rewritten against
/// the board's base URL; an external link keeps its target; anything
/// else is dropped.
pub open spec fn body_anchor_step(st: BodyState, e: Elem) -> Result<BodyState, ExtractionError> {
    if st.found {
        match attr_of(e.attrs@, "href"@) {
            None => Ok(st),
            Some(h) => if !fragment_match(h) {
                Err(ExtractionError::BadFragmentNumber)
            } else {
                let cap = fragment_capture(h);
                if cap.len() >= 1 && all_digits(cap) && digits_value(cap) <= i32::MAX {
                    Ok(BodyState { origin: Some(digits_value(cap)), ..st })
                } else {
                    Err(ExtractionError::BadFragmentNumber)
                }
            },
        }
    } else if anchor_is_encyclopedia(e) {
        Ok(
            BodyState {
                texts: st.texts.push(direct_text(e.children@)),
                htmls: st.htmls.push(encode_text_spec(direct_text(e.children@))),
                ..st
            },
        )
    } else if attr_of(e.attrs@, "class"@) == Some("dic"@) {
        match attr_of(e.attrs@, "href"@) {
            None => Err(ExtractionError::MissingLinkTarget),
            Some(h) => Ok(
                BodyState {
                    texts: st.texts.push(link_parts(e.children@).0),
                    htmls: st.htmls.push(
                        link_html(e.children@, "https://dic.nicovideo.jp"@ + h),
                    ),
                    ..st
                },
            ),
        }
    } else if attr_of(e.attrs@, "target"@) == Some("_blank"@) {
        match attr_of(e.attrs@, "href"@) {
            None => Err(ExtractionError::MissingLinkTarget),
            Some(h) => Ok(
                BodyState {
                    texts: st.texts.push(link_parts(e.children@).0),
                    htmls: st.htmls.push(link_html(e.children@, h)),
                    ..st
                },
            ),
        }
    } else {
        Ok(st)
    }
}

/// An embedded frame: the line break just emitted is removed from both
/// buffers; its absence breaks the dialect's consistency rule.
pub open spec fn body_frame_step(st: BodyState) -> Result<BodyState, ExtractionError> {
    if pending_break(st.texts, st.htmls) {
        Ok(BodyState { texts: st.texts.drop_last(), htmls: st.htmls.drop_last(), ..st })
    } else {
        Err(ExtractionError::DanglingBreakBeforeFrame)
    }
}

/// A drawing container: enters the drawing region, removes the text
/// newline and the line break just before it (checked), and parses the
/// drawing's numeric id from the container's id attribute.
pub open spec fn body_drawing_step(st: BodyState, e: Elem) -> Result<BodyState, ExtractionError> {
    let t1 = if st.texts.len() > 0 {
        st.texts.drop_last()
    } else {
        st.texts
    };
    let h1 = if st.htmls.len() > 0 {
        st.htmls.drop_last()
    } else {
        st.htmls
    };
    if !pending_break(t1, h1) {
        Err(ExtractionError::DanglingBreakBeforeDrawing)
    } else {
        match attr_of(e.attrs@, "id"@) {
            None => Err(ExtractionError::MissingDrawingId),
            Some(idv) => if !oekaki_id_match(idv) {
                Err(ExtractionError::BadDrawingId)
            } else {
                let cap = oekaki_id_capture(idv);
                if cap.len() >= 1 && all_digits(cap) && digits_value(cap) <= i32::MAX {
                    Ok(
                        BodyState {
                            texts: t1.drop_last(),
                            htmls: h1.drop_last(),
                            found: true,
                            oekaki_id: digits_value(cap),
                            ..st
                        },
                    )
                } else {
                    Err(ExtractionError::BadDrawingId)
                }
            },
        }
    }
}

/// One child of the body element. A line break is recorded in both
/// buffers and suppressed inside the drawing region; unknown elements
/// and other node kinds are ignored.
pub open spec fn body_step(st: BodyState, node: Node) -> Result<BodyState, ExtractionError> {
    match node {
        Node::Text(t) => Ok(body_text_step(st, t@)),
        Node::Element(e) => if e.name@ == "a"@ {
            body_anchor_step(st, e)
        } else if e.name@ == "br"@ {
            if st.found {
                Ok(st)
            } else {
                Ok(
                    BodyState {
                        texts: st.texts.push("\n"@),
                        htmls: st.htmls.push("<br>"@),
                        ..st
                    },
                )
            }
        } else if e.name@ == "iframe"@ {
            body_frame_step(st)
        } else if e.name@ == "div"@ {
            body_drawing_step(st, e)
        } else {
            Ok(st)
        },
    }
}

/// The body walk over a child list, left to right.
pub open spec fn body_fold(st: BodyState, nodes: Seq<Node>) -> Result<BodyState, ExtractionError>
    decreases nodes.len(),
{
    if nodes.len() == 0 {
        Ok(st)
    } else {
        match body_step(st, nodes.first()) {
            Err(e) => Err(e),
            Ok(st2) => body_fold(st2, nodes.drop_first()),
        }
    }
}

/// View of an optional drawing record.
pub open spec fn opt_oekaki_view(o: Option<Oekaki>) -> Option<OekakiView> {
    match o {
        Some(x) => Some(x@),
        None => None,
    }
}

/// What parsing a body element does to a post record: the two buffers
/// joined and trimmed of ASCII whitespace become the body fields, and
/// the drawing record is returned when its region was entered.
pub open spec fn body_spec(children: Seq<Node>, prev: ResView) -> Result<
    (ResView, Option<OekakiView>),
    ExtractionError,
> {
    match body_fold(initial_body_state(), children) {
        Err(e) => Err(e),
        Ok(st) => Ok(
            (
                ResView {
                    main_text: trim_spec(join_segs(st.texts)),
                    main_text_html: trim_spec(join_segs(st.htmls)),
                    oekaki_id: if st.found {
                        Some(st.oekaki_id)
                    } else {
                        prev.oekaki_id
                    },
                    ..prev
                },
                if st.found {
                    Some(
                        OekakiView {
                            oekaki_id: st.oekaki_id,
                            oekaki_title: st.title,
                            original_oekaki_res_no: st.origin,
                        },
                    )
                } else {
                    None
                },
            ),
        ),
    }
}

proof fn lemma_body_fold_split(st: BodyState, s: Seq<Node>, i: int)
    requires
        0 <= i <= s.len(),
    ensures
        body_fold(st, s) == (match body_fold(st, s.take(i)) {
            Err(e) => Err(e),
            Ok(m) => body_fold(m, s.skip(i)),
        }),
    decreases i,
{
    if i == 0 {
        assert(s.take(0) =~= Seq::<Node>::empty());
        assert(s.skip(0) =~= s);
    } else {
        assert(s.len() > 0);
        assert(s.take(i).first() == s.first());
        assert(s.take(i).drop_first() =~= s.drop_first().take(i - 1));
        assert(s.skip(i) =~= s.drop_first().skip(i - 1));
        match body_step(st, s.first()) {
            Err(_) => {},
            Ok(st2) => {
                lemma_body_fold_split(st2, s.drop_first(), i - 1);
            },
        }
    }
}

proof fn lemma_fold_extend(st0: BodyState, s: Seq<Node>, i: int, pre: BodyState)
    requires
        0 <= i < s.len(),
        body_fold(st0, s.take(i)) == Ok::<BodyState, ExtractionError>(pre),
    ensures
        body_fold(st0, s.take(i + 1)) == body_step(pre, s[i]),
{
    lemma_body_fold_split(st0, s.take(i + 1), i);
    assert(s.take(i + 1).take(i) =~= s.take(i));
    let single = s.take(i + 1).skip(i);
    assert(single =~= seq![s[i]]);
    assert(single.first() == s[i]);
    assert(single.drop_first() =~= Seq::<Node>::empty());
    match body_step(pre, s[i]) {
        Err(_) => {},
        Ok(st2) => {
            assert(body_fold(st2, single.drop_first()) == Ok::<BodyState, ExtractionError>(st2));
        },
    }
}

proof fn lemma_segs_push(s: Seq<Vec<char>>, v: Vec<char>)
    ensures
        segs_view(s.push(v)) == segs_view(s).push(v@),
{
    assert(segs_view(s.push(v)) =~= segs_view(s).push(v@));
}

proof fn lemma_segs_drop_last(s: Seq<Vec<char>>)
    requires
        s.len() > 0,
    ensures
        segs_view(s.drop_last()) == segs_view(s).drop_last(),
        segs_view(s).last() == s.last()@,
{
    assert(segs_view(s.drop_last()) =~= segs_view(s).drop_last());
}

/// The node is a drawing container element.
pub open spec fn is_drawing_container(n: Node) -> bool {
    n matches Node::Element(e) && e.name@ == "div"@
}

proof fn lemma_fold_preserves_not_found(st: BodyState, nodes: Seq<Node>, st2: BodyState)
    requires
        body_fold(st, nodes) == Ok::<BodyState, ExtractionError>(st2),
        !st.found,
        forall|i: int| 0 <= i < nodes.len() ==> !is_drawing_container(#[trigger] nodes[i]),
    ensures
        !st2.found,
    decreases nodes.len(),
{
    if nodes.len() > 0 {
        assert(!is_drawing_container(nodes[0]));
        match body_step(st, nodes.first()) {
            Err(_) => {},
            Ok(mid) => {
                assert(!mid.found);
                assert(forall|i: int|
                    0 <= i < nodes.drop_first().len() ==> !is_drawing_container(
                        #[trigger] nodes.drop_first()[i],
                    ));
                lemma_fold_preserves_not_found(mid, nodes.drop_first(), st2);
            },
        }
    }
}

/// A body without a drawing container yields no drawing: the record's
/// drawing reference is left as it was and no drawing record is
/// returned.
pub proof fn lemma_no_container_no_drawing(
    children: Seq<Node>,
    prev: ResView,
    p: (ResView, Option<OekakiView>),
)
    requires
        forall|i: int| 0 <= i < children.len() ==> !is_drawing_container(#[trigger] children[i]),
        body_spec(children, prev) == Ok::<(ResView, Option<OekakiView>), ExtractionError>(p),
    ensures
        p.1 is None,
        p.0.oekaki_id == prev.oekaki_id,
{
    match body_fold(initial_body_state(), children) {
        Err(_) => {},
        Ok(st) => {
            lemma_fold_preserves_not_found(initial_body_state(), children, st);
        },
    }
}

/// The abstract walk state that the executable buffers stand for.
pub open spec fn st_abs(
    texts: Seq<Vec<char>>,
    htmls: Seq<Vec<char>>,
    found: bool,
    oid: i32,
    title: Option<Vec<char>>,
    origin: Option<i32>,
) -> BodyState {
    BodyState {
        texts: segs_view(texts),
        htmls: segs_view(htmls),
        found: found,
        oekaki_id: oid as int,
        title: match title {
            Some(v) => Some(v@),
            None => None,
        },
        origin: match origin {
            Some(n) => Some(n as int),
            None => None,
        },
    }
}

/// Rewrites one anchor: returns the gathered plain text and the
/// reconstructed anchor element for the HTML buffer.
pub fn parse_res_body_link(a: &Elem, href: &Vec<char>) -> (r: (Vec<char>, Vec<char>))
    ensures
        r.0@ == link_parts(a.children@).0,
        r.1@ == link_html(a.children@, href@),
{
    let mut tx: Vec<char> = Vec::new();
    let mut hx: Vec<char> = Vec::new();
    let n = a.children.len();
    let mut i: usize = 0;
    assert(a.children@.take(0) =~= Seq::<Node>::empty());
    while i < n
        invariant
            0 <= i <= n,
            n == a.children@.len(),
            tx@ == link_parts(a.children@.take(i as int)).0,
            hx@ == link_parts(a.children@.take(i as int)).1,
        decreases n - i,
    {
        assert(a.children@.take(i as int + 1).drop_last() =~= a.children@.take(i as int));
        assert(a.children@.take(i as int + 1).last() == a.children@[i as int]);
        match &a.children[i] {
            Node::Text(t) => {
                push_chars(&mut tx, t.as_str());
                push_encoded(&mut hx, t.as_str());
            },
            Node::Element(e) => {
                if str_eq(e.name.as_str(), "wbr") {
                    push_chars(&mut hx, "<wbr>");
                }
            },
        }
        i = i + 1;
    }
    assert(a.children@.take(n as int) =~= a.children@);
    let mut html: Vec<char> = Vec::new();
    push_chars(&mut html, "<a href=\"");
    push_encoded_vec(&mut html, href);
    push_chars(&mut html, "\">");
    push_char_vec(&mut html, &hx);
    push_chars(&mut html, "</a>");
    (tx, html)
}

impl Res {
    /// Finalizes the body fields from one body element's children and
    /// returns the embedded drawing, if its region was entered. On an
    /// error the record is unchanged and the page must be abandoned.
    #[verifier::rlimit(100)]
    pub fn parse_res_body(&mut self, body: &Elem) -> (r: Result<Option<Oekaki>, ExtractionError>)
        ensures
            match r {
                Ok(ok) => body_spec(body.children@, old(self)@) == Ok::<
                    (ResView, Option<OekakiView>),
                    ExtractionError,
                >((final (self)@, opt_oekaki_view(ok))),
                Err(e) => body_spec(body.children@, old(self)@) == Err::<
                    (ResView, Option<OekakiView>),
                    ExtractionError,
                >(e) && *final (self) == *old(self),
            },
    {
        let mut texts: Vec<Vec<char>> = Vec::new();
        let mut htmls: Vec<Vec<char>> = Vec::new();
        let mut found: bool = false;
        let mut oid: i32 = 0;
        let mut title: Option<Vec<char>> = None;
        let mut origin: Option<i32> = None;
        let n = body.children.len();
        let mut i: usize = 0;
        assert(body.children@.take(0) =~= Seq::<Node>::empty());
        assert(st_abs(texts@, htmls@, found, oid, title, origin) =~= initial_body_state());
        while i < n
            invariant
                0 <= i <= n,
                n == body.children@.len(),
                body_fold(initial_body_state(), body.children@.take(i as int)) == Ok::<
                    BodyState,
                    ExtractionError,
                >(st_abs(texts@, htmls@, found, oid, title, origin)),
            decreases n - i,
        {
            let ghost pre = st_abs(texts@, htmls@, found, oid, title, origin);
            proof {
                lemma_fold_extend(initial_body_state(), body.children@, i as int, pre);
            }
            match &body.children[i] {
                Node::Text(t) => {
                    if found {
                        match crate::patterns::find_title(t.as_str()) {
                            Some(cap) => {
                                let mut seg: Vec<char> = Vec::new();
                                push_chars(&mut seg, "\u{30bf}\u{30a4}\u{30c8}\u{30eb}:");
                                push_char_vec(&mut seg, &cap);
                                proof {
                                    lemma_segs_push(texts@, seg);
                                }
                                texts.push(seg);
                                title = Some(cap);
                            },
                            None => {},
                        }
                    } else {
                        let mut seg: Vec<char> = Vec::new();
                        push_chars(&mut seg, t.as_str());
                        let mut h: Vec<char> = Vec::new();
                        push_encoded(&mut h, t.as_str());
                        proof {
                            lemma_segs_push(texts@, seg);
                            lemma_segs_push(htmls@, h);
                        }
                        texts.push(seg);
                        htmls.push(h);
                    }
                    assert(body_step(pre, body.children@[i as int]) == Ok::<
                        BodyState,
                        ExtractionError,
                    >(st_abs(texts@, htmls@, found, oid, title, origin)));
                },
                Node::Element(e) => {
                    if str_eq(e.name.as_str(), "a") {
                        if found {
                            match e.attr("href") {
                                None => {},
                                Some(h) => {
                                    match crate::patterns::find_fragment(h.as_str()) {
                                        None => {
                                            proof {
                                                lemma_body_fold_split(
                                                    initial_body_state(),
                                                    body.children@,
                                                    i as int + 1,
                                                );
                                            }
                                            assert(body_step(pre, body.children@[i as int]) == Err::<BodyState,
                                                ExtractionError,
                                            >(ExtractionError::BadFragmentNumber));
                                            assert(body_fold(initial_body_state(), body.children@.take(i as int + 1)) == Err::<
                                                BodyState,
                                                ExtractionError,
                                            >(ExtractionError::BadFragmentNumber));
                                            assert(body_fold(initial_body_state(), body.children@) == Err::<
                                                BodyState,
                                                ExtractionError,
                                            >(ExtractionError::BadFragmentNumber));
                                            assert(body_spec(body.children@, old(self)@) == Err::<
                                                (ResView, Option<OekakiView>),
                                                ExtractionError,
                                            >(ExtractionError::BadFragmentNumber));
                                            return Err(ExtractionError::BadFragmentNumber);
                                        },
                                        Some(cap) => {
                                            match parse_i32_chars(&cap) {
                                                None => {
                                                    proof {
                                                        lemma_body_fold_split(
                                                            initial_body_state(),
                                                            body.children@,
                                                            i as int + 1,
                                                        );
                                                    }
                                                    assert(body_step(pre, body.children@[i as int]) == Err::<BodyState,
                                                        ExtractionError,
                                                    >(ExtractionError::BadFragmentNumber));
                                                    assert(body_fold(initial_body_state(), body.children@.take(i as int + 1)) == Err::<
                                                        BodyState,
                                                        ExtractionError,
                                                    >(ExtractionError::BadFragmentNumber));
                                                    assert(body_fold(initial_body_state(), body.children@) == Err::<
                                                        BodyState,
                                                        ExtractionError,
                                                    >(ExtractionError::BadFragmentNumber));
                                                    assert(body_spec(body.children@, old(self)@) == Err::<
                                                        (ResView, Option<OekakiView>),
                                                        ExtractionError,
                                                    >(ExtractionError::BadFragmentNumber));
                                                    return Err(ExtractionError::BadFragmentNumber);
                                                },
                                                Some(v) => {
                                                    origin = Some(v);
                                                },
                                            }
                                        },
                                    }
                                },
                            }
                        } else {
                            proof {
                                reveal_strlit("auto");
                                reveal_strlit("auto-hdn");
                            }
                            let ency = e.has_class("auto") || e.has_class("auto-hdn");
                            if ency {
                                let tx = e.text();
                                let mut h: Vec<char> = Vec::new();
                                push_encoded_vec(&mut h, &tx);
                                proof {
                                    lemma_segs_push(texts@, tx);
                                    lemma_segs_push(htmls@, h);
                                }
                                texts.push(tx);
                                htmls.push(h);
                            } else {
                                let is_dic = match e.attr("class") {
                                    Some(c) => str_eq(c.as_str(), "dic"),
                                    None => false,
                                };
                                let is_blank = match e.attr("target") {
                                    Some(tg) => str_eq(tg.as_str(), "_blank"),
                                    None => false,
                                };
                                if is_dic {
                                    match e.attr("href") {
                                        None => {
                                            proof {
                                                lemma_body_fold_split(
                                                    initial_body_state(),
                                                    body.children@,
                                                    i as int + 1,
                                                );
                                            }
                                            assert(body_step(pre, body.children@[i as int]) == Err::<BodyState,
                                                ExtractionError,
                                            >(ExtractionError::MissingLinkTarget));
                                            assert(body_fold(initial_body_state(), body.children@.take(i as int + 1))
                                                == Err::<BodyState, ExtractionError>(ExtractionError::MissingLinkTarget));
                                            assert(body_fold(initial_body_state(), body.children@)
                                                == Err::<BodyState, ExtractionError>(ExtractionError::MissingLinkTarget));
                                            assert(body_spec(body.children@, old(self)@) == Err::<
                                                (ResView, Option<OekakiView>),
                                                ExtractionError,
                                            >(ExtractionError::MissingLinkTarget));
                                            assert(*self == *old(self));
                                            return Err(ExtractionError::MissingLinkTarget);
                                        },
                                        Some(h) => {
                                            let mut url: Vec<char> = Vec::new();
                                            push_chars(&mut url, "https://dic.nicovideo.jp");
                                            push_chars(&mut url, h.as_str());
                                            let pair = parse_res_body_link(e, &url);
                                            proof {
                                                lemma_segs_push(texts@, pair.0);
                                                lemma_segs_push(htmls@, pair.1);
                                            }
                                            texts.push(pair.0);
                                            htmls.push(pair.1);
                                        },
                                    }
                                } else if is_blank {
                                    match e.attr("href") {
                                        None => {
                                            proof {
                                                lemma_body_fold_split(
                                                    initial_body_state(),
                                                    body.children@,
                                                    i as int + 1,
                                                );
                                            }
                                            assert(body_step(pre, body.children@[i as int]) == Err::<BodyState,
                                                ExtractionError,
                                            >(ExtractionError::MissingLinkTarget));
                                            assert(body_fold(initial_body_state(), body.children@.take(i as int + 1)) == Err::<
                                                BodyState,
                                                ExtractionError,
                                            >(ExtractionError::MissingLinkTarget));
                                            assert(body_fold(initial_body_state(), body.children@) == Err::<
                                                BodyState,
                                                ExtractionError,
                                            >(ExtractionError::MissingLinkTarget));
                                            assert(body_spec(body.children@, old(self)@) == Err::<
                                                (ResView, Option<OekakiView>),
                                                ExtractionError,
                                            >(ExtractionError::MissingLinkTarget));
                                            return Err(ExtractionError::MissingLinkTarget);
                                        },
                                        Some(h) => {
                                            let mut url: Vec<char> = Vec::new();
                                            push_chars(&mut url, h.as_str());
                                            let pair = parse_res_body_link(e, &url);
                                            proof {
                                                lemma_segs_push(texts@, pair.0);
                                                lemma_segs_push(htmls@, pair.1);
                                            }
                                            texts.push(pair.0);
                                            htmls.push(pair.1);
                                        },
                                    }
                                }
                            }
                        }
                        assert(body_step(pre, body.children@[i as int]) == Ok::<
                            BodyState,
                            ExtractionError,
                        >(st_abs(texts@, htmls@, found, oid, title, origin)));
                    } else if str_eq(e.name.as_str(), "br") {
                        if !found {
                            let mut seg: Vec<char> = Vec::new();
                            push_chars(&mut seg, "\n");
                            let mut h: Vec<char> = Vec::new();
                            push_chars(&mut h, "<br>");
                            proof {
                                lemma_segs_push(texts@, seg);
                                lemma_segs_push(htmls@, h);
                            }
                            texts.push(seg);
                            htmls.push(h);
                        }
                        assert(body_step(pre, body.children@[i as int]) == Ok::<
                            BodyState,
                            ExtractionError,
                        >(st_abs(texts@, htmls@, found, oid, title, origin)));
                    } else if str_eq(e.name.as_str(), "iframe") {
                        let ok_break = if texts.len() == 0 || htmls.len() == 0 {
                            false
                        } else {
                            let a1 = chars_eq_str(&texts[texts.len() - 1], "\n");
                            let a2 = chars_eq_str(&htmls[htmls.len() - 1], "<br>");
                            a1 && a2
                        };
                        proof {
                            if texts@.len() > 0 {
                                lemma_segs_drop_last(texts@);
                            }
                            if htmls@.len() > 0 {
                                lemma_segs_drop_last(htmls@);
                            }
                        }
                        if !ok_break {
                            assert(!pending_break(pre.texts, pre.htmls));
                            proof {
                                lemma_body_fold_split(initial_body_state(), body.children@, i as int + 1);
                            }
                            assert(body_step(pre, body.children@[i as int]) == Err::<BodyState,
                                ExtractionError,
                            >(ExtractionError::DanglingBreakBeforeFrame));
                            assert(body_fold(initial_body_state(), body.children@.take(i as int + 1)) == Err::<
                                BodyState,
                                ExtractionError,
                            >(ExtractionError::DanglingBreakBeforeFrame));
                            assert(body_fold(initial_body_state(), body.children@) == Err::<
                                BodyState,
                                ExtractionError,
                            >(ExtractionError::DanglingBreakBeforeFrame));
                            assert(body_spec(body.children@, old(self)@) == Err::<
                                (ResView, Option<OekakiView>),
                                ExtractionError,
                            >(ExtractionError::DanglingBreakBeforeFrame));
                            return Err(ExtractionError::DanglingBreakBeforeFrame);
                        }
                        texts.pop();
                        htmls.pop();
                        assert(body_step(pre, body.children@[i as int]) == Ok::<
                            BodyState,
                            ExtractionError,
                        >(st_abs(texts@, htmls@, found, oid, title, origin)));
                    } else if str_eq(e.name.as_str(), "div") {
                        proof {
                            if texts@.len() > 0 {
                                lemma_segs_drop_last(texts@);
                            }
                            if htmls@.len() > 0 {
                                lemma_segs_drop_last(htmls@);
                            }
                        }
                        if texts.len() > 0 {
                            texts.pop();
                        }
                        if htmls.len() > 0 {
                            htmls.pop();
                        }
                        let ghost t1 = segs_view(texts@);
                        let ghost h1 = segs_view(htmls@);
                        let ok_break = if texts.len() == 0 || htmls.len() == 0 {
                            false
                        } else {
                            let a1 = chars_eq_str(&texts[texts.len() - 1], "\n");
                            let a2 = chars_eq_str(&htmls[htmls.len() - 1], "<br>");
                            a1 && a2
                        };
                        proof {
                            if texts@.len() > 0 {
                                lemma_segs_drop_last(texts@);
                            }
                            if htmls@.len() > 0 {
                                lemma_segs_drop_last(htmls@);
                            }
                        }
                        if !ok_break {
                            assert(!pending_break(t1, h1));
                            proof {
                                lemma_body_fold_split(initial_body_state(), body.children@, i as int + 1);
                            }
                            assert(body_step(pre, body.children@[i as int]) == Err::<BodyState,
                                ExtractionError,
                            >(ExtractionError::DanglingBreakBeforeDrawing));
                            assert(body_fold(initial_body_state(), body.children@.take(i as int + 1)) == Err::<
                                BodyState,
                                ExtractionError,
                            >(ExtractionError::DanglingBreakBeforeDrawing));
                            assert(body_fold(initial_body_state(), body.children@) == Err::<
                                BodyState,
                                ExtractionError,
                            >(ExtractionError::DanglingBreakBeforeDrawing));
                            assert(body_spec(body.children@, old(self)@) == Err::<
                                (ResView, Option<OekakiView>),
                                ExtractionError,
                            >(ExtractionError::DanglingBreakBeforeDrawing));
                            return Err(ExtractionError::DanglingBreakBeforeDrawing);
                        }
                        texts.pop();
                        htmls.pop();
                        match e.attr("id") {
                            None => {
                                proof {
                                    lemma_body_fold_split(initial_body_state(), body.children@, i as int + 1);
                                }
                                assert(body_step(pre, body.children@[i as int]) == Err::<BodyState,
                                    ExtractionError,
                                >(ExtractionError::MissingDrawingId));
                                assert(body_fold(initial_body_state(), body.children@.take(i as int + 1)) == Err::<
                                    BodyState,
                                    ExtractionError,
                                >(ExtractionError::MissingDrawingId));
                                assert(body_fold(initial_body_state(), body.children@) == Err::<
                                    BodyState,
                                    ExtractionError,
                                >(ExtractionError::MissingDrawingId));
                                assert(body_spec(body.children@, old(self)@) == Err::<
                                    (ResView, Option<OekakiView>),
                                    ExtractionError,
                                >(ExtractionError::MissingDrawingId));
                                return Err(ExtractionError::MissingDrawingId);
                            },
                            Some(idv) => {
                                match crate::patterns::find_oekaki_id(idv.as_str()) {
                                    None => {
                                        proof {
                                            lemma_body_fold_split(
                                                initial_body_state(),
                                                body.children@,
                                                i as int + 1,
                                            );
                                        }
                                        assert(body_step(pre, body.children@[i as int]) == Err::<BodyState,
                                            ExtractionError,
                                        >(ExtractionError::BadDrawingId));
                                        assert(body_fold(initial_body_state(), body.children@.take(i as int + 1)) == Err::<
                                            BodyState,
                                            ExtractionError,
                                        >(ExtractionError::BadDrawingId));
                                        assert(body_fold(initial_body_state(), body.children@) == Err::<
                                            BodyState,
                                            ExtractionError,
                                        >(ExtractionError::BadDrawingId));
                                        assert(body_spec(body.children@, old(self)@) == Err::<
                                            (ResView, Option<OekakiView>),
                                            ExtractionError,
                                        >(ExtractionError::BadDrawingId));
                                        return Err(ExtractionError::BadDrawingId);
                                    },
                                    Some(cap) => {
                                        match parse_i32_chars(&cap) {
                                            None => {
                                                proof {
                                                    lemma_body_fold_split(
                                                        initial_body_state(),
                                                        body.children@,
                                                        i as int + 1,
                                                    );
                                                }
                                                assert(body_step(pre, body.children@[i as int]) == Err::<BodyState,
                                                    ExtractionError,
                                                >(ExtractionError::BadDrawingId));
                                                assert(body_fold(initial_body_state(), body.children@.take(i as int + 1)) == Err::<
                                                    BodyState,
                                                    ExtractionError,
                                                >(ExtractionError::BadDrawingId));
                                                assert(body_fold(initial_body_state(), body.children@) == Err::<
                                                    BodyState,
                                                    ExtractionError,
                                                >(ExtractionError::BadDrawingId));
                                                assert(body_spec(body.children@, old(self)@) == Err::<
                                                    (ResView, Option<OekakiView>),
                                                    ExtractionError,
                                                >(ExtractionError::BadDrawingId));
                                                return Err(ExtractionError::BadDrawingId);
                                            },
                                            Some(v) => {
                                                found = true;
                                                oid = v;
                                            },
                                        }
                                    },
                                }
                            },
                        }
                        assert(body_step(pre, body.children@[i as int]) == Ok::<
                            BodyState,
                            ExtractionError,
                        >(st_abs(texts@, htmls@, found, oid, title, origin)));
                    } else {
                        assert(body_step(pre, body.children@[i as int]) == Ok::<
                            BodyState,
                            ExtractionError,
                        >(st_abs(texts@, htmls@, found, oid, title, origin)));
                    }
                },
            }
            i = i + 1;
        }
        assert(body.children@.take(n as int) =~= body.children@);
        let ghost st = st_abs(texts@, htmls@, found, oid, title, origin);
        let joined_t = join_segments(&texts);
        let trimmed_t = trim_ascii(&joined_t);
        let joined_h = join_segments(&htmls);
        let trimmed_h = trim_ascii(&joined_h);
        self.main_text = string_from_chars(&trimmed_t);
        self.main_text_html = string_from_chars(&trimmed_h);
        if found {
            self.oekaki_id = Some(oid);
            let o = Oekaki {
                oekaki_id: oid,
                oekaki_title: match title {
                    Some(v) => Some(string_from_chars(&v)),
                    None => None,
                },
                original_oekaki_res_no: origin,
            };
            assert(body_spec(body.children@, old(self)@) == Ok::<
                (ResView, Option<OekakiView>),
                ExtractionError,
            >((self@, opt_oekaki_view(Some(o)))));
            Ok(Some(o))
        } else {
            assert(body_spec(body.children@, old(self)@) == Ok::<
                (ResView, Option<OekakiView>),
                ExtractionError,
            >((self@, opt_oekaki_view(None))));
            Ok(None)
        }
    }
}

} // verus!
