//! The board: its URLs, the session token derived from its landing
//! page, and the page walk that turns one page's posts list into an
//! ordered sequence of typed records.

use vstd::prelude::*;
use vstd::string::*;
use crate::body::{body_spec, opt_oekaki_view};
use crate::dom::Node;
use crate::patterns::scan_to;
use crate::res::{empty_res_view, head_spec, ExtractionError, Oekaki, OekakiView, Res, ResView};

verus! {

/// Why the session token could not be derived from the landing page:
/// the page no longer embeds the board panel as expected. Structural,
/// never retried on its own.
#[derive(Clone, Copy, Debug, PartialEq, Eq, Structural)]
pub enum AuthExtractionError {
    /// No board panel element with a target URL on the landing page.
    MissingPanel,
    /// The panel's target URL carries no query to take the token from.
    MissingQueryValue,
}

/// One crawled board: its landing page, its id in fetch URLs, and the
/// session token, lazily populated and replaced wholesale on renewal.
#[derive(Debug)]
pub struct Board {
    pub top_bbs_url: String,
    pub bbs_id: String,
    pub hash_key: Option<String>,
}

/// The session token a panel target URL carries: the value of the
/// first query parameter, written `?key=value` or `?key=value&more`.
/// The first query segment must be non-empty; its value is what
/// follows the first `=`, or empty when the segment has none.
pub open spec fn hash_key_of_src(s: Seq<char>) -> Result<Seq<char>, AuthExtractionError> {
    let q = scan_to(s, 0, '?');
    if q >= s.len() {
        Err(AuthExtractionError::MissingQueryValue)
    } else {
        let seg_end = scan_to(s, q + 1, '&');
        if seg_end == q + 1 {
            Err(AuthExtractionError::MissingQueryValue)
        } else {
            let eq = scan_to(s, q + 1, '=');
            if eq >= seg_end {
                Ok(Seq::empty())
            } else {
                Ok(s.subrange(eq + 1, seg_end))
            }
        }
    }
}

/// Extracts the token value from a panel target URL.
pub fn hash_key_from_src(s: &str) -> (r: Result<String, AuthExtractionError>)
    ensures
        match r {
            Ok(k) => hash_key_of_src(s@) == Ok::<Seq<char>, AuthExtractionError>(k@),
            Err(e) => hash_key_of_src(s@) == Err::<Seq<char>, AuthExtractionError>(e),
        },
{
    let n = s.unicode_len();
    let q = crate::patterns::exec_scan_to(s, n, 0, '?');
    if q >= n {
        return Err(AuthExtractionError::MissingQueryValue);
    }
    let seg_end = crate::patterns::exec_scan_to(s, n, q + 1, '&');
    if seg_end == q + 1 {
        return Err(AuthExtractionError::MissingQueryValue);
    }
    let eq = crate::patterns::exec_scan_to(s, n, q + 1, '=');
    if eq >= seg_end {
        let empty: Vec<char> = Vec::new();
        assert(empty@ =~= Seq::<char>::empty());
        return Ok(crate::chars::string_from_chars(&empty));
    }
    let v = crate::chars::sub_chars(s, eq + 1, seg_end);
    Ok(crate::chars::string_from_chars(&v))
}

/// State of the page walk: the record being filled by the last head,
/// and the finished pairs so far.
#[verifier::ext_equal]
pub ghost struct PageState {
    pub cur: ResView,
    pub out: Seq<(ResView, Option<OekakiView>)>,
}

pub open spec fn initial_page_state() -> PageState {
    PageState { cur: empty_res_view(), out: Seq::empty() }
}

/// One child of the posts list: a head element populates the pending
/// record, a body element finishes it and emits the pair, anything
/// else is ignored.
pub open spec fn page_step(st: PageState, node: Node) -> Result<PageState, ExtractionError> {
    match node {
        Node::Element(e) => if e.name@ == "dt"@ {
            match head_spec(e.children@, st.cur) {
                Err(er) => Err(er),
                Ok(v) => Ok(PageState { cur: v, out: st.out }),
            }
        } else if e.name@ == "dd"@ {
            match body_spec(e.children@, st.cur) {
                Err(er) => Err(er),
                Ok(p) => Ok(PageState { cur: empty_res_view(), out: st.out.push(p) }),
            }
        } else {
            Ok(st)
        },
        Node::Text(_) => Ok(st),
    }
}

/// The page walk over the posts list's children, in document order.
pub open spec fn page_fold(st: PageState, nodes: Seq<Node>) -> Result<PageState, ExtractionError>
    decreases nodes.len(),
{
    if nodes.len() == 0 {
        Ok(st)
    } else {
        match page_step(st, nodes.first()) {
            Err(e) => Err(e),
            Ok(st2) => page_fold(st2, nodes.drop_first()),
        }
    }
}

/// The ordered pairs one page's posts list yields.
pub open spec fn page_spec(nodes: Seq<Node>) -> Result<
    Seq<(ResView, Option<OekakiView>)>,
    ExtractionError,
> {
    match page_fold(initial_page_state(), nodes) {
        Err(e) => Err(e),
        Ok(st) => Ok(st.out),
    }
}

/// The pairs one page of raw markup yields: the posts list is the
/// first `dl` element of the parsed page, and a page without one has
/// no posts.
pub open spec fn page_of_markup(html: Seq<char>) -> Result<
    Seq<(ResView, Option<OekakiView>)>,
    ExtractionError,
> {
    match crate::dom::parsed_children_of(html, "dl"@) {
        None => Ok(Seq::empty()),
        Some(doc) => page_spec(doc),
    }
}

/// The session token one landing page yields: the value carried by
/// the board panel's target URL; a page without the panel or its
/// target is a structural failure.
pub open spec fn hash_key_of_page(html: Seq<char>) -> Result<Seq<char>, AuthExtractionError> {
    match crate::dom::parsed_attr_of(html, "#community-bbs"@, "src"@) {
        None => Err(AuthExtractionError::MissingPanel),
        Some(src) => hash_key_of_src(src),
    }
}

/// View of a vector of extracted pairs.
pub open spec fn pairs_view(v: Seq<(Res, Option<Oekaki>)>) -> Seq<(ResView, Option<OekakiView>)> {
    v.map_values(|p: (Res, Option<Oekaki>)| (p.0@, opt_oekaki_view(p.1)))
}

proof fn lemma_page_fold_split(st: PageState, s: Seq<Node>, i: int)
    requires
        0 <= i <= s.len(),
    ensures
        page_fold(st, s) == (match page_fold(st, s.take(i)) {
            Err(e) => Err(e),
            Ok(m) => page_fold(m, s.skip(i)),
        }),
    decreases i,
{
    if i == 0 {
        assert(s.take(0) =~= Seq::<Node>::empty());
        assert(s.skip(0) =~= s);
    } else {
        assert(s.len() > 0);
        assert(s.take(i).first() == s.first());
        assert(s.take(i).drop_first() =~= s.drop_first().take(i - 1));
        assert(s.skip(i) =~= s.drop_first().skip(i - 1));
        match page_step(st, s.first()) {
            Err(_) => {},
            Ok(st2) => {
                lemma_page_fold_split(st2, s.drop_first(), i - 1);
            },
        }
    }
}

proof fn lemma_page_fold_extend(st0: PageState, s: Seq<Node>, i: int, pre: PageState)
    requires
        0 <= i < s.len(),
        page_fold(st0, s.take(i)) == Ok::<PageState, ExtractionError>(pre),
    ensures
        page_fold(st0, s.take(i + 1)) == page_step(pre, s[i]),
{
    lemma_page_fold_split(st0, s.take(i + 1), i);
    assert(s.take(i + 1).take(i) =~= s.take(i));
    let single = s.take(i + 1).skip(i);
    assert(single =~= seq![s[i]]);
    assert(single.first() == s[i]);
    assert(single.drop_first() =~= Seq::<Node>::empty());
    match page_step(pre, s[i]) {
        Err(_) => {},
        Ok(st2) => {
            assert(page_fold(st2, single.drop_first()) == Ok::<PageState, ExtractionError>(st2));
        },
    }
}

/// Extraction preserves document order: the walk only appends to the
/// output, so every pair already emitted keeps its place, and what a
/// longer walk emits extends what the shorter walk emitted.
pub proof fn lemma_page_emission_is_append_only(st: PageState, nodes: Seq<Node>, st2: PageState)
    requires
        page_fold(st, nodes) == Ok::<PageState, ExtractionError>(st2),
    ensures
        st2.out.len() >= st.out.len(),
        st2.out.take(st.out.len() as int) == st.out,
    decreases nodes.len(),
{
    if nodes.len() == 0 {
        assert(st2.out.take(st.out.len() as int) =~= st.out);
    } else {
        match page_step(st, nodes.first()) {
            Err(_) => {},
            Ok(mid) => {
                lemma_page_emission_is_append_only(mid, nodes.drop_first(), st2);
                assert(mid.out.take(st.out.len() as int) =~= st.out);
                assert(st2.out.take(st.out.len() as int) =~= st2.out.take(
                    mid.out.len() as int,
                ).take(st.out.len() as int));
            },
        }
    }
}

pub proof fn lemma_pairs_view_push(s: Seq<(Res, Option<Oekaki>)>, p: (Res, Option<Oekaki>))
    ensures
        pairs_view(s.push(p)) == pairs_view(s).push((p.0@, opt_oekaki_view(p.1))),
{
    assert(pairs_view(s.push(p)) =~= pairs_view(s).push((p.0@, opt_oekaki_view(p.1))));
}

impl Board {
    /// A board with no session token yet.
    pub fn new(top_bbs_url: &str, bbs_id: &str) -> (b: Board)
        ensures
            b.top_bbs_url@ == top_bbs_url@,
            b.bbs_id@ == bbs_id@,
            b.hash_key is None,
    {
        Board { top_bbs_url: top_bbs_url.to_owned(), bbs_id: bbs_id.to_owned(), hash_key: None }
    }

    /// URL of the page of up to 30 posts that starts at post number
    /// `first_res_no`.
    pub fn page_url(&self, first_res_no: i32) -> (r: String)
        requires
            first_res_no >= 0,
        ensures
            r@ == "https://dic.nicovideo.jp/b/c/"@ + self.bbs_id@ + "/"@ + crate::chars::dec_rep(
                first_res_no as int,
            ) + "-"@,
    {
        let mut out: Vec<char> = Vec::new();
        crate::chars::push_chars(&mut out, "https://dic.nicovideo.jp/b/c/");
        crate::chars::push_chars(&mut out, self.bbs_id.as_str());
        crate::chars::push_chars(&mut out, "/");
        crate::chars::push_dec(&mut out, first_res_no as u32);
        crate::chars::push_chars(&mut out, "-");
        let r = crate::chars::string_from_chars(&out);
        assert(out@ =~= "https://dic.nicovideo.jp/b/c/"@ + self.bbs_id@ + "/"@
            + crate::chars::dec_rep(first_res_no as int) + "-"@);
        r
    }

    /// Stores a freshly derived session token, replacing any old one
    /// wholesale.
    pub fn set_hash_key(&mut self, key: String)
        ensures
            final (self).hash_key == Some(key),
            final (self).top_bbs_url == old(self).top_bbs_url,
            final (self).bbs_id == old(self).bbs_id,
    {
        self.hash_key = Some(key);
    }

    /// Clears the stored token, forcing the next fetch to re-derive
    /// it.
    pub fn invalidate_hash_key(&mut self)
        ensures
            final (self).hash_key is None,
            final (self).top_bbs_url == old(self).top_bbs_url,
            final (self).bbs_id == old(self).bbs_id,
    {
        self.hash_key = None;
    }

    /// Extracts the ordered posts of one page from the children of
    /// its posts list. Order is the document's; nothing is reordered
    /// or dropped.
    pub fn extract_page(nodes: &Vec<Node>) -> (r: Result<
        Vec<(Res, Option<Oekaki>)>,
        ExtractionError,
    >)
        ensures
            match r {
                Ok(v) => page_spec(nodes@) == Ok::<
                    Seq<(ResView, Option<OekakiView>)>,
                    ExtractionError,
                >(pairs_view(v@)),
                Err(e) => page_spec(nodes@) == Err::<
                    Seq<(ResView, Option<OekakiView>)>,
                    ExtractionError,
                >(e),
            },
    {
        let mut out: Vec<(Res, Option<Oekaki>)> = Vec::new();
        let mut cur: Res = Res::default();
        let n = nodes.len();
        let mut i: usize = 0;
        assert(nodes@.take(0) =~= Seq::<Node>::empty());
        assert(pairs_view(out@) =~= Seq::<(ResView, Option<OekakiView>)>::empty());
        assert((PageState { cur: cur@, out: pairs_view(out@) }) =~= initial_page_state());
        while i < n
            invariant
                0 <= i <= n,
                n == nodes@.len(),
                page_fold(initial_page_state(), nodes@.take(i as int)) == Ok::<
                    PageState,
                    ExtractionError,
                >(PageState { cur: cur@, out: pairs_view(out@) }),
            decreases n - i,
        {
            let ghost pre = PageState { cur: cur@, out: pairs_view(out@) };
            proof {
                lemma_page_fold_extend(initial_page_state(), nodes@, i as int, pre);
            }
            match &nodes[i] {
                Node::Element(e) => {
                    if crate::chars::str_eq(e.name.as_str(), "dt") {
                        match cur.parse_res_head(e) {
                            Ok(()) => {},
                            Err(er) => {
                                assert(page_step(pre, nodes@[i as int]) == Err::<
                                    PageState,
                                    ExtractionError,
                                >(er));
                                proof {
                                    lemma_page_fold_split(initial_page_state(), nodes@, i as int + 1);
                                }
                                assert(page_spec(nodes@) == Err::<
                                    Seq<(ResView, Option<OekakiView>)>,
                                    ExtractionError,
                                >(er));
                                return Err(er);
                            },
                        }
                    } else if crate::chars::str_eq(e.name.as_str(), "dd") {
                        match cur.parse_res_body(e) {
                            Err(er) => {
                                assert(page_step(pre, nodes@[i as int]) == Err::<
                                    PageState,
                                    ExtractionError,
                                >(er));
                                proof {
                                    lemma_page_fold_split(initial_page_state(), nodes@, i as int + 1);
                                }
                                assert(page_spec(nodes@) == Err::<
                                    Seq<(ResView, Option<OekakiView>)>,
                                    ExtractionError,
                                >(er));
                                return Err(er);
                            },
                            Ok(o) => {
                                let finished = cur;
                                cur = Res::default();
                                proof {
                                    lemma_pairs_view_push(out@, (finished, o));
                                }
                                out.push((finished, o));
                            },
                        }
                    }
                },
                Node::Text(_) => {},
            }
            assert(page_step(pre, nodes@[i as int]) == Ok::<PageState, ExtractionError>(
                PageState { cur: cur@, out: pairs_view(out@) },
            ));
            i = i + 1;
        }
        assert(nodes@.take(n as int) =~= nodes@);
        Ok(out)
    }

    /// Parses one page of raw markup and extracts its posts: the page
    /// is parsed once, the posts list located, and its children walked
    /// by the verified extraction engine. A page without a posts list
    /// has no posts.
    pub fn parse_html(&self, html: &str) -> (r: Result<
        Vec<(Res, Option<Oekaki>)>,
        ExtractionError,
    >)
        ensures
            match r {
                Ok(v) => page_of_markup(html@) == Ok::<
                    Seq<(ResView, Option<OekakiView>)>,
                    ExtractionError,
                >(pairs_view(v@)),
                Err(e) => page_of_markup(html@) == Err::<
                    Seq<(ResView, Option<OekakiView>)>,
                    ExtractionError,
                >(e),
            },
    {
        match crate::dom::parse_and_find_children(html, "dl") {
            None => {
                let v: Vec<(Res, Option<Oekaki>)> = Vec::new();
                assert(pairs_view(v@) =~= Seq::<(ResView, Option<OekakiView>)>::empty());
                assert(page_of_markup(html@) == Ok::<
                    Seq<(ResView, Option<OekakiView>)>,
                    ExtractionError,
                >(pairs_view(v@)));
                Ok(v)
            },
            Some(nodes) => {
                let r = Self::extract_page(&nodes);
                proof {
                    assert(page_of_markup(html@) == page_spec(nodes@));
                }
                r
            },
        }
    }

    /// Derives the session token from the board's landing page: the
    /// board panel is located by its id, and the token is the first
    /// query parameter value of the panel's target URL.
    pub fn extract_hash_key_from_html(html: &str) -> (r: Result<String, AuthExtractionError>)
        ensures
            match r {
                Ok(k) => hash_key_of_page(html@) == Ok::<Seq<char>, AuthExtractionError>(k@),
                Err(e) => hash_key_of_page(html@) == Err::<Seq<char>, AuthExtractionError>(e),
            },
    {
        match crate::dom::parse_and_find_attr(html, "#community-bbs", "src") {
            None => Err(AuthExtractionError::MissingPanel),
            Some(src) => {
                let r = hash_key_from_src(src.as_str());
                proof {
                    assert(hash_key_of_page(html@) == hash_key_of_src(src@));
                }
                r
            },
        }
    }
}

} // verus!
