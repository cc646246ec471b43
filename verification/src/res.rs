//! Typed post records and the head parser: one post's number, display
//! name and signature, posting date (or deletion marker) and poster
//! id, extracted from the head element of a head/body pair.

use vstd::prelude::*;
use vstd::string::*;
use crate::chars::{
    all_digits,
    digits_value,
    contains_sub,
    dec_rep,
    parse_i32_digits,
    push_chars,
    push_dec,
    string_from_chars,
    str_eq,
    sub_chars,
    digits_val_at,
};
use crate::dom::{Node, Elem, attr_of, direct_text, has_class_token};
use crate::patterns::{
    datetime_match_at,
    word_run_end,
    id_match_at,
    id_capture,
};
use crate::timestamp::{Timestamp, valid_timestamp};

verus! {

/// Why a page's markup could not be extracted: the fixed dialect was
/// violated. Fatal for the page, never retried.
#[derive(Clone, Copy, Debug, PartialEq, Eq, Structural)]
pub enum ExtractionError {
    /// The head has no anchor child with a `name` attribute.
    MissingPostNumber,
    /// The anchor's `name` attribute is not a post number.
    BadPostNumber,
    /// The head does not end in a text node with date and poster id.
    MissingDateText,
    /// The date text matches neither the deletion marker nor the
    /// posting-date pattern.
    DatePatternNotFound,
    /// The posting-date fields name no real calendar date or time.
    InvalidDate,
    /// The date text holds no poster-id pattern.
    IdPatternNotFound,
    /// A dictionary or external anchor has no link target.
    MissingLinkTarget,
    /// A back-reference fragment is not a post number.
    BadFragmentNumber,
    /// An embedded frame with no line break just before it.
    DanglingBreakBeforeFrame,
    /// A drawing container with no line break just before it.
    DanglingBreakBeforeDrawing,
    /// A drawing container without an id attribute.
    MissingDrawingId,
    /// A drawing container whose id is not `oekaki` plus a number.
    BadDrawingId,
}

/// An embedded hand-drawn image attached to a post.
#[derive(Debug)]
pub struct Oekaki {
    pub oekaki_id: i32,
    pub oekaki_title: Option<String>,
    pub original_oekaki_res_no: Option<i32>,
}

/// Mathematical view of an `Oekaki`.
pub ghost struct OekakiView {
    pub oekaki_id: int,
    pub oekaki_title: Option<Seq<char>>,
    pub original_oekaki_res_no: Option<int>,
}

impl View for Oekaki {
    type V = OekakiView;

    open spec fn view(&self) -> OekakiView {
        OekakiView {
            oekaki_id: self.oekaki_id as int,
            oekaki_title: match self.oekaki_title {
                Some(t) => Some(t@),
                None => None,
            },
            original_oekaki_res_no: match self.original_oekaki_res_no {
                Some(n) => Some(n as int),
                None => None,
            },
        }
    }
}

/// One structured forum post.
#[derive(Debug)]
pub struct Res {
    /// Post number: positive, unique, assigned by the board.
    pub no: i32,
    /// Display name and signature, space-separated.
    pub name_and_trip: String,
    /// Parsed posting time; absent when the post was deleted.
    pub datetime: Option<Timestamp>,
    /// Raw display timestamp including the weekday, or the deletion
    /// marker.
    pub datetime_text: String,
    /// Poster identifier.
    pub id: String,
    /// Plain-text body for search.
    pub main_text: String,
    /// Sanitized HTML body for display.
    pub main_text_html: String,
    /// Drawing id when the post owns an embedded drawing.
    pub oekaki_id: Option<i32>,
}

/// Mathematical view of a `Res`.
pub ghost struct ResView {
    pub no: int,
    pub name_and_trip: Seq<char>,
    pub datetime: Option<Timestamp>,
    pub datetime_text: Seq<char>,
    pub id: Seq<char>,
    pub main_text: Seq<char>,
    pub main_text_html: Seq<char>,
    pub oekaki_id: Option<int>,
}

impl View for Res {
    type V = ResView;

    open spec fn view(&self) -> ResView {
        ResView {
            no: self.no as int,
            name_and_trip: self.name_and_trip@,
            datetime: self.datetime,
            datetime_text: self.datetime_text@,
            id: self.id@,
            main_text: self.main_text@,
            main_text_html: self.main_text_html@,
            oekaki_id: match self.oekaki_id {
                Some(n) => Some(n as int),
                None => None,
            },
        }
    }
}

/// The view of a freshly created, still empty post.
pub open spec fn empty_res_view() -> ResView {
    ResView {
        no: 0,
        name_and_trip: Seq::empty(),
        datetime: None,
        datetime_text: Seq::empty(),
        id: Seq::empty(),
        main_text: Seq::empty(),
        main_text_html: Seq::empty(),
        oekaki_id: None,
    }
}

impl Default for Res {
    /// A fresh post with no fields populated yet.
    fn default() -> (r: Res)
        ensures
            r@ == empty_res_view(),
    {
        let r = Res {
            no: 0,
            name_and_trip: String::new(),
            datetime: None,
            datetime_text: String::new(),
            id: String::new(),
            main_text: String::new(),
            main_text_html: String::new(),
            oekaki_id: None,
        };
        assert(r@ =~= empty_res_view());
        r
    }
}

impl Clone for Res {
    /// An identical copy of the record.
    fn clone(&self) -> (r: Res)
        ensures
            r == *self,
    {
        Res {
            no: self.no,
            name_and_trip: self.name_and_trip.clone(),
            datetime: self.datetime,
            datetime_text: self.datetime_text.clone(),
            id: self.id.clone(),
            main_text: self.main_text.clone(),
            main_text_html: self.main_text_html.clone(),
            oekaki_id: self.oekaki_id,
        }
    }
}

impl Clone for Oekaki {
    /// An identical copy of the record.
    fn clone(&self) -> (r: Oekaki)
        ensures
            r == *self,
    {
        Oekaki {
            oekaki_id: self.oekaki_id,
            oekaki_title: match &self.oekaki_title {
                Some(t) => Some(t.clone()),
                None => None,
            },
            original_oekaki_res_no: self.original_oekaki_res_no,
        }
    }
}

impl Oekaki {
    /// URL of the drawing's raw image on the board, from the board id
    /// and the drawing id.
    pub fn get_url(&self, bbs_id: &str) -> (r: String)
        requires
            self.oekaki_id >= 0,
        ensures
            r@ == "https://dic.nicovideo.jp/b/c/"@ + bbs_id@ + "/oekaki/"@ + dec_rep(
                self.oekaki_id as int,
            ) + ".png"@,
    {
        let mut out: Vec<char> = Vec::new();
        push_chars(&mut out, "https://dic.nicovideo.jp/b/c/");
        push_chars(&mut out, bbs_id);
        push_chars(&mut out, "/oekaki/");
        push_dec(&mut out, self.oekaki_id as u32);
        push_chars(&mut out, ".png");
        let r = string_from_chars(&out);
        assert(out@ =~= "https://dic.nicovideo.jp/b/c/"@ + bbs_id@ + "/oekaki/"@ + dec_rep(
            self.oekaki_id as int,
        ) + ".png"@);
        r
    }
}

/// First element child named `name`, in document order.
pub open spec fn first_elem_named(children: Seq<Node>, name: Seq<char>) -> Option<Elem>
    decreases children.len(),
{
    if children.len() == 0 {
        None
    } else {
        match children[0] {
            Node::Element(e) => if e.name@ == name {
                Some(e)
            } else {
                first_elem_named(children.drop_first(), name)
            },
            Node::Text(_) => first_elem_named(children.drop_first(), name),
        }
    }
}

/// The element is a span whose class list holds the token `cls`.
pub open spec fn span_class_matches(e: Elem, cls: Seq<char>) -> bool {
    e.name@ == "span"@ && match attr_of(e.attrs@, "class"@) {
        Some(s) => has_class_token(s, cls),
        None => false,
    }
}

/// First span child whose class list holds the token `cls`.
pub open spec fn first_span_with_class(children: Seq<Node>, cls: Seq<char>) -> Option<Elem>
    decreases children.len(),
{
    if children.len() == 0 {
        None
    } else {
        match children[0] {
            Node::Element(e) => if span_class_matches(e, cls) {
                Some(e)
            } else {
                first_span_with_class(children.drop_first(), cls)
            },
            Node::Text(_) => first_span_with_class(children.drop_first(), cls),
        }
    }
}

/// Start of the leftmost posting-date match at or after `j`
/// (`s.len()` when there is none).
pub open spec fn first_datetime_at(s: Seq<char>, j: int) -> int
    decreases s.len() - j,
{
    if j < 0 || j >= s.len() {
        s.len() as int
    } else if datetime_match_at(s, j) {
        j
    } else {
        first_datetime_at(s, j + 1)
    }
}

/// Start of the leftmost poster-id match at or after `j` (`s.len()`
/// when there is none).
pub open spec fn first_id_at(s: Seq<char>, j: int) -> int
    decreases s.len() - j,
{
    if j < 0 || j >= s.len() {
        s.len() as int
    } else if id_match_at(s, j) {
        j
    } else {
        first_id_at(s, j + 1)
    }
}

/// The deletion marker the board writes in place of the date of a
/// deleted post.
pub open spec fn deletion_marker() -> Seq<char> {
    "\u{524a}\u{9664}\u{3057}\u{307e}\u{3057}\u{305f}"@
}

/// The post number the head yields: the first anchor child's `name`
/// attribute, as a decimal number.
pub open spec fn head_no(children: Seq<Node>) -> Result<int, ExtractionError> {
    match first_elem_named(children, "a"@) {
        None => Err(ExtractionError::MissingPostNumber),
        Some(a) => match attr_of(a.attrs@, "name"@) {
            None => Err(ExtractionError::MissingPostNumber),
            Some(nm) => if nm.len() >= 1 && all_digits(nm) && digits_value(nm) <= i32::MAX {
                Ok(digits_value(nm))
            } else {
                Err(ExtractionError::BadPostNumber)
            },
        },
    }
}

/// The display name and signature the head appends: the first `name`
/// span's text, then a space and the first `trip` span's text.
pub open spec fn head_name_and_trip(children: Seq<Node>, prev: Seq<char>) -> Seq<char> {
    let with_name = match first_span_with_class(children, "name"@) {
        Some(sp) => prev + direct_text(sp.children@),
        None => prev,
    };
    match first_span_with_class(children, "trip"@) {
        Some(sp) => with_name + seq![' '] + direct_text(sp.children@),
        None => with_name,
    }
}

/// The trailing free-text node of the head, which carries date and
/// poster id.
pub open spec fn head_date_text(children: Seq<Node>) -> Result<Seq<char>, ExtractionError> {
    if children.len() == 0 {
        Err(ExtractionError::MissingDateText)
    } else {
        match children.last() {
            Node::Text(t) => Ok(t@),
            Node::Element(_) => Err(ExtractionError::MissingDateText),
        }
    }
}

/// Parsed timestamp and raw display text from the date text: the
/// deletion marker when present; otherwise the leftmost posting-date
/// match, weekday kept in the display text and dropped from the
/// parsed value.
pub open spec fn head_datetime(dt: Seq<char>) -> Result<
    (Option<Timestamp>, Seq<char>),
    ExtractionError,
> {
    if contains_sub(dt, deletion_marker()) {
        Ok((None, deletion_marker()))
    } else {
        let m = first_datetime_at(dt, 0);
        if m >= dt.len() {
            Err(ExtractionError::DatePatternNotFound)
        } else {
            let w = word_run_end(dt, m + 11);
            let ts = Timestamp {
                year: digits_value(dt.subrange(m, m + 4)) as u32,
                month: digits_value(dt.subrange(m + 5, m + 7)) as u32,
                day: digits_value(dt.subrange(m + 8, m + 10)) as u32,
                hour: digits_value(dt.subrange(w + 2, w + 4)) as u32,
                minute: digits_value(dt.subrange(w + 5, w + 7)) as u32,
                second: digits_value(dt.subrange(w + 8, w + 10)) as u32,
            };
            if valid_timestamp(ts) {
                Ok((Some(ts), dt.subrange(m, w + 10)))
            } else {
                Err(ExtractionError::InvalidDate)
            }
        }
    }
}

/// Poster id from the date text: the leftmost poster-id capture.
pub open spec fn head_poster_id(dt: Seq<char>) -> Result<Seq<char>, ExtractionError> {
    let m = first_id_at(dt, 0);
    if m >= dt.len() {
        Err(ExtractionError::IdPatternNotFound)
    } else {
        Ok(id_capture(dt, m))
    }
}

/// What parsing a head element does to a post record: populates
/// number, name, timestamp and poster id; body fields are untouched.
pub open spec fn head_spec(children: Seq<Node>, prev: ResView) -> Result<
    ResView,
    ExtractionError,
> {
    match head_no(children) {
        Err(e) => Err(e),
        Ok(no) => match head_date_text(children) {
            Err(e) => Err(e),
            Ok(dt) => match head_datetime(dt) {
                Err(e) => Err(e),
                Ok(parsed) => match head_poster_id(dt) {
                    Err(e) => Err(e),
                    Ok(pid) => Ok(
                        ResView {
                            no: no,
                            name_and_trip: head_name_and_trip(children, prev.name_and_trip),
                            datetime: parsed.0,
                            datetime_text: parsed.1,
                            id: pid,
                            main_text: prev.main_text,
                            main_text_html: prev.main_text_html,
                            oekaki_id: prev.oekaki_id,
                        },
                    ),
                },
            },
        },
    }
}

/// First element child named `name`, by scan.
fn find_first_elem<'a>(children: &'a Vec<Node>, name: &str) -> (r: Option<&'a Elem>)
    ensures
        match r {
            Some(e) => first_elem_named(children@, name@) == Some(*e),
            None => first_elem_named(children@, name@) is None,
        },
{
    let n = children.len();
    let mut i: usize = 0;
    assert(children@.skip(0) =~= children@);
    while i < n
        invariant
            0 <= i <= n,
            n == children@.len(),
            first_elem_named(children@, name@) == first_elem_named(
                children@.skip(i as int),
                name@,
            ),
        decreases n - i,
    {
        assert(children@.skip(i as int)[0] == children@[i as int]);
        assert(children@.skip(i as int).drop_first() =~= children@.skip(i as int + 1));
        match &children[i] {
            Node::Element(e) => {
                if str_eq(e.name.as_str(), name) {
                    return Some(e);
                }
            },
            Node::Text(_) => {},
        }
        i = i + 1;
    }
    assert(children@.skip(n as int) =~= Seq::<Node>::empty());
    None
}

/// First span child whose class list holds `cls`, by scan.
fn find_first_span_class<'a>(children: &'a Vec<Node>, cls: &str) -> (r: Option<&'a Elem>)
    requires
        cls@.len() >= 1,
    ensures
        match r {
            Some(e) => first_span_with_class(children@, cls@) == Some(*e),
            None => first_span_with_class(children@, cls@) is None,
        },
{
    let n = children.len();
    let mut i: usize = 0;
    assert(children@.skip(0) =~= children@);
    while i < n
        invariant
            0 <= i <= n,
            n == children@.len(),
            cls@.len() >= 1,
            first_span_with_class(children@, cls@) == first_span_with_class(
                children@.skip(i as int),
                cls@,
            ),
        decreases n - i,
    {
        assert(children@.skip(i as int)[0] == children@[i as int]);
        assert(children@.skip(i as int).drop_first() =~= children@.skip(i as int + 1));
        match &children[i] {
            Node::Element(e) => {
                if str_eq(e.name.as_str(), "span") {
                    if e.has_class(cls) {
                        return Some(e);
                    }
                }
            },
            Node::Text(_) => {},
        }
        i = i + 1;
    }
    assert(children@.skip(n as int) =~= Seq::<Node>::empty());
    None
}

proof fn lemma_first_datetime_found(s: Seq<char>, m: int, k: int)
    requires
        0 <= k <= m < s.len(),
        datetime_match_at(s, m),
        forall|j: int| k <= j < m ==> !datetime_match_at(s, j),
    ensures
        first_datetime_at(s, k) == m,
    decreases m - k,
{
    if k < m {
        lemma_first_datetime_found(s, m, k + 1);
    }
}

proof fn lemma_first_datetime_none(s: Seq<char>, k: int)
    requires
        0 <= k <= s.len(),
        forall|j: int| !datetime_match_at(s, j),
    ensures
        first_datetime_at(s, k) == s.len(),
    decreases s.len() - k,
{
    if k < s.len() {
        lemma_first_datetime_none(s, k + 1);
    }
}

proof fn lemma_first_id_found(s: Seq<char>, m: int, k: int)
    requires
        0 <= k <= m < s.len(),
        id_match_at(s, m),
        forall|j: int| k <= j < m ==> !id_match_at(s, j),
    ensures
        first_id_at(s, k) == m,
    decreases m - k,
{
    if k < m {
        lemma_first_id_found(s, m, k + 1);
    }
}

proof fn lemma_first_id_none(s: Seq<char>, k: int)
    requires
        0 <= k <= s.len(),
        forall|j: int| !id_match_at(s, j),
    ensures
        first_id_at(s, k) == s.len(),
    decreases s.len() - k,
{
    if k < s.len() {
        lemma_first_id_none(s, k + 1);
    }
}

/// A deleted post: when the head's trailing date text contains the
/// deletion marker, the extracted record's parsed timestamp is absent
/// and its raw display text is exactly the marker, whatever else the
/// text holds.
pub proof fn lemma_deletion_marker(children: Seq<Node>, prev: ResView, dt: Seq<char>, v: ResView)
    requires
        head_date_text(children) == Ok::<Seq<char>, ExtractionError>(dt),
        contains_sub(dt, deletion_marker()),
        head_spec(children, prev) == Ok::<ResView, ExtractionError>(v),
    ensures
        v.datetime is None,
        v.datetime_text == deletion_marker(),
{
}

impl Res {
    /// Populates number, display name, timestamp and poster id from
    /// the children of one head element. On an error the record is
    /// unchanged and the page must be abandoned.
    pub fn parse_res_head(&mut self, head: &Elem) -> (r: Result<(), ExtractionError>)
        ensures
            match r {
                Ok(()) => head_spec(head.children@, old(self)@) == Ok::<ResView, ExtractionError>(final (self)@),
                Err(e) => head_spec(head.children@, old(self)@) == Err::<ResView, ExtractionError>(e) && *final (self)
                    == *old(self),
            },
    {
        let children = &head.children;
        // post number
        let no: i32;
        match find_first_elem(children, "a") {
            None => {
                return Err(ExtractionError::MissingPostNumber);
            },
            Some(a) => {
                match a.attr("name") {
                    None => {
                        return Err(ExtractionError::MissingPostNumber);
                    },
                    Some(nm) => {
                        match parse_i32_digits(nm.as_str()) {
                            None => {
                                return Err(ExtractionError::BadPostNumber);
                            },
                            Some(v) => {
                                no = v;
                            },
                        }
                    },
                }
            },
        }
        assert(head_no(children@) == Ok::<int, ExtractionError>(no as int));
        // trailing date text
        let dt: &String;
        if children.len() == 0 {
            return Err(ExtractionError::MissingDateText);
        }
        match &children[children.len() - 1] {
            Node::Text(t) => {
                assert(children@.last() == children@[children@.len() - 1]);
                dt = t;
            },
            Node::Element(_) => {
                return Err(ExtractionError::MissingDateText);
            },
        }
        assert(head_date_text(children@) == Ok::<Seq<char>, ExtractionError>(dt@));
        // deletion marker, or posting date with weekday
        let datetime: Option<Timestamp>;
        let datetime_text: Vec<char>;
        match crate::chars::find_first(
            dt.as_str(),
            "\u{524a}\u{9664}\u{3057}\u{307e}\u{3057}\u{305f}",
        ) {
            Some(_) => {
                datetime = None;
                let mut marker: Vec<char> = Vec::new();
                push_chars(&mut marker, "\u{524a}\u{9664}\u{3057}\u{307e}\u{3057}\u{305f}");
                datetime_text = marker;
                assert(head_datetime(dt@) == Ok::<_, ExtractionError>(
                    (None::<Timestamp>, deletion_marker()),
                ));
            },
            None => {
                assert(!contains_sub(dt@, deletion_marker()));
                match crate::patterns::find_datetime(dt.as_str()) {
                    None => {
                        proof {
                            lemma_first_datetime_none(dt@, 0);
                        }
                        return Err(ExtractionError::DatePatternNotFound);
                    },
                    Some(p) => {
                        let m = p.0;
                        let w = p.1;
                        proof {
                            lemma_first_datetime_found(dt@, m as int, 0);
                        }
                        let n = dt.as_str().unicode_len();
                        let year = digits_val_at(dt.as_str(), n, m, m + 4);
                        let month = digits_val_at(dt.as_str(), n, m + 5, m + 7);
                        let day = digits_val_at(dt.as_str(), n, m + 8, m + 10);
                        let hour = digits_val_at(dt.as_str(), n, w + 2, w + 4);
                        let minute = digits_val_at(dt.as_str(), n, w + 5, w + 7);
                        let second = digits_val_at(dt.as_str(), n, w + 8, w + 10);
                        match Timestamp::new_checked(year, month, day, hour, minute, second) {
                            None => {
                                return Err(ExtractionError::InvalidDate);
                            },
                            Some(ts) => {
                                datetime = Some(ts);
                                datetime_text = sub_chars(dt.as_str(), m, w + 10);
                            },
                        }
                    },
                }
            },
        }
        // poster id
        let pid: Vec<char>;
        match crate::patterns::find_poster_id(dt.as_str()) {
            None => {
                proof {
                    lemma_first_id_none(dt@, 0);
                }
                return Err(ExtractionError::IdPatternNotFound);
            },
            Some(v) => {
                proof {
                    let i = choose|i: int|
                        #[trigger] id_match_at(dt@, i) && v@ == id_capture(dt@, i) && forall|
                            j: int,
                        | 0 <= j < i ==> !id_match_at(dt@, j);
                    crate::patterns::lemma_space_run_bounds(dt@, i + 3);
                    crate::patterns::lemma_id_run_bounds(
                        dt@,
                        crate::patterns::space_run_end(dt@, i + 3),
                    );
                    lemma_first_id_found(dt@, i, 0);
                }
                pid = v;
            },
        }
        // display name and signature
        let mut nt: Vec<char> = Vec::new();
        push_chars(&mut nt, self.name_and_trip.as_str());
        proof {
            reveal_strlit("name");
            reveal_strlit("trip");
        }
        match find_first_span_class(children, "name") {
            Some(sp) => {
                let mut t = sp.text();
                crate::chars::push_char_vec(&mut nt, &t);
            },
            None => {},
        }
        match find_first_span_class(children, "trip") {
            Some(sp) => {
                nt.push(' ');
                let t = sp.text();
                crate::chars::push_char_vec(&mut nt, &t);
            },
            None => {},
        }
        assert(nt@ =~= head_name_and_trip(children@, old(self)@.name_and_trip));
        self.no = no;
        self.name_and_trip = string_from_chars(&nt);
        self.datetime = datetime;
        self.datetime_text = string_from_chars(&datetime_text);
        self.id = string_from_chars(&pid);
        assert(head_spec(head.children@, old(self)@) == Ok::<ResView, ExtractionError>(self@));
        Ok(())
    }
}

} // verus!
