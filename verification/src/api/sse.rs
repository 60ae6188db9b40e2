//! Server-sent events: a byte-level decoder for streamed chat completions.
//!
//! Lines end at `\n`, `\r` or `\r\n`; a `\r\n` pair split across two chunks
//! still counts as one line end. A blank line dispatches the pending `data:`
//! payload, a `: ` line is a comment, and `data: [DONE]` ends the stream.

use vstd::prelude::*;
use vstd::utf8::*;
use crate::text::{trim, trim_bounds};

verus! {

/// A decoded server-sent event.
#[derive(Debug)]
pub enum Sse {
    /// A data event with the payload of its `data:` line.
    Event(String),
    /// A comment line (`: ...`).
    Comment(String),
    /// The terminal `[DONE]` sentinel: the stream stops after it.
    Done,
}

/// What an [`Sse`] holds, as plain text.
pub enum SseView {
    Event(Seq<char>),
    Comment(Seq<char>),
    Done,
}

impl View for Sse {
    type V = SseView;

    open spec fn view(&self) -> SseView {
        match self {
            Sse::Event(s) => SseView::Event(s@),
            Sse::Comment(s) => SseView::Comment(s@),
            Sse::Done => SseView::Done,
        }
    }
}

/// A line of the stream that is not UTF-8.
#[derive(Clone, Copy, Debug, PartialEq, Eq, Structural)]
pub enum SseError {
    InvalidUtf8,
}

/// One item that the decoder hands out.
pub type SseItem = Result<Sse, SseError>;

pub type SseItemView = Result<SseView, SseError>;

pub open spec fn item_view(r: SseItem) -> SseItemView {
    match r {
        Ok(e) => Ok(e@),
        Err(e) => Err(e),
    }
}

pub open spec fn items_view(v: Seq<SseItem>) -> Seq<SseItemView> {
    v.map_values(|r: SseItem| item_view(r))
}

pub open spec fn opt_string_view(o: Option<String>) -> Option<Seq<char>> {
    match o {
        Some(s) => Some(s@),
        None => None,
    }
}

pub open spec fn data_prefix() -> Seq<char> {
    seq!['d', 'a', 't', 'a', ':', ' ']
}

pub open spec fn comment_prefix() -> Seq<char> {
    seq![':', ' ']
}

pub open spec fn done_marker() -> Seq<char> {
    seq!['[', 'D', 'O', 'N', 'E', ']']
}

pub open spec fn has_prefix(s: Seq<char>, p: Seq<char>) -> bool {
    s.len() >= p.len() && s.take(p.len() as int) =~= p
}

/// What one complete line does: the new pending payload, and the item it
/// hands out, if any.
pub open spec fn spec_process_line(line: Seq<u8>, pending: Option<Seq<char>>) -> (
    Option<Seq<char>>,
    Option<SseItemView>,
) {
    if line.len() == 0 {
        match pending {
            Some(d) => (None, Some(Ok(SseView::Event(d)))),
            None => (None, None),
        }
    } else if !valid_utf8(line) {
        (pending, Some(Err(SseError::InvalidUtf8)))
    } else {
        let s = decode_utf8(line);
        if has_prefix(s, data_prefix()) {
            let data = s.skip(6);
            if trim(data) =~= done_marker() {
                (pending, Some(Ok(SseView::Done)))
            } else if data.len() > 0 {
                (Some(data), None)
            } else {
                (pending, None)
            }
        } else if has_prefix(s, comment_prefix()) {
            (pending, Some(Ok(SseView::Comment(s.skip(2)))))
        } else {
            (pending, None)
        }
    }
}

/// The decoder's state as plain values.
pub struct SseState {
    /// Bytes of the line read so far.
    pub line: Seq<u8>,
    /// Payload of the last `data:` line not yet dispatched.
    pub pending: Option<Seq<char>>,
    /// The last byte was `\r`, so a `\n` right after it ends no line.
    pub cr: bool,
    /// `[DONE]` or an error was handed out: the stream is over.
    pub finished: bool,
}

pub open spec fn initial_state() -> SseState {
    SseState { line: seq![], pending: None, cr: false, finished: false }
}

pub open spec fn ends_stream(item: Option<SseItemView>) -> bool {
    match item {
        Some(Ok(SseView::Done)) => true,
        Some(Err(_)) => true,
        _ => false,
    }
}

pub open spec fn opt_seq(item: Option<SseItemView>) -> Seq<SseItemView> {
    match item {
        Some(x) => seq![x],
        None => seq![],
    }
}

/// Ends the current line: dispatches it, and sets the flag for a following `\n`.
pub open spec fn spec_end_line(st: SseState, cr: bool) -> (SseState, Seq<SseItemView>) {
    let (p, item) = spec_process_line(st.line, st.pending);
    (SseState { line: seq![], pending: p, cr: cr, finished: ends_stream(item) }, opt_seq(item))
}

/// What one byte does to the decoder.
pub open spec fn spec_step(st: SseState, b: u8) -> (SseState, Seq<SseItemView>) {
    if st.finished {
        (st, seq![])
    } else if b == 13 {
        spec_end_line(st, true)
    } else if b == 10 && st.cr {
        (SseState { line: st.line, pending: st.pending, cr: false, finished: st.finished }, seq![])
    } else if b == 10 {
        spec_end_line(st, false)
    } else {
        (
            SseState { line: st.line.push(b), pending: st.pending, cr: false, finished: st.finished },
            seq![],
        )
    }
}

/// What a run of bytes does to the decoder, byte by byte.
pub open spec fn spec_feed(st: SseState, bytes: Seq<u8>) -> (SseState, Seq<SseItemView>)
    decreases bytes.len(),
{
    if bytes.len() == 0 {
        (st, seq![])
    } else {
        let (s1, e1) = spec_feed(st, bytes.drop_last());
        let (s2, e2) = spec_step(s1, bytes.last());
        (s2, e1 + e2)
    }
}

/// Decodes a stream of bytes into server-sent events, one chunk at a time.
pub struct SseDecoder {
    current_line: Vec<u8>,
    pending_data: Option<String>,
    last_char_was_cr: bool,
    finished: bool,
}

impl View for SseDecoder {
    type V = SseState;

    closed spec fn view(&self) -> SseState {
        SseState {
            line: self.current_line@,
            pending: opt_string_view(self.pending_data),
            cr: self.last_char_was_cr,
            finished: self.finished,
        }
    }
}

/// `std::str::from_utf8`, its text copied into a `String`. The contract
/// claims what std documents: it succeeds exactly on valid UTF-8, and then
/// holds the characters the bytes encode.
#[verifier::external_body]
fn utf8_to_string(bytes: &[u8]) -> (res: Option<String>)
    ensures
        res is Some <==> valid_utf8(bytes@),
        res matches Some(s) ==> s@ == decode_utf8(bytes@),
{
    std::str::from_utf8(bytes).ok().map(|s| s.to_string())
}

fn starts_with_data(s: &str) -> (b: bool)
    ensures
        b == has_prefix(s@, data_prefix()),
{
    let len = s.unicode_len();
    if len < 6 {
        return false;
    }
    let b = s.get_char(0) == 'd' && s.get_char(1) == 'a' && s.get_char(2) == 't' && s.get_char(3)
        == 'a' && s.get_char(4) == ':' && s.get_char(5) == ' ';
    proof {
        let t = s@.take(6);
        if !b {
            assert(t[0] != data_prefix()[0] || t[1] != data_prefix()[1] || t[2] != data_prefix()[2]
                || t[3] != data_prefix()[3] || t[4] != data_prefix()[4] || t[5]
                != data_prefix()[5]);
        }
    }
    b
}

fn starts_with_comment(s: &str) -> (b: bool)
    ensures
        b == has_prefix(s@, comment_prefix()),
{
    let len = s.unicode_len();
    if len < 2 {
        return false;
    }
    let b = s.get_char(0) == ':' && s.get_char(1) == ' ';
    proof {
        let t = s@.take(2);
        if !b {
            assert(t[0] != comment_prefix()[0] || t[1] != comment_prefix()[1]);
        }
    }
    b
}

fn is_done_marker(s: &str) -> (b: bool)
    ensures
        b == (trim(s@) =~= done_marker()),
{
    let (lo, hi) = trim_bounds(s);
    if hi - lo != 6 {
        return false;
    }
    let ghost t = s@.subrange(lo as int, hi as int);
    let b = s.get_char(lo) == '[' && s.get_char(lo + 1) == 'D' && s.get_char(lo + 2) == 'O'
        && s.get_char(lo + 3) == 'N' && s.get_char(lo + 4) == 'E' && s.get_char(lo + 5) == ']';
    proof {
        if !b {
            assert(t[0] != done_marker()[0] || t[1] != done_marker()[1] || t[2] != done_marker()[2]
                || t[3] != done_marker()[3] || t[4] != done_marker()[4] || t[5]
                != done_marker()[5]);
        }
    }
    b
}

pub open spec fn result_view(res: Result<Option<Sse>, SseError>) -> Option<SseItemView> {
    match res {
        Ok(Some(e)) => Some(Ok(e@)),
        Ok(None) => None,
        Err(e) => Some(Err(e)),
    }
}

/// Processes one complete line: dispatches the pending payload on a blank
/// line, records a `data:` payload, reports a comment or the `[DONE]` sentinel.
pub fn process_line(line: &[u8], pending_data: &mut Option<String>) -> (res: Result<
    Option<Sse>,
    SseError,
>)
    ensures
        ({
            let (p, item) = spec_process_line(line@, opt_string_view(*old(pending_data)));
            opt_string_view(*final(pending_data)) == p && result_view(res) == item
        }),
{
    if line.len() == 0 {
        return match pending_data.take() {
            Some(data) => Ok(Some(Sse::Event(data))),
            None => Ok(None),
        };
    }
    let s = match utf8_to_string(line) {
        Some(s) => s,
        None => {
            return Err(SseError::InvalidUtf8);
        },
    };
    let ss = s.as_str();
    if starts_with_data(ss) {
        let len = ss.unicode_len();
        let data = ss.substring_char(6, len);
        assert(data@ =~= s@.skip(6));
        if is_done_marker(data) {
            return Ok(Some(Sse::Done));
        }
        if len > 6 {
            *pending_data = Some(data.to_owned());
        }
        Ok(None)
    } else if starts_with_comment(ss) {
        let len = ss.unicode_len();
        let comment = ss.substring_char(2, len);
        assert(comment@ =~= s@.skip(2));
        Ok(Some(Sse::Comment(comment.to_owned())))
    } else {
        Ok(None)
    }
}

impl SseDecoder {
    pub fn new() -> (d: SseDecoder)
        ensures
            d@ == initial_state(),
    {
        SseDecoder {
            current_line: Vec::new(),
            pending_data: None,
            last_char_was_cr: false,
            finished: false,
        }
    }

    /// The stream has ended with `[DONE]` or an error.
    pub fn is_finished(&self) -> (b: bool)
        ensures
            b == self@.finished,
    {
        self.finished
    }

    fn end_line(&mut self, cr: bool, out: &mut Vec<SseItem>)
        ensures
            final(self)@ == spec_end_line(old(self)@, cr).0,
            items_view(final(out)@) == items_view(old(out)@) + spec_end_line(old(self)@, cr).1,
    {
        let res = process_line(self.current_line.as_slice(), &mut self.pending_data);
        self.current_line.clear();
        self.last_char_was_cr = cr;
        let ghost before = out@;
        match res {
            Ok(Some(e)) => {
                let done = match e {
                    Sse::Done => true,
                    _ => false,
                };
                out.push(Ok(e));
                self.finished = done;
            },
            Ok(None) => {
                self.finished = false;
            },
            Err(e) => {
                out.push(Err(e));
                self.finished = true;
            },
        }
        assert(items_view(out@) =~= items_view(before) + spec_end_line(old(self)@, cr).1);
    }

    fn push_byte(&mut self, b: u8, out: &mut Vec<SseItem>)
        ensures
            final(self)@ == spec_step(old(self)@, b).0,
            items_view(final(out)@) == items_view(old(out)@) + spec_step(old(self)@, b).1,
    {
        if self.finished {
            assert(items_view(out@) =~= items_view(out@) + Seq::<SseItemView>::empty());
            return;
        }
        if b == 13 {
            self.end_line(true, out);
        } else if b == 10 && self.last_char_was_cr {
            self.last_char_was_cr = false;
            assert(items_view(out@) =~= items_view(out@) + Seq::<SseItemView>::empty());
        } else if b == 10 {
            self.end_line(false, out);
        } else {
            self.last_char_was_cr = false;
            self.current_line.push(b);
            assert(items_view(out@) =~= items_view(out@) + Seq::<SseItemView>::empty());
        }
    }

    /// Feeds one chunk of the byte stream and returns the items it completes,
    /// in order. After `[DONE]` or an error, further bytes are ignored.
    pub fn feed(&mut self, chunk: &[u8]) -> (items: Vec<SseItem>)
        ensures
            (final(self)@, items_view(items@)) == spec_feed(old(self)@, chunk@),
    {
        let mut out: Vec<SseItem> = Vec::new();
        let ghost start = self@;
        let mut i: usize = 0;
        assert(chunk@.take(0) =~= Seq::<u8>::empty());
        assert(items_view(out@) =~= Seq::<SseItemView>::empty());
        while i < chunk.len()
            invariant
                i <= chunk@.len(),
                (self@, items_view(out@)) == spec_feed(start, chunk@.take(i as int)),
            decreases chunk@.len() - i,
        {
            assert(chunk@.take(i + 1).drop_last() =~= chunk@.take(i as int));
            self.push_byte(chunk[i], &mut out);
            i = i + 1;
        }
        assert(chunk@.take(i as int) =~= chunk@);
        out
    }
}


/// No byte ends a line.
pub open spec fn no_line_breaks(bytes: Seq<u8>) -> bool {
    forall|i: int| 0 <= i < bytes.len() ==> #[trigger] bytes[i] != 10u8 && bytes[i] != 13u8
}

/// Chunking does not matter: feeding `a` and then `b` hands out the same
/// items and leaves the same state as feeding `a + b` at once, whether or not
/// a `\r\n` pair is split between the two chunks.
pub proof fn lemma_feed_concat(st: SseState, a: Seq<u8>, b: Seq<u8>)
    ensures
        ({
            let (s1, e1) = spec_feed(st, a);
            let (s2, e2) = spec_feed(s1, b);
            spec_feed(st, a + b) == (s2, e1 + e2)
        }),
    decreases b.len(),
{
    if b.len() == 0 {
        assert(a + b =~= a);
        let (s1, e1) = spec_feed(st, a);
        assert(e1 + Seq::<SseItemView>::empty() =~= e1);
    } else {
        assert((a + b).drop_last() =~= a + b.drop_last());
        assert((a + b).last() == b.last());
        lemma_feed_concat(st, a, b.drop_last());
        let (s1, e1) = spec_feed(st, a);
        let (s2, e2) = spec_feed(s1, b.drop_last());
        let (s3, e3) = spec_step(s2, b.last());
        assert(e1 + e2 + e3 =~= e1 + (e2 + e3));
    }
}

/// Once `[DONE]` or an error has been handed out, further bytes change nothing.
pub proof fn lemma_finished_absorbs(st: SseState, bytes: Seq<u8>)
    requires
        st.finished,
    ensures
        spec_feed(st, bytes) == (st, Seq::<SseItemView>::empty()),
    decreases bytes.len(),
{
    if bytes.len() > 0 {
        lemma_finished_absorbs(st, bytes.drop_last());
        assert(Seq::<SseItemView>::empty() + Seq::<SseItemView>::empty() =~= Seq::<
            SseItemView,
        >::empty());
    }
}

proof fn lemma_feed_one(st: SseState, b: u8)
    ensures
        spec_feed(st, seq![b]) == spec_step(st, b),
{
    reveal_with_fuel(spec_feed, 2);
    assert(seq![b].drop_last() =~= Seq::<u8>::empty());
    assert(Seq::<SseItemView>::empty() + spec_step(st, b).1 =~= spec_step(st, b).1);
}

proof fn lemma_feed_two(st: SseState, b1: u8, b2: u8)
    ensures
        ({
            let (s1, e1) = spec_step(st, b1);
            let (s2, e2) = spec_step(s1, b2);
            spec_feed(st, seq![b1, b2]) == (s2, e1 + e2)
        }),
{
    lemma_feed_one(st, b1);
    assert(seq![b1, b2].drop_last() =~= seq![b1]);
    assert(seq![b1, b2].last() == b2);
}

/// Bytes that end no line only extend the current line.
pub proof fn lemma_feed_plain(st: SseState, l: Seq<u8>)
    requires
        !st.finished,
        no_line_breaks(l),
    ensures
        spec_feed(st, l) == (
            SseState {
                line: st.line + l,
                pending: st.pending,
                cr: if l.len() == 0 {
                    st.cr
                } else {
                    false
                },
                finished: false,
            },
            Seq::<SseItemView>::empty(),
        ),
    decreases l.len(),
{
    if l.len() == 0 {
        assert(st.line + l =~= st.line);
    } else {
        assert(no_line_breaks(l.drop_last())) by {
            assert forall|i: int| 0 <= i < l.drop_last().len() implies #[trigger] l.drop_last()[i]
                != 10u8 && l.drop_last()[i] != 13u8 by {
                assert(l.drop_last()[i] == l[i]);
            }
        }
        lemma_feed_plain(st, l.drop_last());
        assert(l.last() == l[l.len() - 1]);
        assert(st.line + l.drop_last() + seq![l.last()] =~= st.line + l);
        assert((st.line + l.drop_last()).push(l.last()) =~= st.line + l);
        assert(Seq::<SseItemView>::empty() + Seq::<SseItemView>::empty() =~= Seq::<
            SseItemView,
        >::empty());
    }
}

/// A line ended by `\r\n` hands out what the same line ended by `\n` does,
/// and leaves the same state unless the line ended the stream; a lone `\r`
/// hands out the same items too.
pub proof fn lemma_crlf_same_as_lf(st: SseState, l: Seq<u8>)
    requires
        !st.finished,
        !st.cr,
        no_line_breaks(l),
    ensures
        spec_feed(st, l + seq![13u8, 10u8]).1 == spec_feed(st, l + seq![10u8]).1,
        !spec_feed(st, l + seq![10u8]).0.finished ==> spec_feed(st, l + seq![13u8, 10u8]).0
            == spec_feed(st, l + seq![10u8]).0,
        spec_feed(st, l + seq![13u8]).1 == spec_feed(st, l + seq![10u8]).1,
{
    lemma_feed_plain(st, l);
    lemma_feed_concat(st, l, seq![13u8, 10u8]);
    lemma_feed_concat(st, l, seq![10u8]);
    lemma_feed_concat(st, l, seq![13u8]);
    let (s1, e1) = spec_feed(st, l);
    lemma_feed_two(s1, 13u8, 10u8);
    lemma_feed_one(s1, 10u8);
    lemma_feed_one(s1, 13u8);
    let (a1, b1) = spec_step(s1, 13u8);
    assert(b1 + Seq::<SseItemView>::empty() =~= b1);
}

/// A `data:` line with a payload, ended by a blank line, hands out exactly one
/// event that carries the payload.
pub proof fn lemma_data_line_dispatches(d: Seq<char>)
    requires
        d.len() > 0,
        !(trim(d) =~= done_marker()),
        no_line_breaks(encode_utf8(data_prefix() + d)),
    ensures
        spec_feed(initial_state(), encode_utf8(data_prefix() + d) + seq![10u8, 10u8]).1 == seq![
            Ok::<SseView, SseError>(SseView::Event(d)),
        ],
{
    let line = encode_utf8(data_prefix() + d);
    let st = initial_state();
    encode_utf8_valid_utf8(data_prefix() + d);
    encode_utf8_decode_utf8(data_prefix() + d);
    let text = data_prefix() + d;
    assert(decode_utf8(line) == text);
    assert(text.take(6) =~= data_prefix());
    assert(text.skip(6) =~= d);
    assert(line.len() > 0) by {
        if line.len() == 0 {
            assert(decode_utf8(line) =~= Seq::<char>::empty());
        }
    }
    lemma_feed_plain(st, line);
    lemma_feed_concat(st, line, seq![10u8, 10u8]);
    assert(st.line + line =~= line);
    let (s1, e1) = spec_feed(st, line);
    lemma_feed_two(s1, 10u8, 10u8);
    let (s2, e2) = spec_step(s1, 10u8);
    assert(e2 =~= Seq::<SseItemView>::empty());
    assert(s2.pending == Some(d));
    let (s3, e3) = spec_step(s2, 10u8);
    assert(e1 + (e2 + e3) =~= seq![Ok::<SseView, SseError>(SseView::Event(d))]);
}

/// How a line of the stream ends.
pub enum LineEnding {
    Lf,
    Cr,
    CrLf,
}

pub open spec fn ending_bytes(e: LineEnding) -> Seq<u8> {
    match e {
        LineEnding::Lf => seq![10u8],
        LineEnding::Cr => seq![13u8],
        LineEnding::CrLf => seq![13u8, 10u8],
    }
}

/// The bytes of the lines, each followed by its ending.
pub open spec fn encode_lines(lines: Seq<Seq<u8>>, endings: Seq<LineEnding>) -> Seq<u8>
    decreases lines.len(),
{
    if lines.len() == 0 {
        seq![]
    } else {
        encode_lines(lines.drop_last(), endings.drop_last()) + lines.last() + ending_bytes(
            endings.last(),
        )
    }
}

/// Each line holds no line break, and each line has an ending.
pub open spec fn well_split(lines: Seq<Seq<u8>>, endings: Seq<LineEnding>) -> bool {
    &&& endings.len() == lines.len()
    &&& forall|i: int| 0 <= i < lines.len() ==> no_line_breaks(#[trigger] lines[i])
}

/// No `\r` ending is directly followed by an empty line ended by `\n`: those
/// two bytes would read as a single `\r\n`.
pub open spec fn endings_unambiguous(lines: Seq<Seq<u8>>, endings: Seq<LineEnding>) -> bool {
    forall|i: int|
        1 <= i < lines.len() ==> !(endings[i - 1] == LineEnding::Cr && #[trigger] lines[i].len()
            == 0 && endings[i] == LineEnding::Lf)
}

/// What the lines do, one after another, with no regard to their endings:
/// the pending payload, whether the stream ended, and the items handed out.
pub open spec fn spec_lines(
    pending: Option<Seq<char>>,
    finished: bool,
    lines: Seq<Seq<u8>>,
) -> (Option<Seq<char>>, bool, Seq<SseItemView>)
    decreases lines.len(),
{
    if lines.len() == 0 {
        (pending, finished, seq![])
    } else {
        let (p, f, items) = spec_lines(pending, finished, lines.drop_last());
        if f {
            (p, f, items)
        } else {
            let (p2, item) = spec_process_line(lines.last(), p);
            (p2, ends_stream(item), items + opt_seq(item))
        }
    }
}

/// One line and its ending, fed to a decoder at the start of a line.
proof fn lemma_feed_line(st: SseState, l: Seq<u8>, e: LineEnding)
    requires
        st.line.len() == 0,
        !st.finished,
        no_line_breaks(l),
        !(st.cr && l.len() == 0 && e == LineEnding::Lf),
    ensures
        ({
            let (p, item) = spec_process_line(l, st.pending);
            let (s2, out) = spec_feed(st, l + ending_bytes(e));
            &&& out == opt_seq(item)
            &&& s2.pending == p
            &&& s2.finished == ends_stream(item)
            &&& s2.line.len() == 0
            &&& !s2.finished ==> s2.cr == (e == LineEnding::Cr)
        }),
{
    lemma_feed_plain(st, l);
    lemma_feed_concat(st, l, ending_bytes(e));
    let (s1, e1) = spec_feed(st, l);
    assert(s1.line =~= l);
    assert(s1.cr == (l.len() == 0 && st.cr));
    match e {
        LineEnding::Lf => {
            lemma_feed_one(s1, 10u8);
        },
        LineEnding::Cr => {
            lemma_feed_one(s1, 13u8);
        },
        LineEnding::CrLf => {
            lemma_feed_two(s1, 13u8, 10u8);
        },
    }
    let (s2, out) = spec_feed(s1, ending_bytes(e));
    assert(e1 + out =~= out);
}

/// Lines fed from the start of a line hand out what [`spec_lines`] says,
/// whatever their endings.
proof fn lemma_feed_lines(st: SseState, lines: Seq<Seq<u8>>, endings: Seq<LineEnding>)
    requires
        st.line.len() == 0,
        well_split(lines, endings),
        endings_unambiguous(lines, endings),
        st.cr && lines.len() > 0 ==> !(lines[0].len() == 0 && endings[0] == LineEnding::Lf),
    ensures
        ({
            let (p, f, items) = spec_lines(st.pending, st.finished, lines);
            let (s2, out) = spec_feed(st, encode_lines(lines, endings));
            &&& out == items
            &&& s2.pending == p
            &&& s2.finished == f
            &&& s2.line.len() == 0
            &&& !f ==> s2.cr == if lines.len() > 0 {
                endings.last() == LineEnding::Cr
            } else {
                st.cr
            }
        }),
    decreases lines.len(),
{
    if lines.len() == 0 {
        if st.finished {
            lemma_finished_absorbs(st, seq![]);
        }
    } else {
        let init = lines.drop_last();
        let iend = endings.drop_last();
        let l = lines.last();
        let e = endings.last();
        assert forall|i: int| 0 <= i < init.len() implies no_line_breaks(#[trigger] init[i]) by {
            assert(init[i] == lines[i]);
        }
        assert forall|i: int| 1 <= i < init.len() implies !(iend[i - 1] == LineEnding::Cr
            && #[trigger] init[i].len() == 0 && iend[i] == LineEnding::Lf) by {
            assert(init[i] == lines[i]);
            assert(iend[i] == endings[i]);
            assert(iend[i - 1] == endings[i - 1]);
        }
        if init.len() > 0 {
            assert(init[0] == lines[0]);
            assert(iend[0] == endings[0]);
        }
        lemma_feed_lines(st, init, iend);
        let a = encode_lines(init, iend);
        let b = l + ending_bytes(e);
        assert(encode_lines(lines, endings) =~= a + b);
        lemma_feed_concat(st, a, b);
        let (s1, e1) = spec_feed(st, a);
        assert(no_line_breaks(lines[lines.len() - 1]));
        if s1.finished {
            lemma_finished_absorbs(s1, b);
            assert(e1 + Seq::<SseItemView>::empty() =~= e1);
        } else {
            if init.len() > 0 {
                let k = lines.len() - 1;
                assert(lines[k] == l);
                assert(endings[k] == e);
                assert(endings[k - 1] == iend.last());
            } else {
                assert(lines[0] == l);
                assert(endings[0] == e);
            }
            lemma_feed_line(s1, l, e);
        }
    }
}

/// Feeding the chunks one after another, as a decoder is fed.
pub open spec fn spec_feed_chunks(st: SseState, chunks: Seq<Seq<u8>>) -> (
    SseState,
    Seq<SseItemView>,
)
    decreases chunks.len(),
{
    if chunks.len() == 0 {
        (st, seq![])
    } else {
        let (s1, e1) = spec_feed_chunks(st, chunks.drop_last());
        let (s2, e2) = spec_feed(s1, chunks.last());
        (s2, e1 + e2)
    }
}

/// The chunks' bytes one after another.
pub open spec fn concat_chunks(chunks: Seq<Seq<u8>>) -> Seq<u8>
    decreases chunks.len(),
{
    if chunks.len() == 0 {
        seq![]
    } else {
        concat_chunks(chunks.drop_last()) + chunks.last()
    }
}

/// Feeding chunk by chunk is feeding their bytes at once.
pub proof fn lemma_feed_chunks(st: SseState, chunks: Seq<Seq<u8>>)
    ensures
        spec_feed_chunks(st, chunks) == spec_feed(st, concat_chunks(chunks)),
    decreases chunks.len(),
{
    if chunks.len() > 0 {
        lemma_feed_chunks(st, chunks.drop_last());
        lemma_feed_concat(st, concat_chunks(chunks.drop_last()), chunks.last());
    }
}

/// The items of a stream depend only on its lines: whichever of `\n`, `\r`
/// and `\r\n` ends each line (so long as a `\r` and an empty line's `\n` do
/// not meet), and however the bytes are cut into chunks, a decoder fed the
/// chunks from its start hands out the items that the lines alone give.
pub proof fn lemma_stream_items_depend_on_lines(
    lines: Seq<Seq<u8>>,
    endings: Seq<LineEnding>,
    chunks: Seq<Seq<u8>>,
)
    requires
        well_split(lines, endings),
        endings_unambiguous(lines, endings),
        concat_chunks(chunks) == encode_lines(lines, endings),
    ensures
        spec_feed_chunks(initial_state(), chunks).1 == spec_lines(None, false, lines).2,
{
    lemma_feed_chunks(initial_state(), chunks);
    lemma_feed_lines(initial_state(), lines, endings);
}

} // verus!
