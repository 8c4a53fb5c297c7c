//! Server-sent events: reading the stream of a backend, writing the stream of
//! the gateway.
//!
//! A backend sends lines. A line `data: <payload>` carries one payload,
//! `data: [DONE]` ends the stream, and every other line is skipped. The bytes
//! arrive in pieces that need not end where a line or a character ends, so
//! `SseDecoder` keeps what is not yet whole.
//!
//! The gateway sends each payload as `data: <payload>` and an empty line.
use crate::text::{
    after_prefix, chars_of, first_index, first_index_found, first_index_is, prefix_and_rest,
    region_is, run_of, starts_with, string_of, trim_end, trim_end_removes_the_run,
    trim_end_splits,
};
use vstd::prelude::*;

verus! {

/// The text that `String::from_utf8_lossy` makes of bytes: invalid sequences
/// are replaced.
pub uninterp spec fn lossy_text(bytes: Seq<u8>) -> Seq<char>;

/// `String::from_utf8_lossy`, with the result owned.
///
/// The result depends on the bytes alone. Bytes that are valid UTF-8 are decoded
/// as they are. How invalid sequences are replaced is not stated.
#[verifier::external_body]
fn utf8_lossy(bytes: &[u8]) -> (r: String)
    ensures
        r@ == lossy_text(bytes@),
        vstd::utf8::valid_utf8(bytes@) ==> r@ == vstd::utf8::decode_utf8(bytes@),
{
    String::from_utf8_lossy(bytes).into_owned()
}

// ---------------------------------------------------------------------------
// Characters cut in two
// ---------------------------------------------------------------------------

/// How many bytes a character that starts with `lead` has; 0 where no character
/// starts with it.
pub open spec fn char_width(lead: u8) -> int {
    if vstd::utf8::is_leading_byte_width_1(lead) {
        1
    } else if vstd::utf8::is_leading_byte_width_2(lead) {
        2
    } else if vstd::utf8::is_leading_byte_width_3(lead) {
        3
    } else if vstd::utf8::is_leading_byte_width_4(lead) {
        4
    } else {
        0
    }
}

/// How many bytes at the end belong to a character whose last bytes are missing.
pub open spec fn cut_len(bytes: Seq<u8>) -> int {
    let n = bytes.len();
    if n >= 1 && char_width(bytes[n - 1]) > 1 {
        1
    } else if n >= 2 && vstd::utf8::is_continuation_byte(bytes[n - 1]) && char_width(bytes[n - 2])
        > 2 {
        2
    } else if n >= 3 && vstd::utf8::is_continuation_byte(bytes[n - 1])
        && vstd::utf8::is_continuation_byte(bytes[n - 2]) && char_width(bytes[n - 3]) > 3 {
        3
    } else {
        0
    }
}

/// The bytes before a character that is cut.
pub open spec fn whole_part(bytes: Seq<u8>) -> Seq<u8> {
    bytes.take(bytes.len() - cut_len(bytes))
}

/// The bytes of a character that is cut.
pub open spec fn cut_part(bytes: Seq<u8>) -> Seq<u8> {
    bytes.skip(bytes.len() - cut_len(bytes))
}

/// The text of bytes: decoded where they are valid UTF-8, else with the invalid
/// sequences replaced.
pub open spec fn text_of(bytes: Seq<u8>) -> Seq<char> {
    if vstd::utf8::valid_utf8(bytes) {
        vstd::utf8::decode_utf8(bytes)
    } else {
        lossy_text(bytes)
    }
}

/// How many bytes a character that starts with `lead` has.
fn width_of(lead: u8) -> (r: usize)
    ensures
        r == char_width(lead),
{
    if lead <= 0x7f {
        1
    } else if 0xc0 <= lead && lead <= 0xdf {
        2
    } else if 0xe0 <= lead && lead <= 0xef {
        3
    } else if 0xf0 <= lead && lead <= 0xf7 {
        4
    } else {
        0
    }
}

/// How many bytes at the end belong to a character whose last bytes are missing.
fn cut_at_end(bytes: &Vec<u8>) -> (r: usize)
    ensures
        r == cut_len(bytes@),
        r <= bytes@.len(),
{
    let n: usize = bytes.len();
    if n >= 1 && width_of(bytes[n - 1]) > 1 {
        return 1;
    }
    if n < 1 || !(0x80 <= bytes[n - 1] && bytes[n - 1] <= 0xbf) {
        return 0;
    }
    if n >= 2 && width_of(bytes[n - 2]) > 2 {
        return 2;
    }
    if n < 2 || !(0x80 <= bytes[n - 2] && bytes[n - 2] <= 0xbf) {
        return 0;
    }
    if n >= 3 && width_of(bytes[n - 3]) > 3 {
        return 3;
    }
    0
}

/// A copy of `bytes[from..to]`.
fn bytes_between(bytes: &Vec<u8>, from: usize, to: usize) -> (r: Vec<u8>)
    requires
        from <= to <= bytes@.len(),
    ensures
        r@ == bytes@.subrange(from as int, to as int),
{
    let mut out: Vec<u8> = Vec::new();
    let mut i: usize = from;
    while i < to
        invariant
            from <= i <= to <= bytes@.len(),
            out@ == bytes@.subrange(from as int, i as int),
        decreases to - i,
    {
        out.push(bytes[i]);
        i = i + 1;
    }
    out
}

// ---------------------------------------------------------------------------
// Reading
// ---------------------------------------------------------------------------

/// What a decoder finds next in its text.
pub enum SseStep {
    /// No whole line is left that carries anything.
    NeedMore,
    /// The payload of a `data: ` line.
    Data(Seq<char>),
    /// The line `data: [DONE]`.
    Done,
}

/// What a line without its newline carries; `None` for a line that is skipped.
pub open spec fn line_step(line: Seq<char>) -> Option<SseStep> {
    match after_prefix(trim_end(line, '\r'), "data: "@) {
        Some(payload) => if payload == "[DONE]"@ {
            Some(SseStep::Done)
        } else {
            Some(SseStep::Data(payload))
        },
        None => None,
    }
}

/// What stands next in `text`, and the text that is left after it.
pub open spec fn next_step(text: Seq<char>) -> (SseStep, Seq<char>)
    decreases text.len(),
{
    let end = first_index(text, '\n');
    if end < 0 || end >= text.len() {
        (SseStep::NeedMore, text)
    } else {
        match line_step(text.take(end)) {
            Some(step) => (step, text.skip(end + 1)),
            None => next_step(text.skip(end + 1)),
        }
    }
}

/// The payloads of `text`, up to `data: [DONE]` or the end of its last line.
pub open spec fn payloads(text: Seq<char>) -> Seq<Seq<char>>
    decreases text.len(),
    via payloads_shrink
{
    match next_step(text) {
        (SseStep::Data(payload), rest) => seq![payload] + payloads(rest),
        _ => Seq::empty(),
    }
}

/// `text` holds `data: [DONE]`.
pub open spec fn ended(text: Seq<char>) -> bool
    decreases text.len(),
    via ended_shrink
{
    match next_step(text) {
        (SseStep::Data(_), rest) => ended(rest),
        (SseStep::Done, _) => true,
        _ => false,
    }
}

/// What is left of `text` when its payloads are taken.
pub open spec fn leftover(text: Seq<char>) -> Seq<char>
    decreases text.len(),
    via leftover_shrink
{
    match next_step(text) {
        (SseStep::Data(_), rest) => leftover(rest),
        (_, rest) => rest,
    }
}

#[via_fn]
proof fn payloads_shrink(text: Seq<char>) {
    lemma_step_shrinks(text);
}

#[via_fn]
proof fn ended_shrink(text: Seq<char>) {
    lemma_step_shrinks(text);
}

#[via_fn]
proof fn leftover_shrink(text: Seq<char>) {
    lemma_step_shrinks(text);
}

/// A step that finds something takes at least one character.
proof fn lemma_step_shrinks(text: Seq<char>)
    ensures
        next_step(text).1.len() <= text.len(),
        !(next_step(text).0 is NeedMore) ==> next_step(text).1.len() < text.len(),
    decreases text.len(),
{
    first_index_found(text, '\n');
    let end = first_index(text, '\n');
    if end < text.len() && line_step(text.take(end)) is None {
        lemma_step_shrinks(text.skip(end + 1));
    }
}

/// What `SseDecoder::next_event` gives.
pub enum SseEvent {
    /// The decoder needs more text.
    NeedMore,
    /// A payload.
    Data(String),
    /// The end of the stream.
    Done,
}

impl SseEvent {
    /// The step that the event stands for.
    pub open spec fn step(self) -> SseStep {
        match self {
            SseEvent::NeedMore => SseStep::NeedMore,
            SseEvent::Data(payload) => SseStep::Data(payload@),
            SseEvent::Done => SseStep::Done,
        }
    }
}

/// A reader of server-sent events. Its view is the text not yet taken; besides it
/// holds the bytes of a character that is not yet whole.
pub struct SseDecoder {
    chars: Vec<char>,
    from: usize,
    cut: Vec<u8>,
}

impl View for SseDecoder {
    type V = Seq<char>;

    closed spec fn view(&self) -> Seq<char> {
        self.chars@.skip(self.from as int)
    }
}

impl SseDecoder {
    #[verifier::type_invariant]
    spec fn in_bounds(self) -> bool {
        self.from <= self.chars@.len()
    }

    /// The bytes of a character that is not yet whole.
    pub closed spec fn pending(&self) -> Seq<u8> {
        self.cut@
    }

    /// A decoder that has received nothing.
    pub fn new() -> (r: Self)
        ensures
            r@ == Seq::<char>::empty(),
            r.pending() == Seq::<u8>::empty(),
    {
        let r = SseDecoder { chars: Vec::new(), from: 0, cut: Vec::new() };
        assert(r@ =~= Seq::<char>::empty());
        r
    }

    /// Takes in the next text of the stream.
    pub fn push_str(&mut self, text: &str)
        ensures
            final(self)@ == old(self)@ + text@,
            final(self).pending() == old(self).pending(),
    {
        proof {
            use_type_invariant(&*self);
        }
        let more = chars_of(text);
        let mut chars: Vec<char> = Vec::new();
        let mut i: usize = self.from;
        while i < self.chars.len()
            invariant
                self.from <= i <= self.chars@.len(),
                chars@ == self.chars@.subrange(self.from as int, i as int),
            decreases self.chars.len() - i,
        {
            chars.push(self.chars[i]);
            i = i + 1;
        }
        assert(chars@ =~= self@);
        let mut j: usize = 0;
        let ghost kept = chars@;
        while j < more.len()
            invariant
                j <= more@.len(),
                chars@ == kept + more@.take(j as int),
            decreases more.len() - j,
        {
            chars.push(more[j]);
            j = j + 1;
        }
        assert(chars@ =~= kept + text@);
        self.from = 0;
        self.chars = chars;
        assert(self@ =~= kept + text@);
    }

    /// Takes in the next bytes of the stream. Sequences that are not valid UTF-8
    /// are replaced, not refused. A character that the bytes end in the middle of
    /// waits for the rest of it.
    pub fn push_bytes(&mut self, bytes: &[u8])
        ensures
            final(self)@ == old(self)@ + text_of(whole_part(old(self).pending() + bytes@)),
            final(self).pending() == cut_part(old(self).pending() + bytes@),
    {
        let mut all: Vec<u8> = bytes_between(&self.cut, 0, self.cut.len());
        assert(all@ =~= self.pending());
        let ghost held = all@;
        let mut i: usize = 0;
        while i < bytes.len()
            invariant
                i <= bytes@.len(),
                all@ == held + bytes@.take(i as int),
            decreases bytes.len() - i,
        {
            all.push(bytes[i]);
            assert(all@ =~= held + bytes@.take(i + 1));
            i = i + 1;
        }
        assert(all@ =~= held + bytes@);
        let end: usize = all.len() - cut_at_end(&all);
        let whole = bytes_between(&all, 0, end);
        assert(whole@ =~= whole_part(all@));
        let text = utf8_lossy(whole.as_slice());
        self.push_str(text.as_str());
        proof {
            use_type_invariant(&*self);
        }
        self.cut = bytes_between(&all, end, all.len());
        assert(self.pending() =~= cut_part(all@));
    }

    /// Takes the next event out of the text received so far.
    pub fn next_event(&mut self) -> (r: SseEvent)
        ensures
            (r.step(), final(self)@) == next_step(old(self)@),
            final(self).pending() == old(self).pending(),
    {
        proof {
            use_type_invariant(&*self);
        }
        let n: usize = self.chars.len();
        let head = chars_of("data: ");
        let done = chars_of("[DONE]");
        let mut from: usize = self.from;
        let ghost all = self.chars@;
        let ghost start = self@;
        loop
            invariant
                self.chars@ == all,
                n == all.len(),
                from <= n,
                head@ == "data: "@,
                done@ == "[DONE]"@,
                start == old(self)@,
                self.cut == old(self).cut,
                next_step(start) == next_step(all.skip(from as int)),
            decreases n - from,
        {
            let ghost text = all.skip(from as int);
            let mut end: usize = from;
            while end < n && self.chars[end] != '\n'
                invariant
                    self.chars@ == all,
                    n == all.len(),
                    from <= end <= n,
                    forall|i: int| from <= i < end ==> all[i] != '\n',
                decreases n - end,
            {
                end = end + 1;
            }
            proof {
                first_index_is(text, '\n', end - from);
            }
            if end >= n {
                self.from = from;
                assert(self@ =~= text);
                return SseEvent::NeedMore;
            }
            let ghost line = text.take(end - from);
            assert(line =~= all.subrange(from as int, end as int));
            let mut stop: usize = end;
            while stop > from && self.chars[stop - 1] == '\r'
                invariant
                    self.chars@ == all,
                    n == all.len(),
                    from <= stop <= end <= n,
                    trim_end(line, '\r') == trim_end(
                        all.subrange(from as int, stop as int),
                        '\r',
                    ),
                decreases stop,
            {
                assert(all.subrange(from as int, stop as int).drop_last() =~= all.subrange(
                    from as int,
                    stop - 1,
                ));
                stop = stop - 1;
            }
            let ghost bare = trim_end(line, '\r');
            assert(bare =~= all.subrange(from as int, stop as int));
            assert(text.skip(end - from + 1) =~= all.skip(end + 1));
            if stop - from >= head.len() && region_is(&self.chars, from, &head) {
                let begin: usize = from + head.len();
                assert(bare.take(head.len() as int) =~= all.subrange(
                    from as int,
                    from + head.len(),
                ));
                let ghost payload = bare.skip(head.len() as int);
                assert(payload =~= all.subrange(begin as int, stop as int));
                self.from = end + 1;
                assert(self@ == all.skip(end + 1));
                if stop - begin == done.len() && region_is(&self.chars, begin, &done) {
                    return SseEvent::Done;
                }
                return SseEvent::Data(string_of(&self.chars, begin, stop));
            }
            assert(starts_with(bare, head@) ==> all.subrange(from as int, from + head.len())
                =~= bare.take(head.len() as int));
            from = end + 1;
        }
    }
}

/// The payloads that a decoder gives when the stream arrives in `pieces`: after
/// each piece it takes what it can, and it stops at `data: [DONE]`.
pub open spec fn received(held: Seq<char>, pieces: Seq<Seq<char>>) -> Seq<Seq<char>>
    decreases pieces.len(),
{
    if ended(held) || pieces.len() == 0 {
        payloads(held)
    } else {
        payloads(held) + received(leftover(held) + pieces[0], pieces.drop_first())
    }
}

/// The pieces one after the other.
pub open spec fn run_together(pieces: Seq<Seq<char>>) -> Seq<char>
    decreases pieces.len(),
{
    if pieces.len() == 0 {
        Seq::empty()
    } else {
        pieces[0] + run_together(pieces.drop_first())
    }
}

/// A step that found something finds the same when more text follows; one that
/// needed more goes on with what it had kept and what follows.
pub proof fn step_with_more(text: Seq<char>, more: Seq<char>)
    ensures
        next_step(text + more) == match next_step(text) {
            (SseStep::NeedMore, rest) => next_step(rest + more),
            (step, rest) => (step, rest + more),
        },
    decreases text.len(),
{
    let end = first_index(text, '\n');
    first_index_found(text, '\n');
    if end < text.len() {
        let whole = text + more;
        first_index_is(whole, '\n', end);
        assert(whole.take(end) =~= text.take(end));
        assert(whole.skip(end + 1) =~= text.skip(end + 1) + more);
        if line_step(text.take(end)) is None {
            step_with_more(text.skip(end + 1), more);
        }
    }
}

/// Text that follows adds its payloads to those already there, unless the stream
/// had ended before.
pub proof fn payloads_with_more(text: Seq<char>, more: Seq<char>)
    ensures
        ended(text) ==> payloads(text + more) == payloads(text) && ended(text + more),
        !ended(text) ==> payloads(text + more) == payloads(text) + payloads(
            leftover(text) + more,
        ),
        !ended(text) ==> ended(text + more) == ended(leftover(text) + more),
    decreases text.len(),
{
    step_with_more(text, more);
    lemma_step_shrinks(text);
    match next_step(text) {
        (SseStep::Data(payload), rest) => {
            payloads_with_more(rest, more);
            assert(payloads(text + more) =~= seq![payload] + payloads(rest + more));
            if !ended(text) {
                assert(payloads(text + more) =~= payloads(text) + payloads(leftover(text) + more));
            }
        },
        (SseStep::Done, rest) => {},
        (SseStep::NeedMore, rest) => {
            assert(payloads(text) + payloads(rest + more) =~= payloads(rest + more));
        },
    }
}

/// How the stream is cut into pieces does not matter: the payloads given are
/// those of the whole text.
pub proof fn pieces_do_not_matter(held: Seq<char>, pieces: Seq<Seq<char>>)
    ensures
        received(held, pieces) == payloads(held + run_together(pieces)),
    decreases pieces.len(),
{
    payloads_with_more(held, run_together(pieces));
    if pieces.len() == 0 {
        assert(held + run_together(pieces) =~= held);
    } else if !ended(held) {
        let next = leftover(held) + pieces[0];
        pieces_do_not_matter(next, pieces.drop_first());
        assert(leftover(held) + run_together(pieces) =~= next + run_together(
            pieces.drop_first(),
        ));
    }
}

/// A whole character at the start changes nothing of what is cut at the end.
proof fn lemma_cut_after_char(bytes: Seq<u8>, w: int)
    requires
        1 <= w <= bytes.len(),
        char_width(bytes[0]) == w,
        forall|i: int| 1 <= i < w ==> vstd::utf8::is_continuation_byte(#[trigger] bytes[i]),
        w < bytes.len() ==> char_width(bytes[w]) >= 1,
    ensures
        cut_len(bytes) == cut_len(bytes.skip(w)),
{
    let rest = bytes.skip(w);
    let n = bytes.len();
    assert(rest.len() >= 1 ==> rest[rest.len() - 1] == bytes[n - 1]);
    assert(rest.len() >= 2 ==> rest[rest.len() - 2] == bytes[n - 2]);
    assert(rest.len() >= 3 ==> rest[rest.len() - 3] == bytes[n - 3]);
}

/// The bytes of the first character of valid UTF-8, and the byte after it.
proof fn lemma_first_char(bytes: Seq<u8>)
    requires
        vstd::utf8::valid_utf8(bytes),
        bytes.len() > 0,
    ensures
        ({
            let w = vstd::utf8::length_of_first_scalar(bytes);
            &&& 1 <= w <= bytes.len()
            &&& char_width(bytes[0]) == w
            &&& forall|i: int|
                1 <= i < w ==> vstd::utf8::is_continuation_byte(#[trigger] bytes[i])
            &&& vstd::utf8::valid_utf8(bytes.skip(w))
            &&& vstd::utf8::pop_first_scalar(bytes) == bytes.skip(w)
            &&& w < bytes.len() ==> char_width(bytes[w]) >= 1
        }),
{
    let w = vstd::utf8::length_of_first_scalar(bytes);
    let rest = vstd::utf8::pop_first_scalar(bytes);
    assert(vstd::utf8::valid_first_scalar(bytes));
    assert(rest =~= bytes.skip(w));
    assert(vstd::utf8::valid_utf8(rest));
    if w < bytes.len() {
        assert(rest.len() > 0);
        assert(vstd::utf8::valid_first_scalar(rest));
        assert(rest[0] == bytes[w]);
    }
}

/// In valid UTF-8 cut at `p`, a character starts where the part that is cut does.
proof fn lemma_cut_boundary(bytes: Seq<u8>, p: int)
    requires
        vstd::utf8::valid_utf8(bytes),
        0 <= p <= bytes.len(),
    ensures
        0 <= cut_len(bytes.take(p)) <= p,
        p == bytes.len() ==> cut_len(bytes.take(p)) == 0,
        vstd::utf8::is_char_boundary(bytes, p - cut_len(bytes.take(p))),
    decreases bytes.len(),
{
    let before = bytes.take(p);
    if p > 0 {
        lemma_first_char(bytes);
        let w = vstd::utf8::length_of_first_scalar(bytes);
        if p < w {
            assert(before[0] == bytes[0]);
            assert(p > 1 ==> before[1] == bytes[1]);
            assert(p > 2 ==> before[2] == bytes[2]);
        } else {
            let rest = bytes.skip(w);
            lemma_cut_boundary(rest, p - w);
            assert forall|i: int| 1 <= i < w implies vstd::utf8::is_continuation_byte(
                #[trigger] before[i],
            ) by {
                assert(before[i] == bytes[i]);
            }
            lemma_cut_after_char(before, w);
            assert(before.skip(w) =~= rest.take(p - w));
        }
    }
}

/// Valid UTF-8 cut at `p`: the characters that are whole before the cut are
/// decoded by themselves, and the rest with what follows.
proof fn lemma_cut(bytes: Seq<u8>, p: int)
    requires
        vstd::utf8::valid_utf8(bytes),
        0 <= p <= bytes.len(),
    ensures
        0 <= cut_len(bytes.take(p)) <= p,
        p == bytes.len() ==> cut_len(bytes.take(p)) == 0,
        ({
            let at = p - cut_len(bytes.take(p));
            &&& vstd::utf8::valid_utf8(bytes.take(at))
            &&& vstd::utf8::valid_utf8(bytes.skip(at))
            &&& vstd::utf8::decode_utf8(bytes) == vstd::utf8::decode_utf8(bytes.take(at))
                + vstd::utf8::decode_utf8(bytes.skip(at))
        }),
{
    lemma_cut_boundary(bytes, p);
    let at = p - cut_len(bytes.take(p));
    vstd::utf8::valid_utf8_split(bytes, at);
    vstd::utf8::decode_utf8_split(bytes, at);
    assert(bytes.subrange(0, at) =~= bytes.take(at));
    assert(bytes.subrange(at, bytes.len() as int) =~= bytes.skip(at));
}

/// What is cut is cut as a whole.
proof fn lemma_cut_part(bytes: Seq<u8>)
    ensures
        0 <= cut_len(bytes) <= bytes.len(),
        cut_len(cut_part(bytes)) == cut_part(bytes).len(),
{
    let n = bytes.len();
    let left = cut_part(bytes);
    let k = cut_len(bytes);
    assert(k >= 1 ==> left[k - 1] == bytes[n - 1]);
    assert(k >= 2 ==> left[k - 2] == bytes[n - 2]);
    assert(k >= 3 ==> left[k - 3] == bytes[n - 3]);
}

/// The texts that a decoder makes of pieces of bytes, one of each, when it holds
/// `pending`.
pub open spec fn piece_texts(pending: Seq<u8>, pieces: Seq<Seq<u8>>) -> Seq<Seq<char>>
    decreases pieces.len(),
{
    if pieces.len() == 0 {
        Seq::empty()
    } else {
        let all = pending + pieces[0];
        seq![text_of(whole_part(all))] + piece_texts(cut_part(all), pieces.drop_first())
    }
}

/// The pieces one after the other.
pub open spec fn all_bytes(pieces: Seq<Seq<u8>>) -> Seq<u8>
    decreases pieces.len(),
{
    if pieces.len() == 0 {
        Seq::empty()
    } else {
        pieces[0] + all_bytes(pieces.drop_first())
    }
}

/// The payloads that a decoder gives when the stream arrives in pieces of bytes.
pub open spec fn received_bytes(pieces: Seq<Seq<u8>>) -> Seq<Seq<char>> {
    received(Seq::empty(), piece_texts(Seq::empty(), pieces))
}

/// The texts of the pieces, one after the other, are the text of the whole.
proof fn lemma_piece_texts(pending: Seq<u8>, pieces: Seq<Seq<u8>>)
    requires
        vstd::utf8::valid_utf8(pending + all_bytes(pieces)),
        cut_len(pending) == pending.len(),
    ensures
        run_together(piece_texts(pending, pieces)) == vstd::utf8::decode_utf8(
            pending + all_bytes(pieces),
        ),
    decreases pieces.len(),
{
    let bytes = pending + all_bytes(pieces);
    if pieces.len() == 0 {
        assert(bytes =~= pending);
        lemma_cut(bytes, bytes.len() as int);
        assert(bytes.take(bytes.len() as int) =~= bytes);
        assert(vstd::utf8::decode_utf8(bytes) =~= Seq::<char>::empty());
    } else {
        let all = pending + pieces[0];
        let rest = pieces.drop_first();
        let p = all.len() as int;
        lemma_cut(bytes, p);
        assert(bytes.take(p) =~= all);
        let at = p - cut_len(all);
        assert(bytes.take(at) =~= whole_part(all));
        assert(bytes.skip(at) =~= cut_part(all) + all_bytes(rest));
        let left = cut_part(all);
        lemma_cut_part(all);
        lemma_piece_texts(left, rest);
        let list = piece_texts(pending, pieces);
        assert(list[0] == text_of(whole_part(all)));
        assert(list.drop_first() =~= piece_texts(left, rest));
    }
}

/// Where the network cuts a stream of valid UTF-8, within a line or within a
/// character, does not matter: the payloads given are those of the whole text.
pub proof fn byte_pieces_do_not_matter(pieces: Seq<Seq<u8>>)
    requires
        vstd::utf8::valid_utf8(all_bytes(pieces)),
    ensures
        received_bytes(pieces) == payloads(vstd::utf8::decode_utf8(all_bytes(pieces))),
{
    let none = Seq::<u8>::empty();
    assert(none + all_bytes(pieces) =~= all_bytes(pieces));
    lemma_piece_texts(none, pieces);
    pieces_do_not_matter(Seq::empty(), piece_texts(none, pieces));
    let text = run_together(piece_texts(none, pieces));
    assert(Seq::<char>::empty() + text =~= text);
}

/// Two ways to cut the same stream of valid UTF-8 give the same payloads.
pub proof fn fragmentation_is_invisible(first: Seq<Seq<u8>>, second: Seq<Seq<u8>>)
    requires
        all_bytes(first) == all_bytes(second),
        vstd::utf8::valid_utf8(all_bytes(first)),
    ensures
        received_bytes(first) == received_bytes(second),
{
    byte_pieces_do_not_matter(first);
    byte_pieces_do_not_matter(second);
}

// ---------------------------------------------------------------------------
// Writing
// ---------------------------------------------------------------------------

/// A payload as the gateway sends it.
pub open spec fn frame(payload: Seq<char>) -> Seq<char> {
    "data: "@ + payload + "\n\n"@
}

/// A payload as the gateway sends it.
pub fn data_frame(payload: &str) -> (r: String)
    ensures
        r@ == frame(payload@),
{
    "data: ".to_owned().concat(payload).concat("\n\n")
}

/// The frames of several payloads, one after the other.
pub open spec fn frames(list: Seq<Seq<char>>) -> Seq<char>
    decreases list.len(),
{
    if list.len() == 0 {
        Seq::empty()
    } else {
        frame(list[0]) + frames(list.drop_first())
    }
}

/// A payload that fits on one line and does not end the stream. The JSON of a
/// chunk is one.
pub open spec fn plain_payload(payload: Seq<char>) -> bool {
    &&& !payload.contains('\n')
    &&& (payload.len() > 0 ==> payload.last() != '\r')
    &&& payload != "[DONE]"@
}

/// What a frame gives back.
proof fn lemma_frame_step(payload: Seq<char>, more: Seq<char>)
    requires
        !payload.contains('\n'),
        payload.len() > 0 ==> payload.last() != '\r',
    ensures
        next_step(frame(payload) + more) == (
            if payload == "[DONE]"@ {
                SseStep::Done
            } else {
                SseStep::Data(payload)
            },
            seq!['\n'] + more,
        ),
        next_step(seq!['\n'] + more) == next_step(more),
{
    reveal_strlit("data: ");
    reveal_strlit("\n\n");
    let text = frame(payload) + more;
    let line = "data: "@ + payload;
    let end = line.len() as int;
    assert forall|i: int| 0 <= i < end implies text[i] != '\n' by {
        if i >= 6 {
            assert(text[i] == payload[i - 6]);
            assert(payload.contains(payload[i - 6]));
        } else {
            assert(text[i] == "data: "@[i]);
        }
    }
    assert(text[end] == '\n');
    first_index_is(text, '\n', end);
    assert(text.take(end) =~= line);
    assert(text.skip(end + 1) =~= seq!['\n'] + more);
    assert(line.last() != '\r');
    assert(trim_end(line, '\r') == line);
    assert(line.take(6) =~= "data: "@);
    assert(line.skip(6) =~= payload);

    let blank = seq!['\n'] + more;
    first_index_is(blank, '\n', 0);
    assert(blank.take(0) =~= Seq::<char>::empty());
    assert(trim_end(Seq::<char>::empty(), '\r') == Seq::<char>::empty());
    assert(blank.skip(1) =~= more);
}

/// What the gateway writes, a reader of server-sent events reads back, payload
/// by payload.
pub proof fn frames_read_back(list: Seq<Seq<char>>)
    requires
        forall|i: int| 0 <= i < list.len() ==> plain_payload(#[trigger] list[i]),
    ensures
        payloads(frames(list)) == list,
        !ended(frames(list)),
    decreases list.len(),
{
    if list.len() == 0 {
        assert(first_index(frames(list), '\n') == 0);
        assert(payloads(frames(list)) =~= list);
    } else {
        let rest = list.drop_first();
        assert forall|i: int| 0 <= i < rest.len() implies plain_payload(#[trigger] rest[i]) by {
            assert(rest[i] == list[i + 1]);
        }
        frames_read_back(rest);
        assert(plain_payload(list[0]));
        lemma_frame_step(list[0], frames(rest));
        let after = seq!['\n'] + frames(rest);
        assert(payloads(after) == payloads(frames(rest)));
        assert(ended(after) == ended(frames(rest)));
        assert(payloads(frames(list)) == seq![list[0]] + payloads(after));
        assert(payloads(frames(list)) =~= list);
    }
}

/// The end mark that the gateway writes ends the stream for its reader.
pub proof fn end_mark_read_back(list: Seq<Seq<char>>)
    requires
        forall|i: int| 0 <= i < list.len() ==> plain_payload(#[trigger] list[i]),
    ensures
        payloads(frames(list) + frame("[DONE]"@)) == list,
        ended(frames(list) + frame("[DONE]"@)),
{
    frames_read_back(list);
    let mark = frame("[DONE]"@);
    payloads_with_more(frames(list), mark);
    lemma_frames_leave_nothing(list);
    reveal_strlit("[DONE]");
    lemma_frame_step("[DONE]"@, Seq::empty());
    assert(mark + Seq::empty() =~= mark);
    let left = leftover(frames(list));
    assert(payloads(left + mark) =~= Seq::<Seq<char>>::empty()) by {
        if left.len() == 0 {
            assert(left + mark =~= mark);
        } else {
            assert(left + mark =~= seq!['\n'] + mark);
            lemma_frame_step("[DONE]"@, mark);
        }
    }
    assert(ended(left + mark)) by {
        if left.len() == 0 {
            assert(left + mark =~= mark);
        } else {
            assert(left + mark =~= seq!['\n'] + mark);
            lemma_frame_step("[DONE]"@, mark);
        }
    }
    assert(payloads(frames(list)) + Seq::<Seq<char>>::empty() =~= list);
}

/// Whole frames leave nothing behind.
proof fn lemma_frames_leave_nothing(list: Seq<Seq<char>>)
    requires
        forall|i: int| 0 <= i < list.len() ==> plain_payload(#[trigger] list[i]),
    ensures
        leftover(frames(list)).len() == 0,
    decreases list.len(),
{
    if list.len() == 0 {
        assert(first_index(frames(list), '\n') == 0);
    } else {
        let rest = list.drop_first();
        assert forall|i: int| 0 <= i < rest.len() implies plain_payload(#[trigger] rest[i]) by {
            assert(rest[i] == list[i + 1]);
        }
        lemma_frames_leave_nothing(rest);
        assert(plain_payload(list[0]));
        lemma_frame_step(list[0], frames(rest));
        assert(leftover(seq!['\n'] + frames(rest)) == leftover(frames(rest)));
    }
}

// ---------------------------------------------------------------------------
// What a reader makes of each line
// ---------------------------------------------------------------------------

/// A text without a newline is kept until more comes.
pub proof fn a_line_waits_for_its_end(text: Seq<char>)
    requires
        !text.contains('\n'),
    ensures
        next_step(text) == (SseStep::NeedMore, text),
{
    assert forall|i: int| 0 <= i < text.len() implies text[i] != '\n' by {
        assert(text.contains(text[i]));
    }
    first_index_is(text, '\n', text.len() as int);
}

/// The first line of a text is what stands before its first newline.
proof fn lemma_first_line(line: Seq<char>, rest: Seq<char>)
    requires
        !line.contains('\n'),
    ensures
        first_index(line + seq!['\n'] + rest, '\n') == line.len(),
        (line + seq!['\n'] + rest).take(line.len() as int) == line,
        (line + seq!['\n'] + rest).skip(line.len() as int + 1) == rest,
{
    let text = line + seq!['\n'] + rest;
    let n = line.len() as int;
    assert forall|i: int| 0 <= i < n implies text[i] != '\n' by {
        assert(text[i] == line[i]);
        assert(line.contains(line[i]));
    }
    first_index_is(text, '\n', n);
    assert(text.take(n) =~= line);
    assert(text.skip(n + 1) =~= rest);
}

/// A line `data: ` gives its payload, without the carriage returns at its end, and
/// what follows the line is left. `data: [DONE]` ends the stream.
pub proof fn a_data_line_gives_its_payload(payload: Seq<char>, n: nat, rest: Seq<char>)
    requires
        !payload.contains('\n'),
        payload.len() > 0 ==> payload.last() != '\r',
    ensures
        next_step("data: "@ + payload + Seq::new(n, |i: int| '\r') + seq!['\n'] + rest) == (
            if payload == "[DONE]"@ {
                SseStep::Done
            } else {
                SseStep::Data(payload)
            },
            rest,
        ),
{
    reveal_strlit("data: ");
    let bare = "data: "@ + payload;
    let line = bare + Seq::new(n, |i: int| '\r');
    assert(Seq::new(n, |i: int| '\r') =~= run_of('\r', n));
    assert forall|i: int| 0 <= i < line.len() implies line[i] != '\n' by {
        if i < 6 {
            assert(line[i] == "data: "@[i]);
        } else if i < bare.len() {
            assert(line[i] == payload[i - 6]);
            assert(payload.contains(payload[i - 6]));
        }
    }
    assert(bare.last() != '\r');
    trim_end_removes_the_run(bare, '\r', n);
    prefix_and_rest(bare, "data: "@, payload);
    lemma_first_line(line, rest);
}

/// A line that does not start with `data: ` is skipped.
pub proof fn other_lines_are_skipped(line: Seq<char>, rest: Seq<char>)
    requires
        !line.contains('\n'),
        forall|payload: Seq<char>| line != #[trigger] ("data: "@ + payload),
    ensures
        next_step(line + seq!['\n'] + rest) == next_step(rest),
{
    let bare = trim_end(line, '\r');
    let n = trim_end_splits(line, '\r');
    if let Some(payload) = after_prefix(bare, "data: "@) {
        prefix_and_rest(bare, "data: "@, payload);
        assert(line =~= "data: "@ + (payload + run_of('\r', n)));
    }
    lemma_first_line(line, rest);
}

/// What an event stands for.
pub proof fn events_stand_for_steps(payload: String)
    ensures
        SseEvent::NeedMore.step() == SseStep::NeedMore,
        SseEvent::Data(payload).step() == SseStep::Data(payload@),
        SseEvent::Done.step() == SseStep::Done,
{
}

/// A payload is sent on a line of its own, with an empty line after it.
pub proof fn frames_are_lines(payload: Seq<char>)
    ensures
        frame(payload) == "data: "@ + payload + seq!['\n', '\n'],
{
    reveal_strlit("\n\n");
    assert("\n\n"@ =~= seq!['\n', '\n']);
}

/// Bytes are parted where a character at their end is cut, and nothing is lost. A
/// character of two bytes is cut after its first, one of three after its first or
/// second, and one of four after its first, second or third.
pub proof fn cut_characters_wait(whole: Seq<u8>, a: u8, b: u8, c: u8)
    requires
        0x80 <= b <= 0xbf,
        0x80 <= c <= 0xbf,
    ensures
        whole_part(whole) + cut_part(whole) == whole,
        0xc0 <= a <= 0xf7 ==> cut_part(whole + seq![a]) == seq![a],
        0xe0 <= a <= 0xf7 ==> cut_part(whole + seq![a, b]) == seq![a, b],
        0xf0 <= a <= 0xf7 ==> cut_part(whole + seq![a, b, c]) == seq![a, b, c],
        a <= 0x7f ==> cut_part(whole + seq![a]).len() == 0,
        a <= 0xdf && !(0x80 <= a <= 0xbf) ==> cut_part(whole + seq![a, b]).len() == 0,
        a <= 0xef && !(0x80 <= a <= 0xbf) ==> cut_part(whole + seq![a, b, c]).len() == 0,
        cut_part(seq![b]).len() == 0,
        cut_part(seq![b, c]).len() == 0,
        0x80 <= a <= 0xbf ==> cut_part(whole + seq![a, b, c]).len() == 0,
{
    assert(whole_part(whole) + cut_part(whole) =~= whole);
    let one = whole + seq![a];
    let two = whole + seq![a, b];
    let three = whole + seq![a, b, c];
    assert(one[one.len() - 1] == a);
    assert(two[two.len() - 1] == b && two[two.len() - 2] == a);
    assert(three[three.len() - 1] == c && three[three.len() - 2] == b && three[three.len() - 3]
        == a);
    if 0xc0 <= a <= 0xf7 {
        assert(one.skip(one.len() - 1) =~= seq![a]);
    }
    if 0xe0 <= a <= 0xf7 {
        assert(two.skip(two.len() - 2) =~= seq![a, b]);
    }
    if 0xf0 <= a <= 0xf7 {
        assert(three.skip(three.len() - 3) =~= seq![a, b, c]);
    }
}

/// Bytes that are valid UTF-8 are decoded, and others are read as
/// `String::from_utf8_lossy` reads them.
pub proof fn bytes_are_decoded(text: Seq<char>, bytes: Seq<u8>)
    ensures
        text_of(vstd::utf8::encode_utf8(text)) == text,
        !vstd::utf8::valid_utf8(bytes) ==> text_of(bytes) == lossy_text(bytes),
{
    vstd::utf8::encode_utf8_valid_utf8(text);
    vstd::utf8::encode_utf8_decode_utf8(text);
}

} // verus!
