//! Text helpers: order, decimal numbers, trimming, joining.
//!
//! All specifications are written over `Seq<char>`, the view of `str` and
//! `String`. The order of texts is the order that `str` documents: code point
//! by code point.
use vstd::prelude::*;

verus! {

/// `String::push` appends one character.
pub assume_specification[ String::push ](s: &mut String, c: char)
    ensures
        final(s)@ == old(s)@.push(c),
;

/// The views of a list of strings.
pub open spec fn texts(list: Seq<String>) -> Seq<Seq<char>> {
    Seq::new(list.len(), |i: int| list[i]@)
}

/// The view of an optional string.
pub open spec fn opt_text(s: Option<String>) -> Option<Seq<char>> {
    match s {
        Some(t) => Some(t@),
        None => None,
    }
}

/// The view of an optional string slice.
pub open spec fn opt_str(s: Option<&str>) -> Option<Seq<char>> {
    match s {
        Some(t) => Some(t@),
        None => None,
    }
}

// ---------------------------------------------------------------------------
// Equality and order
// ---------------------------------------------------------------------------

/// `a` comes strictly before `b` in the order of texts.
pub open spec fn text_precedes(a: Seq<char>, b: Seq<char>) -> bool
    decreases a.len(),
{
    if b.len() == 0 {
        false
    } else if a.len() == 0 {
        true
    } else if a[0] != b[0] {
        (a[0] as int) < (b[0] as int)
    } else {
        text_precedes(a.drop_first(), b.drop_first())
    }
}

/// No text comes before itself.
pub proof fn text_precedes_irreflexive(a: Seq<char>)
    ensures
        !text_precedes(a, a),
    decreases a.len(),
{
    if a.len() > 0 {
        text_precedes_irreflexive(a.drop_first());
    }
}

/// The order of texts is transitive.
pub proof fn text_precedes_transitive(a: Seq<char>, b: Seq<char>, c: Seq<char>)
    requires
        text_precedes(a, b),
        text_precedes(b, c),
    ensures
        text_precedes(a, c),
    decreases a.len(),
{
    if a.len() > 0 && b.len() > 0 && c.len() > 0 && a[0] == b[0] && b[0] == c[0] {
        text_precedes_transitive(a.drop_first(), b.drop_first(), c.drop_first());
    }
}

/// Of two different texts one comes before the other.
pub proof fn text_precedes_total(a: Seq<char>, b: Seq<char>)
    ensures
        a == b || text_precedes(a, b) || text_precedes(b, a),
    decreases a.len(),
{
    if a.len() > 0 && b.len() > 0 && a[0] == b[0] {
        text_precedes_total(a.drop_first(), b.drop_first());
        if a.drop_first() == b.drop_first() {
            assert(a =~= seq![a[0]] + a.drop_first());
            assert(b =~= seq![b[0]] + b.drop_first());
        }
    } else if a.len() == 0 && b.len() == 0 {
        assert(a =~= b);
    }
}

/// Tells whether `a` comes strictly before `b`.
pub fn text_before(a: &str, b: &str) -> (r: bool)
    ensures
        r == text_precedes(a@, b@),
{
    let left = chars_of(a);
    let right = chars_of(b);
    let mut i: usize = 0;
    assert(a@.skip(0) =~= a@);
    assert(b@.skip(0) =~= b@);
    while i < left.len() && i < right.len() && left[i] == right[i]
        invariant
            left@ == a@,
            right@ == b@,
            i <= left.len(),
            i <= right.len(),
            text_precedes(a@, b@) == text_precedes(a@.skip(i as int), b@.skip(i as int)),
        decreases left.len() - i,
    {
        assert(a@.skip(i as int).drop_first() =~= a@.skip(i + 1));
        assert(b@.skip(i as int).drop_first() =~= b@.skip(i + 1));
        i = i + 1;
    }
    if i >= right.len() {
        false
    } else if i >= left.len() {
        true
    } else {
        left[i] < right[i]
    }
}

/// Tells whether two texts are the same.
pub fn same_text(a: &str, b: &str) -> (r: bool)
    ensures
        r == (a@ == b@),
{
    a.to_owned() == b.to_owned()
}

// ---------------------------------------------------------------------------
// Characters
// ---------------------------------------------------------------------------

/// The characters of `s`.
pub fn chars_of(s: &str) -> (r: Vec<char>)
    ensures
        r@ == s@,
{
    let mut out: Vec<char> = Vec::new();
    for c in it: s.chars()
        invariant
            out@ == it.seq().take(it.index()),
            it.seq() == s@,
    {
        out.push(c);
    }
    out
}

/// The text made of `chars[from..to]`.
pub fn string_of(chars: &Vec<char>, from: usize, to: usize) -> (r: String)
    requires
        from <= to <= chars@.len(),
    ensures
        r@ == chars@.subrange(from as int, to as int),
{
    let mut out = String::new();
    let mut i: usize = from;
    while i < to
        invariant
            from <= i <= to <= chars@.len(),
            out@ == chars@.subrange(from as int, i as int),
        decreases to - i,
    {
        out.push(chars[i]);
        i = i + 1;
    }
    out
}

// ---------------------------------------------------------------------------
// Searching and trimming
// ---------------------------------------------------------------------------

/// The index of the first `c` in `s`, or the length of `s` where there is none.
pub open spec fn first_index(s: Seq<char>, c: char) -> int
    decreases s.len(),
{
    if s.len() == 0 || s[0] == c {
        0
    } else {
        1 + first_index(s.drop_first(), c)
    }
}

/// The first `c` stands at `k` where `k` is the first place that holds it.
pub proof fn first_index_is(s: Seq<char>, c: char, k: int)
    requires
        0 <= k <= s.len(),
        forall|i: int| 0 <= i < k ==> s[i] != c,
        k < s.len() ==> s[k] == c,
    ensures
        first_index(s, c) == k,
    decreases k,
{
    if k > 0 {
        let rest = s.drop_first();
        assert forall|i: int| 0 <= i < k - 1 implies rest[i] != c by {
            assert(s[i + 1] != c);
        }
        first_index_is(rest, c, k - 1);
    }
}

/// What `first_index` finds.
pub proof fn first_index_found(s: Seq<char>, c: char)
    ensures
        0 <= first_index(s, c) <= s.len(),
        forall|i: int| 0 <= i < first_index(s, c) ==> s[i] != c,
        first_index(s, c) < s.len() ==> s[first_index(s, c)] == c,
    decreases s.len(),
{
    if s.len() > 0 && s[0] != c {
        let rest = s.drop_first();
        first_index_found(rest, c);
        assert forall|i: int| 0 <= i < first_index(s, c) implies s[i] != c by {
            if i > 0 {
                assert(rest[i - 1] == s[i]);
            }
        }
    }
}

/// `s` without the `c` that it ends in, however many there are.
pub open spec fn trim_end(s: Seq<char>, c: char) -> Seq<char>
    decreases s.len(),
{
    if s.len() > 0 && s.last() == c {
        trim_end(s.drop_last(), c)
    } else {
        s
    }
}

/// Removes every `c` from the end of a text.
pub fn trim_end_char(s: &str, c: char) -> (r: String)
    ensures
        r@ == trim_end(s@, c),
{
    let chars = chars_of(s);
    let mut end: usize = chars.len();
    assert(s@.take(end as int) =~= s@);
    while end > 0 && chars[end - 1] == c
        invariant
            chars@ == s@,
            end <= chars.len(),
            trim_end(s@, c) == trim_end(s@.take(end as int), c),
        decreases end,
    {
        assert(s@.take(end as int).drop_last() =~= s@.take(end - 1));
        end = end - 1;
    }
    let r = string_of(&chars, 0, end);
    assert(r@ =~= s@.take(end as int));
    r
}

/// `s` ends in `suffix`.
pub open spec fn ends_with(s: Seq<char>, suffix: Seq<char>) -> bool {
    s.len() >= suffix.len() && s.skip(s.len() - suffix.len()) == suffix
}

/// `s` without the `suffix` that it ends in, however often it is repeated.
pub open spec fn trim_end_text(s: Seq<char>, suffix: Seq<char>) -> Seq<char>
    decreases s.len(),
{
    if suffix.len() > 0 && ends_with(s, suffix) {
        trim_end_text(s.take(s.len() - suffix.len()), suffix)
    } else {
        s
    }
}

/// Removes a text from the end of another as often as it stands there.
pub fn trim_end_str(s: &str, suffix: &str) -> (r: String)
    ensures
        r@ == trim_end_text(s@, suffix@),
{
    let chars = chars_of(s);
    let tail = chars_of(suffix);
    let n: usize = tail.len();
    let mut end: usize = chars.len();
    assert(s@.take(end as int) =~= s@);
    while n > 0 && end >= n && region_is(&chars, end - n, &tail)
        invariant
            chars@ == s@,
            tail@ == suffix@,
            n == tail.len(),
            end <= chars.len(),
            trim_end_text(s@, suffix@) == trim_end_text(s@.take(end as int), suffix@),
        decreases end,
    {
        let ghost cur = s@.take(end as int);
        assert(cur.skip(end - n) =~= s@.subrange(end - n, end as int));
        assert(cur.take(end - n) =~= s@.take(end - n));
        end = end - n;
    }
    assert(end >= n ==> s@.take(end as int).skip(end - n) =~= s@.subrange(end - n, end as int));
    let r = string_of(&chars, 0, end);
    assert(r@ =~= s@.take(end as int));
    r
}

/// Tells whether `part` stands in `chars` at `at`.
pub fn region_is(chars: &Vec<char>, at: usize, part: &Vec<char>) -> (r: bool)
    requires
        at + part.len() <= chars.len(),
    ensures
        r == (chars@.subrange(at as int, at + part.len()) == part@),
{
    let mut i: usize = 0;
    while i < part.len()
        invariant
            at + part.len() <= chars.len(),
            i <= part.len(),
            forall|k: int| 0 <= k < i ==> chars@[at + k] == part@[k],
        decreases part.len() - i,
    {
        if chars[at + i] != part[i] {
            assert(chars@.subrange(at as int, at + part.len())[i as int] != part@[i as int]);
            return false;
        }
        i = i + 1;
    }
    assert(chars@.subrange(at as int, at + part.len()) =~= part@);
    true
}

/// `s` starts with `prefix`.
pub open spec fn starts_with(s: Seq<char>, prefix: Seq<char>) -> bool {
    s.len() >= prefix.len() && s.take(prefix.len() as int) == prefix
}

/// What follows `prefix` in `s`, where `s` starts with it.
pub open spec fn after_prefix(s: Seq<char>, prefix: Seq<char>) -> Option<Seq<char>> {
    if starts_with(s, prefix) {
        Some(s.skip(prefix.len() as int))
    } else {
        None
    }
}

/// What follows `prefix` in `s`, where `s` starts with it.
pub fn strip_prefix(s: &str, prefix: &str) -> (r: Option<String>)
    ensures
        opt_text(r) == after_prefix(s@, prefix@),
{
    let chars = chars_of(s);
    let head = chars_of(prefix);
    if chars.len() < head.len() {
        return None;
    }
    assert(s@.take(prefix@.len() as int) =~= s@.subrange(0, prefix@.len() as int));
    if region_is(&chars, 0, &head) {
        assert(s@.skip(prefix@.len() as int) =~= s@.subrange(
            prefix@.len() as int,
            s@.len() as int,
        ));
        Some(string_of(&chars, head.len(), chars.len()))
    } else {
        None
    }
}

/// The characters with the Unicode property `White_Space`.
pub open spec fn white(c: char) -> bool {
    let n = c as int;
    ||| 0x9 <= n <= 0xd
    ||| n == 0x20
    ||| n == 0x85
    ||| n == 0xa0
    ||| n == 0x1680
    ||| 0x2000 <= n <= 0x200a
    ||| n == 0x2028
    ||| n == 0x2029
    ||| n == 0x202f
    ||| n == 0x205f
    ||| n == 0x3000
}

/// The code point of a character.
fn code_point(c: char) -> (r: u32)
    ensures
        r == c as int,
{
    c as u32
}

/// Tells whether a character is white space.
pub fn is_white(c: char) -> (r: bool)
    ensures
        r == white(c),
{
    let n: u32 = code_point(c);
    (0x9 <= n && n <= 0xd) || n == 0x20 || n == 0x85 || n == 0xa0 || n == 0x1680 || (0x2000 <= n
        && n <= 0x200a) || n == 0x2028 || n == 0x2029 || n == 0x202f || n == 0x205f || n == 0x3000
}

/// `s` without the white space at its start.
pub open spec fn trim_start_white(s: Seq<char>) -> Seq<char>
    decreases s.len(),
{
    if s.len() > 0 && white(s[0]) {
        trim_start_white(s.drop_first())
    } else {
        s
    }
}

/// `s` without the white space at its end.
pub open spec fn trim_end_white(s: Seq<char>) -> Seq<char>
    decreases s.len(),
{
    if s.len() > 0 && white(s.last()) {
        trim_end_white(s.drop_last())
    } else {
        s
    }
}

/// `s` without the white space around it.
pub open spec fn trimmed(s: Seq<char>) -> Seq<char> {
    trim_end_white(trim_start_white(s))
}

/// The part of a text before the first `stop`, without the white space around it.
///
/// Where `stop` does not occur that part is the whole text.
pub fn trim_before(s: &str, stop: char) -> (r: String)
    ensures
        r@ == trimmed(s@.take(first_index(s@, stop))),
{
    let chars = chars_of(s);
    let mut end: usize = 0;
    while end < chars.len() && chars[end] != stop
        invariant
            end <= chars.len(),
            forall|i: int| 0 <= i < end ==> chars@[i] != stop,
        decreases chars.len() - end,
    {
        end = end + 1;
    }
    proof {
        first_index_is(s@, stop, end as int);
    }
    trim_range(&chars, end)
}

/// A text without the white space around it.
pub fn trim(s: &str) -> (r: String)
    ensures
        r@ == trimmed(s@),
{
    let chars = chars_of(s);
    assert(s@.take(s@.len() as int) =~= s@);
    trim_range(&chars, chars.len())
}

/// `chars[..end]` without the white space around it.
fn trim_range(chars: &Vec<char>, end: usize) -> (r: String)
    requires
        end <= chars.len(),
    ensures
        r@ == trimmed(chars@.take(end as int)),
{
    let ghost all = chars@.take(end as int);
    let mut from: usize = 0;
    assert(chars@.subrange(0, end as int) =~= all);
    while from < end && is_white(chars[from])
        invariant
            from <= end <= chars.len(),
            trim_start_white(all) == trim_start_white(chars@.subrange(from as int, end as int)),
        decreases end - from,
    {
        assert(chars@.subrange(from as int, end as int).drop_first() =~= chars@.subrange(
            from + 1,
            end as int,
        ));
        from = from + 1;
    }
    let mut to: usize = end;
    let ghost mid = chars@.subrange(from as int, end as int);
    while to > from && is_white(chars[to - 1])
        invariant
            from <= to <= end <= chars.len(),
            trim_end_white(mid) == trim_end_white(chars@.subrange(from as int, to as int)),
        decreases to,
    {
        assert(chars@.subrange(from as int, to as int).drop_last() =~= chars@.subrange(
            from as int,
            to - 1,
        ));
        to = to - 1;
    }
    string_of(chars, from, to)
}

// ---------------------------------------------------------------------------
// Numbers
// ---------------------------------------------------------------------------

/// The character of a decimal digit.
pub open spec fn digit(d: nat) -> char {
    (48 + d) as char
}

/// The decimal notation of `n`.
pub open spec fn decimal(n: nat) -> Seq<char>
    decreases n,
{
    if n < 10 {
        seq![digit(n)]
    } else {
        decimal(n / 10).push(digit(n % 10))
    }
}

/// The last `width` decimal digits of `n`, with zeros in front.
pub open spec fn last_digits(n: nat, width: nat) -> Seq<char>
    decreases width,
{
    if width == 0 {
        Seq::empty()
    } else {
        last_digits(n / 10, (width - 1) as nat).push(digit(n % 10))
    }
}

/// The character of a decimal digit.
fn digit_char(d: u64) -> (r: char)
    requires
        d < 10,
    ensures
        r == digit(d as nat),
{
    (48u8 + d as u8) as char
}

/// Appends the decimal notation of `n`.
pub fn push_decimal(out: &mut String, n: u64)
    ensures
        final(out)@ == old(out)@ + decimal(n as nat),
    decreases n,
{
    if n >= 10 {
        push_decimal(out, n / 10);
    }
    out.push(digit_char(n % 10));
    assert(out@ =~= old(out)@ + decimal(n as nat));
}

/// Appends the last `width` decimal digits of `n`.
pub fn push_last_digits(out: &mut String, n: u64, width: u64)
    ensures
        final(out)@ == old(out)@ + last_digits(n as nat, width as nat),
    decreases width,
{
    if width > 0 {
        push_last_digits(out, n / 10, width - 1);
        out.push(digit_char(n % 10));
    }
    assert(out@ =~= old(out)@ + last_digits(n as nat, width as nat));
}

/// A decimal digit.
pub open spec fn is_digit(c: char) -> bool {
    48 <= (c as int) <= 57
}

/// The number that a sequence of digits stands for.
pub open spec fn digits_value(s: Seq<char>) -> nat
    decreases s.len(),
{
    if s.len() == 0 {
        0
    } else {
        digits_value(s.drop_last()) * 10 + ((s.last() as int) - 48) as nat
    }
}

/// Every character is a digit.
pub open spec fn all_digits(s: Seq<char>) -> bool {
    forall|i: int| 0 <= i < s.len() ==> is_digit(#[trigger] s[i])
}

/// A text without the plus sign that it may start with.
pub open spec fn unsigned_part(s: Seq<char>) -> Seq<char> {
    if s.len() > 0 && s[0] == '+' {
        s.drop_first()
    } else {
        s
    }
}

/// The number that a text stands for: one or more digits, a plus sign allowed in
/// front, and a value that a `u64` can hold.
pub open spec fn u64_of(s: Seq<char>) -> Option<u64> {
    let body = unsigned_part(s);
    if body.len() > 0 && all_digits(body) && digits_value(body) <= u64::MAX {
        Some(digits_value(body) as u64)
    } else {
        None
    }
}

/// A longer sequence of digits stands for no smaller number.
proof fn lemma_digits_grow(s: Seq<char>, k: int)
    requires
        0 <= k <= s.len(),
    ensures
        digits_value(s.take(k)) <= digits_value(s),
    decreases s.len() - k,
{
    if k < s.len() {
        lemma_digits_grow(s, k + 1);
        assert(s.take(k + 1).drop_last() =~= s.take(k));
    } else {
        assert(s.take(k) =~= s);
    }
}

/// The number that a text stands for, where it stands for one.
pub fn parse_u64(s: &str) -> (r: Option<u64>)
    ensures
        r == u64_of(s@),
{
    let chars = chars_of(s);
    let start: usize = if chars.len() > 0 && chars[0] == '+' {
        1
    } else {
        0
    };
    let ghost body = unsigned_part(s@);
    assert(body =~= s@.skip(start as int));
    if chars.len() == start {
        return None;
    }
    let mut value: u64 = 0;
    let mut i: usize = start;
    while i < chars.len()
        invariant
            chars@ == s@,
            start <= i <= chars.len(),
            start < chars.len(),
            body == s@.skip(start as int),
            u64_of(s@) == if all_digits(body) && digits_value(body) <= u64::MAX {
                Some(digits_value(body) as u64)
            } else {
                None::<u64>
            },
            forall|k: int| 0 <= k < i - start ==> is_digit(#[trigger] body[k]),
            value == digits_value(body.take(i - start)),
        decreases chars.len() - i,
    {
        let code: u32 = code_point(chars[i]);
        assert(body[i - start] == chars@[i as int]);
        if code < 48 || code > 57 {
            assert(!is_digit(body[i - start]));
            return None;
        }
        assert(body.take(i + 1 - start).drop_last() =~= body.take(i - start));
        proof {
            lemma_digits_grow(body, i + 1 - start);
        }
        let step: u64 = (code - 48) as u64;
        if value > u64::MAX / 10 || value * 10 > u64::MAX - step {
            return None;
        }
        value = value * 10 + step;
        i = i + 1;
    }
    assert(body.take(i - start) =~= body);
    Some(value)
}

/// Reading the decimal notation of a number gives the number back.
pub proof fn decimal_reads_back(n: u64)
    ensures
        u64_of(decimal(n as nat)) == Some(n),
{
    lemma_decimal(n as nat);
    let s = decimal(n as nat);
    assert(is_digit(s[0]));
    assert(unsigned_part(s) == s);
}

/// The decimal notation is made of digits and stands for its number.
proof fn lemma_decimal(n: nat)
    ensures
        decimal(n).len() > 0,
        all_digits(decimal(n)),
        digits_value(decimal(n)) == n,
    decreases n,
{
    let s = decimal(n);
    if n < 10 {
        assert(s.drop_last() =~= Seq::<char>::empty());
        assert(digits_value(s.drop_last()) == 0);
    } else {
        lemma_decimal(n / 10);
        assert(s.drop_last() =~= decimal(n / 10));
    }
}

// ---------------------------------------------------------------------------
// Joining
// ---------------------------------------------------------------------------

/// The texts of `parts` one after the other, with `sep` between them.
pub open spec fn joined(parts: Seq<Seq<char>>, sep: Seq<char>) -> Seq<char>
    decreases parts.len(),
{
    if parts.len() == 0 {
        Seq::empty()
    } else if parts.len() == 1 {
        parts[0]
    } else {
        joined(parts.drop_last(), sep) + sep + parts.last()
    }
}

/// Joins texts with a separator between them.
pub fn join(parts: &Vec<String>, sep: &str) -> (r: String)
    ensures
        r@ == joined(texts(parts@), sep@),
{
    let mut out = String::new();
    let mut i: usize = 0;
    let ghost all = texts(parts@);
    assert(all.take(0) =~= Seq::<Seq<char>>::empty());
    while i < parts.len()
        invariant
            i <= parts.len(),
            all == texts(parts@),
            out@ == joined(all.take(i as int), sep@),
        decreases parts.len() - i,
    {
        if i > 0 {
            out.append(sep);
        }
        out.append(parts[i].as_str());
        assert(all.take(i + 1).drop_last() =~= all.take(i as int));
        assert(all.take(i + 1).last() == parts@[i as int]@);
        assert(out@ =~= joined(all.take(i + 1), sep@));
        i = i + 1;
    }
    assert(all.take(i as int) =~= all);
    out
}

// ---------------------------------------------------------------------------
// What holds of every text
// ---------------------------------------------------------------------------

/// `c`, `n` times.
pub open spec fn run_of(c: char, n: nat) -> Seq<char> {
    Seq::new(n, |i: int| c)
}

/// `part`, `n` times.
pub open spec fn repeated(part: Seq<char>, n: nat) -> Seq<char>
    decreases n,
{
    if n == 0 {
        Seq::empty()
    } else {
        repeated(part, (n - 1) as nat) + part
    }
}

/// Of two texts with a common start the first difference decides, and a text comes
/// before those that go on after it.
pub proof fn first_difference_decides(start: Seq<char>, a: Seq<char>, b: Seq<char>)
    ensures
        a.len() > 0 && b.len() > 0 && a[0] != b[0] ==> (text_precedes(start + a, start + b)
            <==> (a[0] as int) < (b[0] as int)),
        b.len() > 0 ==> text_precedes(start, start + b) && !text_precedes(start + b, start),
    decreases start.len(),
{
    if start.len() == 0 {
        assert(start + a =~= a);
        assert(start + b =~= b);
        assert(start =~= Seq::<char>::empty());
    } else {
        assert((start + a).drop_first() =~= start.drop_first() + a);
        assert((start + b).drop_first() =~= start.drop_first() + b);
        first_difference_decides(start.drop_first(), a, b);
    }
}

/// Whatever run of `c` a text ends in is removed, and nothing before it.
pub proof fn trim_end_removes_the_run(base: Seq<char>, c: char, n: nat)
    requires
        base.len() == 0 || base.last() != c,
    ensures
        trim_end(base + run_of(c, n), c) == base,
    decreases n,
{
    let s = base + run_of(c, n);
    if n == 0 {
        assert(s =~= base);
    } else {
        assert(s.last() == c);
        assert(s.drop_last() =~= base + run_of(c, (n - 1) as nat));
        trim_end_removes_the_run(base, c, (n - 1) as nat);
    }
}

/// However often a text ends in a suffix, that is removed, and nothing before it.
/// An empty suffix removes nothing.
pub proof fn trim_end_text_removes_repeats(base: Seq<char>, suffix: Seq<char>, n: nat)
    requires
        suffix.len() > 0,
        forall|x: Seq<char>| base != #[trigger] (x + suffix),
    ensures
        trim_end_text(base + repeated(suffix, n), suffix) == base,
        trim_end_text(base, Seq::empty()) == base,
    decreases n,
{
    let s = base + repeated(suffix, n);
    if n == 0 {
        assert(s =~= base);
        if ends_with(base, suffix) {
            let x = base.take(base.len() - suffix.len());
            assert(base =~= x + suffix);
        }
    } else {
        let shorter = base + repeated(suffix, (n - 1) as nat);
        assert(s =~= shorter + suffix);
        assert(s.skip(s.len() - suffix.len()) =~= suffix);
        assert(s.take(s.len() - suffix.len()) =~= shorter);
        trim_end_text_removes_repeats(base, suffix, (n - 1) as nat);
    }
}

/// A text starts with a prefix if and only if it is the prefix and what follows it.
pub proof fn prefix_and_rest(s: Seq<char>, prefix: Seq<char>, rest: Seq<char>)
    ensures
        after_prefix(s, prefix) == Some(rest) <==> s == prefix + rest,
        starts_with(prefix + rest, prefix),
{
    let n = prefix.len() as int;
    assert((prefix + rest).take(n) =~= prefix);
    assert((prefix + rest).skip(n) =~= rest);
    if starts_with(s, prefix) {
        assert(s =~= prefix + s.skip(n));
    }
}

/// White space is tab, line feed, vertical tab, form feed, carriage return, space
/// and the wide and narrow spaces of Unicode, and nothing else.
pub proof fn white_space_is_this(c: char)
    ensures
        white(c) <==> (c == '\t' || c == '\n' || c == '\u{b}' || c == '\u{c}' || c == '\r' || c
            == ' ' || c == '\u{85}' || c == '\u{a0}' || c == '\u{1680}' || c == '\u{2000}' || c
            == '\u{2001}' || c == '\u{2002}' || c == '\u{2003}' || c == '\u{2004}' || c
            == '\u{2005}' || c == '\u{2006}' || c == '\u{2007}' || c == '\u{2008}' || c
            == '\u{2009}' || c == '\u{200a}' || c == '\u{2028}' || c == '\u{2029}' || c
            == '\u{202f}' || c == '\u{205f}' || c == '\u{3000}'),
{
}

/// Every character is white space.
pub open spec fn all_white(s: Seq<char>) -> bool {
    forall|i: int| 0 <= i < s.len() ==> white(#[trigger] s[i])
}

/// White space in front is removed.
proof fn lemma_trim_start(left: Seq<char>, inner: Seq<char>)
    requires
        all_white(left),
        inner.len() == 0 || !white(inner[0]),
    ensures
        trim_start_white(left + inner) == inner,
    decreases left.len(),
{
    let s = left + inner;
    if left.len() == 0 {
        assert(s =~= inner);
    } else {
        assert(white(left[0]));
        assert(s.drop_first() =~= left.drop_first() + inner);
        assert forall|i: int| 0 <= i < left.drop_first().len() implies white(
            #[trigger] left.drop_first()[i],
        ) by {
            assert(white(left[i + 1]));
        }
        lemma_trim_start(left.drop_first(), inner);
    }
}

/// White space behind is removed.
proof fn lemma_trim_end(inner: Seq<char>, right: Seq<char>)
    requires
        all_white(right),
        inner.len() == 0 || !white(inner.last()),
    ensures
        trim_end_white(inner + right) == inner,
    decreases right.len(),
{
    let s = inner + right;
    if right.len() == 0 {
        assert(s =~= inner);
    } else {
        assert(white(right[right.len() - 1]));
        assert(s.drop_last() =~= inner + right.drop_last());
        assert forall|i: int| 0 <= i < right.drop_last().len() implies white(
            #[trigger] right.drop_last()[i],
        ) by {
            assert(white(right[i]));
        }
        lemma_trim_end(inner, right.drop_last());
    }
}

/// Trimming gives what stands between the white space at both ends, and only white
/// space goes.
pub proof fn trimming_gives_the_inside(left: Seq<char>, inner: Seq<char>, right: Seq<char>)
    requires
        all_white(left),
        all_white(right),
        inner.len() > 0,
        !white(inner[0]),
        !white(inner.last()),
    ensures
        trimmed(left + inner + right) == inner,
        trimmed(left) == Seq::<char>::empty(),
{
    assert(left + inner + right =~= left + (inner + right));
    lemma_trim_start(left, inner + right);
    lemma_trim_end(inner, right);
    let none = Seq::<char>::empty();
    assert(left + none =~= left);
    lemma_trim_start(left, none);
}

/// The ten digits.
pub open spec fn ten_digits() -> Seq<char> {
    seq!['0', '1', '2', '3', '4', '5', '6', '7', '8', '9']
}

/// A number is written with the ten digits, the highest first, without zeros in
/// front; its last digits are written with them.
pub proof fn decimals_are_positional(n: nat, d: nat, width: nat)
    requires
        d < 10,
    ensures
        decimal(d) == seq![ten_digits()[d as int]],
        n > 0 ==> decimal(10 * n + d) == decimal(n).push(ten_digits()[d as int]),
        last_digits(n, 0) == Seq::<char>::empty(),
        last_digits(10 * n + d, width + 1) == last_digits(n, width).push(ten_digits()[d as int]),
        last_digits(n, width).len() == width,
    decreases width,
{
    assert(digit(d) == ten_digits()[d as int]);
    assert((10 * n + d) / 10 == n && (10 * n + d) % 10 == d);
    if width > 0 {
        decimals_are_positional(n / 10, n % 10, (width - 1) as nat);
    }
}

/// What is read as a number: digits, a plus sign allowed in front. Each further
/// digit multiplies by ten and adds its value, as long as 64 bits hold the number.
pub proof fn numbers_are_read_digit_by_digit(s: Seq<char>, d: nat)
    requires
        d < 10,
    ensures
        u64_of(Seq::empty()) is None,
        u64_of(seq!['+']) is None,
        u64_of(seq![ten_digits()[d as int]]) == Some(d as u64),
        u64_of(s) matches Some(v) ==> u64_of(s.push(ten_digits()[d as int])) == if 10 * v + d
            <= u64::MAX {
            Some((10 * v + d) as u64)
        } else {
            None
        },
        s.len() > 0 && s[0] != '+' ==> u64_of(seq!['+'] + s) == u64_of(s),
{
    let c = ten_digits()[d as int];
    assert(is_digit(c) && c as int == 48 + d);
    let none = Seq::<char>::empty();
    assert(unsigned_part(seq!['+']) =~= none);
    assert(seq![c].drop_last() =~= none);
    assert(digits_value(none) == 0);
    assert(digits_value(seq![c]) == d);
    assert((seq!['+'] + s).drop_first() =~= s);
    if u64_of(s) is Some {
        let body = unsigned_part(s);
        let longer = s.push(c);
        assert(longer[0] == s[0]);
        assert(unsigned_part(longer) =~= body.push(c));
        assert(body.push(c).drop_last() =~= body);
        assert forall|i: int| 0 <= i < body.push(c).len() implies is_digit(
            #[trigger] body.push(c)[i],
        ) by {
            if i < body.len() {
                assert(is_digit(body[i]));
            }
        }
    }
}

/// A text with anything but digits is no number, but for one plus sign in front. A
/// number that 64 bits do not hold is none, and neither is one that starts with it.
pub proof fn other_texts_are_no_numbers(s: Seq<char>, i: int, more: Seq<char>)
    requires
        0 <= i < s.len(),
    ensures
        !ten_digits().contains(s[i]) && (i > 0 || s[i] != '+') ==> u64_of(s) is None,
        u64_of(s) is None && (forall|k: int| 0 <= k < s.len() ==> ten_digits().contains(
            #[trigger] s[k],
        )) ==> u64_of(s + more) is None,
{
    let body = unsigned_part(s);
    if !ten_digits().contains(s[i]) && (i > 0 || s[i] != '+') {
        if is_digit(s[i]) {
            let d = s[i] as int - 48;
            assert(ten_digits()[d] == s[i]);
        }
        if s[0] == '+' {
            assert(body[i - 1] == s[i]);
        } else {
            assert(body[i] == s[i]);
        }
    }
    if u64_of(s) is None && (forall|k: int|
        0 <= k < s.len() ==> ten_digits().contains(#[trigger] s[k])) {
        assert forall|k: int| 0 <= k < s.len() implies is_digit(#[trigger] s[k]) by {
            assert(ten_digits().contains(s[k]));
        }
        let all = s + more;
        assert(all[0] == s[0]);
        assert(is_digit(s[0]));
        assert(all.take(s.len() as int) =~= s);
        lemma_digits_grow(all, s.len() as int);
    }
}

/// Texts are joined in order, with the separator between any two and nowhere else.
pub proof fn joining_separates(parts: Seq<Seq<char>>, last: Seq<char>, sep: Seq<char>)
    ensures
        joined(Seq::empty(), sep) == Seq::<char>::empty(),
        joined(seq![last], sep) == last,
        parts.len() > 0 ==> joined(parts.push(last), sep) == joined(parts, sep) + sep + last,
{
    assert(parts.push(last).drop_last() =~= parts);
}

/// Every text is what is left of it without the `c` at its end, and a run of `c`.
pub proof fn trim_end_splits(s: Seq<char>, c: char) -> (n: nat)
    ensures
        s == trim_end(s, c) + run_of(c, n),
        trim_end(s, c).len() > 0 ==> trim_end(s, c).last() != c,
    decreases s.len(),
{
    if s.len() > 0 && s.last() == c {
        let n = trim_end_splits(s.drop_last(), c);
        let rest = trim_end(s.drop_last(), c);
        assert(run_of(c, n + 1) =~= run_of(c, n).push(c));
        assert(s =~= s.drop_last().push(c));
        assert((rest + run_of(c, n)).push(c) =~= rest + run_of(c, n).push(c));
        n + 1
    } else {
        assert(s =~= s + run_of(c, 0));
        0
    }
}

/// An optional text is there whenever it is given, also where it is empty, and a
/// list of texts has one for each string, in order.
pub proof fn texts_are_those_of_the_strings(s: String, t: &str, list: Seq<String>, i: int)
    ensures
        opt_text(Some(s)) == Some(s@),
        opt_text(None) is None,
        opt_str(Some(t)) == Some(t@),
        opt_str(None) is None,
        texts(list).len() == list.len(),
        0 <= i < list.len() ==> texts(list)[i] == list[i]@,
{
}

} // verus!
