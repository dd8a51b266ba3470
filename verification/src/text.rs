//! ASCII text as bytes: lines, whitespace-separated words, unsigned decimals.
//!
//! Everything here speaks of a window `[from, to)` of a byte sequence, so that
//! a reader can walk a buffer without copying lines or words out of it.

use vstd::prelude::*;

verus! {

/// A window `[start, end)` of a byte buffer.
#[derive(Clone, Copy, Debug)]
pub struct Span {
    pub start: usize,
    pub end: usize,
}

impl Span {
    /// The bytes of `s` that the window covers.
    pub open spec fn of(self, s: Seq<u8>) -> Seq<u8> {
        s.subrange(self.start as int, self.end as int)
    }
}

/// The window from `a` to `b`.
pub open spec fn span(a: int, b: int) -> Span {
    Span { start: a as usize, end: b as usize }
}

/// ASCII whitespace: space, tab, line feed, vertical tab, form feed, carriage return.
pub open spec fn is_space(b: u8) -> bool {
    b == 0x20 || (0x09 <= b && b <= 0x0d)
}

/// A decimal digit `0` to `9`.
pub open spec fn is_digit(b: u8) -> bool {
    0x30 <= b && b <= 0x39
}

/// Where the line that starts at `from` ends: just after its line feed, or at
/// the end of `s` where no line feed follows.
pub open spec fn line_end(s: Seq<u8>, from: int) -> int
    decreases s.len() - from,
{
    if from < 0 || from >= s.len() {
        s.len() as int
    } else if s[from] == 0x0a {
        from + 1
    } else {
        line_end(s, from + 1)
    }
}

/// The words of `s[i..to)`, given that a word is open since `open` (or none
/// is): the rest of the open word first, then each later word.
pub open spec fn words_from(s: Seq<u8>, i: int, to: int, open: Option<int>) -> Seq<Span>
    decreases to - i,
{
    if i >= to {
        match open {
            Some(a) => seq![span(a, i)],
            None => Seq::empty(),
        }
    } else if is_space(s[i]) {
        match open {
            Some(a) => seq![span(a, i)] + words_from(s, i + 1, to, None),
            None => words_from(s, i + 1, to, None),
        }
    } else {
        match open {
            Some(a) => words_from(s, i + 1, to, open),
            None => words_from(s, i + 1, to, Some(i)),
        }
    }
}

/// The whitespace-separated words of `s[from..to)`, left to right.
pub open spec fn words(s: Seq<u8>, from: int, to: int) -> Seq<Span> {
    words_from(s, from, to, None)
}

/// `w` is a word of `s[from..to)`: a run of bytes that are not whitespace,
/// which no such byte precedes or follows inside the window.
pub open spec fn is_word(s: Seq<u8>, from: int, to: int, w: Span) -> bool {
    &&& from <= w.start < w.end <= to
    &&& forall|i: int| w.start <= i < w.end ==> !is_space(#[trigger] s[i])
    &&& w.start == from || is_space(s[w.start - 1])
    &&& w.end == to || is_space(s[w.end as int])
}

/// Some window of `ws` covers position `i`.
pub open spec fn covered(ws: Seq<Span>, i: int) -> bool {
    exists|k: int| 0 <= k < ws.len() && (#[trigger] ws[k]).start <= i < ws[k].end
}

/// `word` stands in `s` at `at` and ends at or before `to`.
pub open spec fn matches_at(s: Seq<u8>, at: int, to: int, word: Seq<u8>) -> bool {
    &&& 0 <= at
    &&& at + word.len() <= to
    &&& to <= s.len()
    &&& s.subrange(at, at + word.len()) == word
}

/// `word` occurs somewhere in `s[from..to)`.
pub open spec fn contains_word(s: Seq<u8>, from: int, to: int, word: Seq<u8>) -> bool {
    exists|at: int| from <= at && #[trigger] matches_at(s, at, to, word)
}

/// The value of one byte as a decimal digit; 0 for any other byte.
pub open spec fn digit_value(b: u8) -> nat {
    if is_digit(b) {
        (b - 0x30) as nat
    } else {
        0
    }
}

/// The number that the digits `d` write in base ten.
pub open spec fn decimal_value(d: Seq<u8>) -> nat
    decreases d.len(),
{
    if d.len() == 0 {
        0
    } else {
        decimal_value(d.drop_last()) * 10 + digit_value(d.last())
    }
}

/// `d` is one or more decimal digits.
pub open spec fn all_digits(d: Seq<u8>) -> bool {
    d.len() > 0 && forall|i: int| 0 <= i < d.len() ==> is_digit(#[trigger] d[i])
}

/// `t` without its leading plus sign, if it has one.
pub open spec fn unsigned_digits(t: Seq<u8>) -> Seq<u8> {
    if t.len() > 0 && t[0] == 0x2b {
        t.skip(1)
    } else {
        t
    }
}

/// The unsigned number that `t` writes, if it writes one that is at most
/// `max`: an optional plus sign, then one or more decimal digits.
pub open spec fn parse_unsigned(t: Seq<u8>, max: nat) -> Option<nat> {
    let d = unsigned_digits(t);
    if all_digits(d) && decimal_value(d) <= max {
        Some(decimal_value(d))
    } else {
        None
    }
}

/// A line that starts inside `s` is not empty and ends inside `s`.
pub proof fn lemma_line_end(s: Seq<u8>, from: int)
    requires
        0 <= from <= s.len(),
    ensures
        from <= line_end(s, from) <= s.len(),
        from < s.len() ==> from < line_end(s, from),
        forall|i: int| from <= i < line_end(s, from) - 1 ==> #[trigger] s[i] != 0x0a,
        line_end(s, from) < s.len() ==> s[line_end(s, from) - 1] == 0x0a,
    decreases s.len() - from,
{
    if from < s.len() && s[from] != 0x0a {
        lemma_line_end(s, from + 1);
    }
}

proof fn lemma_words_from(s: Seq<u8>, from: int, i: int, to: int, open: Option<int>)
    requires
        0 <= from <= i <= to <= s.len(),
        to <= usize::MAX,
        open matches Some(a) ==> {
            &&& from <= a < i
            &&& forall|j: int| a <= j < i ==> !is_space(#[trigger] s[j])
            &&& a == from || is_space(s[a - 1])
        },
        open is None ==> i == from || is_space(s[i - 1]),
    ensures
        forall|k: int|
            0 <= k < words_from(s, i, to, open).len() ==> is_word(
                s,
                from,
                to,
                #[trigger] words_from(s, i, to, open)[k],
            ),
        forall|k: int|
            0 <= k < words_from(s, i, to, open).len() ==> (#[trigger] words_from(
                s,
                i,
                to,
                open,
            )[k]).start >= (match open {
                Some(a) => a,
                None => i,
            }),
        forall|a: int, b: int|
            0 <= a < b < words_from(s, i, to, open).len() ==> (#[trigger] words_from(
                s,
                i,
                to,
                open,
            )[a]).end < (#[trigger] words_from(s, i, to, open)[b]).start,
        forall|j: int|
            (match open {
                Some(a) => a,
                None => i,
            }) <= j < to && !is_space(s[j]) ==> #[trigger] covered(
                words_from(s, i, to, open),
                j,
            ),
    decreases to - i,
{
    let ws = words_from(s, i, to, open);
    let lo = match open {
        Some(a) => a,
        None => i,
    };
    if i >= to {
        match open {
            Some(a) => {
                assert(ws[0] == span(a, i));
                assert forall|j: int| lo <= j < to && !is_space(s[j]) implies #[trigger] covered(
                    ws,
                    j,
                ) by {
                    assert(ws[0].start <= j < ws[0].end);
                }
            },
            None => {},
        }
    } else if is_space(s[i]) {
        lemma_words_from(s, from, i + 1, to, None);
        let rest = words_from(s, i + 1, to, None);
        match open {
            Some(a) => {
                assert(ws =~= seq![span(a, i)] + rest);
                assert(ws[0] == span(a, i));
                assert forall|k: int| 0 <= k < ws.len() implies is_word(
                    s,
                    from,
                    to,
                    #[trigger] ws[k],
                ) && ws[k].start >= lo by {
                    if k > 0 {
                        assert(ws[k] == rest[k - 1]);
                    }
                }
                assert forall|x: int, y: int| 0 <= x < y < ws.len() implies (#[trigger] ws[x]).end
                    < (#[trigger] ws[y]).start by {
                    assert(ws[y] == rest[y - 1]);
                    if x > 0 {
                        assert(ws[x] == rest[x - 1]);
                    }
                }
                assert forall|j: int| lo <= j < to && !is_space(s[j]) implies #[trigger] covered(
                    ws,
                    j,
                ) by {
                    if j < i {
                        assert(ws[0].start <= j < ws[0].end);
                    } else {
                        assert(covered(rest, j));
                        let k = choose|k: int|
                            0 <= k < rest.len() && (#[trigger] rest[k]).start <= j < rest[k].end;
                        assert(ws[k + 1] == rest[k]);
                    }
                }
            },
            None => {
                assert(ws == rest);
                assert forall|j: int| lo <= j < to && !is_space(s[j]) implies #[trigger] covered(
                    ws,
                    j,
                ) by {
                    assert(covered(rest, j));
                }
            },
        }
    } else {
        let next = match open {
            Some(a) => open,
            None => Some(i),
        };
        lemma_words_from(s, from, i + 1, to, next);
        assert(ws == words_from(s, i + 1, to, next));
    }
}

/// The words of a window are exactly its maximal runs of bytes that are not
/// whitespace: each listed window is such a run, the windows follow one
/// another from left to right and do not touch, and every byte that is not
/// whitespace lies in one of them.
pub proof fn lemma_words(s: Seq<u8>, from: int, to: int)
    requires
        0 <= from <= to <= s.len(),
        to <= usize::MAX,
    ensures
        forall|k: int|
            0 <= k < words(s, from, to).len() ==> is_word(
                s,
                from,
                to,
                #[trigger] words(s, from, to)[k],
            ),
        forall|a: int, b: int|
            0 <= a < b < words(s, from, to).len() ==> (#[trigger] words(s, from, to)[a]).end < (
            #[trigger] words(s, from, to)[b]).start,
        forall|j: int|
            from <= j < to && !is_space(s[j]) ==> #[trigger] covered(words(s, from, to), j),
{
    lemma_words_from(s, from, from, to, None);
}

/// A number written with more digits is not smaller.
pub proof fn lemma_decimal_value_prefix(d: Seq<u8>, k: int)
    requires
        0 <= k <= d.len(),
    ensures
        decimal_value(d.take(k)) <= decimal_value(d),
    decreases d.len() - k,
{
    if k < d.len() {
        lemma_decimal_value_prefix(d, k + 1);
        assert(d.take(k + 1).drop_last() =~= d.take(k));
    } else {
        assert(d.take(k) =~= d);
    }
}

/// Tells whether `b` is ASCII whitespace.
pub fn is_space_byte(b: u8) -> (r: bool)
    ensures
        r == is_space(b),
{
    b == 0x20 || (0x09 <= b && b <= 0x0d)
}

/// Finds the end of the line that starts at `from`.
pub fn find_line_end(data: &[u8], from: usize) -> (end: usize)
    requires
        from <= data@.len(),
    ensures
        end == line_end(data@, from as int),
        from <= end <= data@.len(),
        from < data@.len() ==> from < end,
{
    proof {
        lemma_line_end(data@, from as int);
    }
    let mut i: usize = from;
    while i < data.len() && data[i] != 0x0a
        invariant
            from <= i <= data@.len(),
            line_end(data@, from as int) == line_end(data@, i as int),
        decreases data@.len() - i,
    {
        i += 1;
    }
    if i < data.len() {
        i + 1
    } else {
        i
    }
}

/// Splits `data[from..to)` into its whitespace-separated words.
pub fn split_words(data: &[u8], from: usize, to: usize) -> (out: Vec<Span>)
    requires
        from <= to <= data@.len(),
    ensures
        out@ == words(data@, from as int, to as int),
        forall|k: int|
            0 <= k < out@.len() ==> from <= (#[trigger] out@[k]).start < out@[k].end <= to,
{
    let mut out: Vec<Span> = Vec::new();
    let mut open: Option<usize> = None;
    let mut i: usize = from;
    while i < to
        invariant
            from <= i <= to <= data@.len(),
            open matches Some(a) ==> from <= a < i,
            words(data@, from as int, to as int) == out@ + words_from(
                data@,
                i as int,
                to as int,
                match open {
                    Some(a) => Some(a as int),
                    None => None,
                },
            ),
            forall|k: int|
                0 <= k < out@.len() ==> from <= (#[trigger] out@[k]).start < out@[k].end <= i,
        decreases to - i,
    {
        let ghost before = out@;
        if is_space_byte(data[i]) {
            if let Some(a) = open {
                out.push(Span { start: a, end: i });
                open = None;
                assert(out@ + words_from(data@, i + 1, to as int, None) =~= before + (seq![
                    span(a as int, i as int),
                ] + words_from(data@, i + 1, to as int, None)));
            }
        } else if open.is_none() {
            open = Some(i);
        }
        i += 1;
    }
    if let Some(a) = open {
        let ghost before = out@;
        out.push(Span { start: a, end: to });
        assert(out@ =~= before + seq![span(a as int, to as int)]);
    } else {
        assert(out@ =~= out@ + Seq::<Span>::empty());
    }
    out
}

/// Tells whether `word` stands in `data` at `at` and ends at or before `to`.
pub fn word_at(data: &[u8], at: usize, to: usize, word: &[u8]) -> (r: bool)
    requires
        at <= to <= data@.len(),
    ensures
        r == matches_at(data@, at as int, to as int, word@),
{
    if word.len() > to - at {
        return false;
    }
    let mut j: usize = 0;
    while j < word.len()
        invariant
            at <= to <= data@.len(),
            word@.len() <= to - at,
            j <= word@.len(),
            forall|k: int| 0 <= k < j ==> data@[at + k] == word@[k],
        decreases word@.len() - j,
    {
        if data[at + j] != word[j] {
            assert(data@.subrange(at as int, at + word@.len())[j as int] != word@[j as int]);
            return false;
        }
        j += 1;
    }
    assert(data@.subrange(at as int, at + word@.len()) =~= word@);
    true
}

/// Tells whether `word` occurs somewhere in `data[from..to)`.
pub fn find_word(data: &[u8], from: usize, to: usize, word: &[u8]) -> (r: bool)
    requires
        from <= to <= data@.len(),
    ensures
        r == contains_word(data@, from as int, to as int, word@),
{
    let mut at: usize = from;
    while at <= to
        invariant
            from <= at <= to + 1,
            to <= data@.len(),
            forall|k: int| from <= k < at ==> !#[trigger] matches_at(data@, k, to as int, word@),
        decreases to + 1 - at,
    {
        if word_at(data, at, to, word) {
            return true;
        }
        if at == to {
            return false;
        }
        at += 1;
    }
    false
}

/// Reads `data[from..to)` as an unsigned decimal number of at most `max`.
pub fn read_unsigned(data: &[u8], from: usize, to: usize, max: u64) -> (r: Option<u64>)
    requires
        from <= to <= data@.len(),
    ensures
        match parse_unsigned(data@.subrange(from as int, to as int), max as nat) {
            Some(v) => r == Some(v as u64),
            None => r.is_none(),
        },
{
    let ghost t = data@.subrange(from as int, to as int);
    let start: usize = if from < to && data[from] == 0x2b {
        from + 1
    } else {
        from
    };
    let ghost d = unsigned_digits(t);
    assert(d =~= data@.subrange(start as int, to as int));
    if start == to {
        return None;
    }
    let mut value: u64 = 0;
    let mut i: usize = start;
    while i < to
        invariant
            from <= start <= i <= to <= data@.len(),
            d == unsigned_digits(data@.subrange(from as int, to as int)),
            d == data@.subrange(start as int, to as int),
            value == decimal_value(d.take(i - start)),
            value <= max,
            forall|k: int| 0 <= k < i - start ==> is_digit(#[trigger] d[k]),
        decreases to - i,
    {
        let b = data[i];
        if b < 0x30 || b > 0x39 {
            assert(!is_digit(d[i - start]));
            return None;
        }
        let digit: u64 = (b - 0x30) as u64;
        proof {
            assert(d.take(i - start + 1).drop_last() =~= d.take(i - start));
            assert(decimal_value(d.take(i - start + 1)) == value * 10 + digit);
            lemma_decimal_value_prefix(d, i - start + 1);
        }
        if max < digit || value > (max - digit) / 10 {
            return None;
        }
        value = value * 10 + digit;
        i += 1;
    }
    assert(d.take(to - start) =~= d);
    Some(value)
}

} // verus!
