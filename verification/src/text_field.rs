//! The text logic of the single-line text field: UTF-8 and UTF-16
//! offsets, grapheme boundaries, the masked display mapping, and line-break
//! removal.

use vstd::prelude::*;

use unicode_segmentation::UnicodeSegmentation;
use vstd::utf8::encode_utf8;

use crate::text::{chars_of, string_from_chars};

verus! {

/// The number of bytes of a character in UTF-8 (`char::len_utf8`).
pub open spec fn char_utf8_len(c: char) -> nat {
    let x = c as u32;
    if x < 0x80 {
        1
    } else if x < 0x800 {
        2
    } else if x < 0x10000 {
        3
    } else {
        4
    }
}

/// The number of UTF-16 units of a character (`char::len_utf16`).
pub open spec fn char_utf16_len(c: char) -> nat {
    if (c as u32) < 0x10000 {
        1
    } else {
        2
    }
}

/// The number of bytes of a text in UTF-8.
pub open spec fn utf8_length(s: Seq<char>) -> nat
    decreases s.len(),
{
    if s.len() == 0 {
        0
    } else {
        char_utf8_len(s[0]) + utf8_length(s.drop_first())
    }
}

/// The byte offset reached after `units` UTF-16 units of `s`: whole
/// characters are taken while fewer units than asked have been passed.
pub open spec fn utf8_offset_of_utf16(s: Seq<char>, units: int) -> nat
    decreases s.len(),
{
    if s.len() == 0 || units <= 0 {
        0
    } else {
        char_utf8_len(s[0]) + utf8_offset_of_utf16(s.drop_first(), units - char_utf16_len(s[0]))
    }
}

/// The UTF-16 offset reached after `bytes` UTF-8 bytes of `s`: whole
/// characters are taken while fewer bytes than asked have been passed.
pub open spec fn utf16_offset_of_utf8(s: Seq<char>, bytes: int) -> nat
    decreases s.len(),
{
    if s.len() == 0 || bytes <= 0 {
        0
    } else {
        char_utf16_len(s[0]) + utf16_offset_of_utf8(s.drop_first(), bytes - char_utf8_len(s[0]))
    }
}

/// A text with line breaks turned into spaces.
pub open spec fn without_line_breaks(s: Seq<char>) -> Seq<char> {
    s.map_values(|c: char| if c == '\r' || c == '\n' { ' ' } else { c })
}

fn utf8_len_of(c: char) -> (n: usize)
    ensures
        n == char_utf8_len(c),
{
    let x = c as u32;
    if x < 0x80 {
        1
    } else if x < 0x800 {
        2
    } else if x < 0x10000 {
        3
    } else {
        4
    }
}

fn utf16_len_of(c: char) -> (n: usize)
    ensures
        n == char_utf16_len(c),
{
    if (c as u32) < 0x10000 {
        1
    } else {
        2
    }
}

/// Whether byte offset `b` falls between two characters of `s` (or at
/// either end).
pub open spec fn is_boundary(s: Seq<char>, b: int) -> bool {
    exists|k: int| 0 <= k <= s.len() && utf8_length(#[trigger] s.take(k)) == b
}

/// Offsets through a text never pass its length.
pub proof fn lemma_offsets_within_length(s: Seq<char>, n: int)
    ensures
        utf8_offset_of_utf16(s, n) <= utf8_length(s),
        utf16_offset_of_utf8(s, n) <= utf8_length(s),
    decreases s.len(),
{
    if s.len() > 0 {
        lemma_offsets_within_length(s.drop_first(), n - char_utf16_len(s[0]));
        lemma_offsets_within_length(s.drop_first(), n - char_utf8_len(s[0]));
    }
}

/// Splitting a text splits its UTF-8 length.
pub proof fn lemma_utf8_length_split(s: Seq<char>, i: int)
    requires
        0 <= i <= s.len(),
    ensures
        utf8_length(s) == utf8_length(s.take(i)) + utf8_length(s.skip(i)),
    decreases i,
{
    if i > 0 {
        lemma_utf8_length_split(s.drop_first(), i - 1);
        assert(s.take(i).drop_first() =~= s.drop_first().take(i - 1));
        assert(s.drop_first().skip(i - 1) =~= s.skip(i));
    } else {
        assert(s.skip(0) =~= s);
    }
}

/// Replaces line breaks (CR and LF) with spaces: the field holds one line.
pub fn sanitize_text(value: &str) -> (r: String)
    ensures
        r@ == without_line_breaks(value@),
{
    let chars = chars_of(value);
    let mut out: Vec<char> = Vec::new();
    let mut i: usize = 0;
    while i < chars.len()
        invariant
            i <= chars@.len(),
            chars@ == value@,
            out@ == without_line_breaks(value@.take(i as int)),
        decreases chars.len() - i,
    {
        let c = chars[i];
        if c == '\r' || c == '\n' {
            out.push(' ');
        } else {
            out.push(c);
        }
        i = i + 1;
        assert(out@ =~= without_line_breaks(value@.take(i as int)));
    }
    assert(value@.take(chars@.len() as int) =~= value@);
    string_from_chars(&out)
}

/// The byte offset of a UTF-16 offset (as an input method reports it).
pub fn offset_from_utf16(text: &str, offset: usize) -> (r: usize)
    requires
        utf8_length(text@) <= usize::MAX,
    ensures
        r == utf8_offset_of_utf16(text@, offset as int),
{
    let chars = chars_of(text);
    let ghost s = text@;
    let mut utf8: usize = 0;
    let mut utf16: usize = 0;
    let mut i: usize = 0;
    assert(s.skip(0) =~= s);
    proof {
        lemma_utf8_length_split(s, 0);
    }
    while i < chars.len() && utf16 < offset
        invariant
            i <= chars@.len(),
            chars@ == s,
            utf8_length(s) <= usize::MAX,
            utf8 == utf8_length(s.take(i as int)),
            utf16 <= utf8,
            utf8_offset_of_utf16(s, offset as int) == utf8 + utf8_offset_of_utf16(s.skip(i as int), offset - utf16),
        decreases chars.len() - i,
    {
        let c = chars[i];
        proof {
            lemma_utf8_length_split(s, i as int);
            lemma_utf8_length_split(s, i + 1);
            assert(s.skip(i as int).drop_first() =~= s.skip(i + 1));
            assert(s.skip(i as int)[0] == c);
            assert(s.take(i + 1).drop_last() =~= s.take(i as int));
            lemma_utf8_length_last(s.take(i + 1));
        }
        utf16 = utf16 + utf16_len_of(c);
        utf8 = utf8 + utf8_len_of(c);
        i = i + 1;
    }
    assert(i == chars@.len() ==> s.skip(i as int).len() == 0);
    utf8
}

/// Removing the last character removes its bytes.
pub proof fn lemma_utf8_length_last(s: Seq<char>)
    requires
        s.len() > 0,
    ensures
        utf8_length(s) == utf8_length(s.drop_last()) + char_utf8_len(s.last()),
    decreases s.len(),
{
    if s.len() > 1 {
        lemma_utf8_length_last(s.drop_first());
        assert(s.drop_first().drop_last() =~= s.drop_last().drop_first());
        assert(s.drop_last()[0] == s[0]);
        assert(s.drop_first().last() == s.last());
    } else {
        assert(s.drop_last().len() == 0);
        assert(s.drop_first().len() == 0);
        assert(utf8_length(s.drop_first()) == 0);
        assert(utf8_length(s.drop_last()) == 0);
    }
}


/// The UTF-8 length of a text is the length of its encoding.
pub proof fn lemma_utf8_length_is_encoded_length(s: Seq<char>)
    ensures
        utf8_length(s) == encode_utf8(s).len(),
    decreases s.len(),
{
    if s.len() > 0 {
        lemma_utf8_length_is_encoded_length(s.drop_first());
        vstd::utf8::char_is_scalar(s[0]);
    }
}

/// The UTF-16 offset of a byte offset (as an input method expects it).
pub fn offset_to_utf16(text: &str, offset: usize) -> (r: usize)
    requires
        utf8_length(text@) <= usize::MAX,
    ensures
        r == utf16_offset_of_utf8(text@, offset as int),
{
    let chars = chars_of(text);
    let ghost s = text@;
    let mut utf8: usize = 0;
    let mut utf16: usize = 0;
    let mut i: usize = 0;
    assert(s.skip(0) =~= s);
    proof {
        lemma_utf8_length_split(s, 0);
    }
    while i < chars.len() && utf8 < offset
        invariant
            i <= chars@.len(),
            chars@ == s,
            utf8_length(s) <= usize::MAX,
            utf8 == utf8_length(s.take(i as int)),
            utf16 <= utf8,
            utf16_offset_of_utf8(s, offset as int) == utf16 + utf16_offset_of_utf8(s.skip(i as int), offset - utf8),
        decreases chars.len() - i,
    {
        let c = chars[i];
        proof {
            lemma_utf8_length_split(s, i as int);
            lemma_utf8_length_split(s, i + 1);
            assert(s.skip(i as int).drop_first() =~= s.skip(i + 1));
            assert(s.skip(i as int)[0] == c);
            assert(s.take(i + 1).drop_last() =~= s.take(i as int));
            lemma_utf8_length_last(s.take(i + 1));
        }
        utf16 = utf16 + utf16_len_of(c);
        utf8 = utf8 + utf8_len_of(c);
        i = i + 1;
    }
    assert(i == chars@.len() ==> s.skip(i as int).len() == 0);
    utf16
}

/// A UTF-16 range as a byte range, its ends in order.
pub fn range_from_utf16(text: &str, start: usize, end: usize) -> (r: (usize, usize))
    requires
        utf8_length(text@) <= usize::MAX,
    ensures
        r.0 <= r.1,
        ({
            let a = utf8_offset_of_utf16(text@, start as int);
            let b = utf8_offset_of_utf16(text@, end as int);
            r == (if a <= b { (a as usize, b as usize) } else { (b as usize, a as usize) })
        }),
{
    let a = offset_from_utf16(text, start);
    let b = offset_from_utf16(text, end);
    if a <= b {
        (a, b)
    } else {
        (b, a)
    }
}

/// A byte range as a UTF-16 range, its ends in order.
pub fn range_to_utf16(text: &str, start: usize, end: usize) -> (r: (usize, usize))
    requires
        utf8_length(text@) <= usize::MAX,
    ensures
        r.0 <= r.1,
        ({
            let a = utf16_offset_of_utf8(text@, start as int);
            let b = utf16_offset_of_utf8(text@, end as int);
            r == (if a <= b { (a as usize, b as usize) } else { (b as usize, a as usize) })
        }),
{
    let a = offset_to_utf16(text, start);
    let b = offset_to_utf16(text, end);
    if a <= b {
        (a, b)
    } else {
        (b, a)
    }
}

/// The byte offsets at which the extended grapheme clusters of a text start
/// (`UnicodeSegmentation::grapheme_indices`), in order.
pub uninterp spec fn grapheme_starts_of(s: Seq<char>) -> Seq<usize>;

/// The start offsets of the extended grapheme clusters of a text
/// (`grapheme_indices(true)`, keeping the offsets). The result is named
/// `grapheme_starts_of`, a function of the text alone.
/// Besides, there are no more clusters than bytes, and each cluster starts
/// on a character boundary.
#[verifier::external_body]
fn grapheme_starts(text: &str) -> (r: Vec<usize>)
    ensures
        r@ == grapheme_starts_of(text@),
        r@.len() <= encode_utf8(text@).len(),
        forall|i: int| 0 <= i < r@.len() ==> is_boundary(text@, #[trigger] r@[i] as int),
{
    text.grapheme_indices(true).map(|(index, _)| index).collect()
}

/// The last start before `offset`, or 0.
pub open spec fn previous_start(starts: Seq<usize>, offset: int) -> int
    decreases starts.len(),
{
    if starts.len() == 0 {
        0
    } else if starts.last() < offset {
        starts.last() as int
    } else {
        previous_start(starts.drop_last(), offset)
    }
}

/// The first start after `offset`, or `len`.
pub open spec fn next_start(starts: Seq<usize>, len: int, offset: int) -> int
    decreases starts.len(),
{
    if starts.len() == 0 {
        len
    } else if starts[0] > offset {
        starts[0] as int
    } else {
        next_start(starts.drop_first(), len, offset)
    }
}

/// Scanning the starts from `previous` on: the start at `offset`, or the
/// nearer of the starts around it (the earlier on a tie), the text's end
/// counting as a start.
pub open spec fn nearest_scan(starts: Seq<usize>, offset: int, previous: int, len: int) -> int
    decreases starts.len(),
{
    if starts.len() == 0 {
        if offset - previous <= len - offset {
            previous
        } else {
            len
        }
    } else if starts[0] == offset {
        offset
    } else if starts[0] > offset {
        if offset - previous <= starts[0] - offset {
            previous
        } else {
            starts[0] as int
        }
    } else {
        nearest_scan(starts.drop_first(), offset, starts[0] as int, len)
    }
}

/// The grapheme boundary nearest to `offset` in a text of `len` bytes.
pub open spec fn nearest_boundary(starts: Seq<usize>, len: int, offset: int) -> int {
    if offset == 0 || len == 0 {
        0
    } else if offset >= len {
        len
    } else {
        nearest_scan(starts, offset, 0, len)
    }
}

/// The boundary before `offset`: the last grapheme start before it, or 0.
pub fn previous_boundary(starts: &Vec<usize>, offset: usize) -> (r: usize)
    ensures
        r == previous_start(starts@, offset as int),
{
    let mut k: usize = starts.len();
    assert(starts@.take(k as int) =~= starts@);
    while k > 0 && starts[k - 1] >= offset
        invariant
            k <= starts@.len(),
            previous_start(starts@, offset as int) == previous_start(starts@.take(k as int), offset as int),
        decreases k,
    {
        assert(starts@.take(k as int).drop_last() =~= starts@.take(k - 1));
        k = k - 1;
    }
    if k == 0 {
        0
    } else {
        starts[k - 1]
    }
}

/// The boundary after `offset`: the first grapheme start after it, or the
/// end of the text.
pub fn next_boundary(starts: &Vec<usize>, len: usize, offset: usize) -> (r: usize)
    ensures
        r == next_start(starts@, len as int, offset as int),
{
    let mut k: usize = 0;
    assert(starts@.skip(0) =~= starts@);
    while k < starts.len() && starts[k] <= offset
        invariant
            k <= starts@.len(),
            next_start(starts@, len as int, offset as int) == next_start(starts@.skip(k as int), len as int, offset as int),
        decreases starts.len() - k,
    {
        assert(starts@.skip(k as int).drop_first() =~= starts@.skip(k + 1));
        k = k + 1;
    }
    if k == starts.len() {
        len
    } else {
        starts[k]
    }
}

/// The grapheme boundary nearest to `offset` (ties go to the earlier one),
/// in a text of `len` bytes whose graphemes start at `starts`.
pub fn nearest_grapheme_boundary(starts: &Vec<usize>, len: usize, offset: usize) -> (r: usize)
    ensures
        r == nearest_boundary(starts@, len as int, offset as int),
{
    if offset == 0 || len == 0 {
        return 0;
    }
    if offset >= len {
        return len;
    }
    let mut previous: usize = 0;
    let mut k: usize = 0;
    assert(starts@.skip(0) =~= starts@);
    while k < starts.len()
        invariant
            k <= starts@.len(),
            previous <= offset < len,
            nearest_boundary(starts@, len as int, offset as int)
                == nearest_scan(starts@.skip(k as int), offset as int, previous as int, len as int),
        decreases starts.len() - k,
    {
        let index = starts[k];
        assert(starts@.skip(k as int)[0] == index);
        if index == offset {
            return index;
        }
        if index > offset {
            return if offset - previous <= index - offset {
                previous
            } else {
                index
            };
        }
        assert(starts@.skip(k as int).drop_first() =~= starts@.skip(k + 1));
        previous = index;
        k = k + 1;
    }
    if offset - previous <= len - offset {
        previous
    } else {
        len
    }
}

/// The grapheme starts and the byte length of a text.
pub fn grapheme_layout(text: &str) -> (r: (Vec<usize>, usize))
    ensures
        r.0@ == grapheme_starts_of(text@),
        r.0@.len() <= encode_utf8(text@).len(),
        forall|i: int| 0 <= i < r.0@.len() ==> is_boundary(text@, #[trigger] r.0@[i] as int),
        r.1 == encode_utf8(text@).len() as usize,
{
    (grapheme_starts(text), text.len())
}


/// How the shown text maps onto the content: the content itself, the
/// placeholder (for an empty field), or one bullet per grapheme, with the
/// pairs (content offset, display offset) of the grapheme boundaries.
pub enum DisplayMapping {
    Identity,
    Placeholder,
    Masked(Vec<(usize, usize)>),
}

/// The end of grapheme `k`: the next start, or the end of the text.
pub open spec fn grapheme_end(starts: Seq<usize>, len: int, k: int) -> int {
    if k + 1 < starts.len() {
        starts[k + 1] as int
    } else {
        len
    }
}

/// The boundaries of a masked text: (0, 0), then after grapheme `k` its end
/// and `3 (k + 1)`, a bullet being three bytes.
pub open spec fn masked_boundaries(starts: Seq<usize>, len: int) -> Seq<(usize, usize)> {
    Seq::new(
        starts.len() + 1,
        |k: int| if k == 0 { (0usize, 0usize) } else { (grapheme_end(starts, len, k - 1) as usize, (3 * k) as usize) },
    )
}

/// The display offset of the last boundary whose content offset is at most
/// `offset` (0 when there is none).
pub open spec fn display_at(b: Seq<(usize, usize)>, offset: int) -> int
    decreases b.len(),
{
    if b.len() == 0 {
        0
    } else if b.last().0 <= offset {
        b.last().1 as int
    } else {
        display_at(b.drop_last(), offset)
    }
}

/// The content offset of the last boundary whose display offset is at most
/// `offset` (0 when there is none).
pub open spec fn content_at(b: Seq<(usize, usize)>, offset: int) -> int
    decreases b.len(),
{
    if b.len() == 0 {
        0
    } else if b.last().1 <= offset {
        b.last().0 as int
    } else {
        content_at(b.drop_last(), offset)
    }
}

/// The mapping of a text of `len` bytes with grapheme starts `starts`.
pub open spec fn mapping_of(starts: Seq<usize>, len: int, masked: bool) -> DisplayMappingView {
    if len == 0 {
        DisplayMappingView::Placeholder
    } else if masked {
        DisplayMappingView::Masked(masked_boundaries(starts, len))
    } else {
        DisplayMappingView::Identity
    }
}

/// A display mapping by its boundaries.
pub enum DisplayMappingView {
    Identity,
    Placeholder,
    Masked(Seq<(usize, usize)>),
}

impl View for DisplayMapping {
    type V = DisplayMappingView;

    open spec fn view(&self) -> DisplayMappingView {
        match self {
            DisplayMapping::Identity => DisplayMappingView::Identity,
            DisplayMapping::Placeholder => DisplayMappingView::Placeholder,
            DisplayMapping::Masked(b) => DisplayMappingView::Masked(b@),
        }
    }
}

/// The boundaries of a masked text with grapheme starts `starts` and `len`
/// bytes.
fn masked_boundaries_of(starts: &Vec<usize>, len: usize) -> (r: Vec<(usize, usize)>)
    requires
        3 * starts@.len() <= usize::MAX,
    ensures
        r@ == masked_boundaries(starts@, len as int),
{
    let mut r: Vec<(usize, usize)> = Vec::new();
    r.push((0, 0));
    let n = starts.len();
    let mut k: usize = 0;
    while k < n
        invariant
            n == starts@.len(),
            3 * n <= usize::MAX,
            k <= n,
            r@ == masked_boundaries(starts@, len as int).take(k + 1),
        decreases n - k,
    {
        let end = if k + 1 < n {
            starts[k + 1]
        } else {
            len
        };
        r.push((end, 3 * (k + 1)));
        k = k + 1;
        assert(r@ =~= masked_boundaries(starts@, len as int).take(k + 1));
    }
    assert(r@ =~= masked_boundaries(starts@, len as int));
    r
}

impl DisplayMapping {
    /// The mapping of a field's content, masked or not.
    pub fn new(content: &str, masked: bool) -> (r: Self)
        requires
            3 * encode_utf8(content@).len() <= usize::MAX,
        ensures
            r@ == mapping_of(grapheme_starts_of(content@), encode_utf8(content@).len() as int, masked),
    {
        let (starts, len) = grapheme_layout(content);
        if len == 0 {
            DisplayMapping::Placeholder
        } else if masked {
            DisplayMapping::Masked(masked_boundaries_of(&starts, len))
        } else {
            DisplayMapping::Identity
        }
    }

    /// The display offset of a content offset.
    pub fn content_to_display(&self, offset: usize) -> (r: usize)
        ensures
            r == match self@ {
                DisplayMappingView::Identity => offset as int,
                DisplayMappingView::Placeholder => 0,
                DisplayMappingView::Masked(b) => display_at(b, offset as int),
            },
    {
        match self {
            DisplayMapping::Identity => offset,
            DisplayMapping::Placeholder => 0,
            DisplayMapping::Masked(b) => {
                let mut k: usize = b.len();
                assert(b@.take(k as int) =~= b@);
                while k > 0 && b[k - 1].0 > offset
                    invariant
                        k <= b@.len(),
                        display_at(b@, offset as int) == display_at(b@.take(k as int), offset as int),
                    decreases k,
                {
                    assert(b@.take(k as int).drop_last() =~= b@.take(k - 1));
                    k = k - 1;
                }
                if k == 0 {
                    0
                } else {
                    b[k - 1].1
                }
            },
        }
    }

    /// The content offset of a display offset.
    pub fn display_to_content(&self, offset: usize) -> (r: usize)
        ensures
            r == match self@ {
                DisplayMappingView::Identity => offset as int,
                DisplayMappingView::Placeholder => 0,
                DisplayMappingView::Masked(b) => content_at(b, offset as int),
            },
    {
        match self {
            DisplayMapping::Identity => offset,
            DisplayMapping::Placeholder => 0,
            DisplayMapping::Masked(b) => {
                let mut k: usize = b.len();
                assert(b@.take(k as int) =~= b@);
                while k > 0 && b[k - 1].1 > offset
                    invariant
                        k <= b@.len(),
                        content_at(b@, offset as int) == content_at(b@.take(k as int), offset as int),
                    decreases k,
                {
                    assert(b@.take(k as int).drop_last() =~= b@.take(k - 1));
                    k = k - 1;
                }
                if k == 0 {
                    0
                } else {
                    b[k - 1].0
                }
            },
        }
    }

    /// The text to show: the content, the placeholder, or one bullet per
    /// grapheme.
    pub fn display_text(&self, content: &str, placeholder: &str) -> (r: String)
        ensures
            r@ == match self@ {
                DisplayMappingView::Identity => content@,
                DisplayMappingView::Placeholder => placeholder@,
                DisplayMappingView::Masked(b) => Seq::new(
                    if b.len() > 0 { (b.len() - 1) as nat } else { 0 },
                    |_i: int| '•',
                ),
            },
    {
        match self {
            DisplayMapping::Identity => content.to_owned(),
            DisplayMapping::Placeholder => placeholder.to_owned(),
            DisplayMapping::Masked(b) => {
                let n = if b.len() > 0 {
                    b.len() - 1
                } else {
                    0
                };
                let mut bullets: Vec<char> = Vec::new();
                let mut k: usize = 0;
                while k < n
                    invariant
                        k <= n,
                        bullets@ == Seq::new(k as nat, |_i: int| '•'),
                    decreases n - k,
                {
                    bullets.push('•');
                    k = k + 1;
                    assert(bullets@ =~= Seq::new(k as nat, |_i: int| '•'));
                }
                string_from_chars(&bullets)
            },
        }
    }
}


/// Longer prefixes have more bytes.
pub proof fn lemma_prefix_bytes_increase(s: Seq<char>, j: int, k: int)
    requires
        0 <= j < k <= s.len(),
    ensures
        utf8_length(s.take(j)) < utf8_length(s.take(k)),
    decreases k - j,
{
    assert(s.take(k).drop_last() =~= s.take(k - 1));
    lemma_utf8_length_last(s.take(k));
    if j < k - 1 {
        lemma_prefix_bytes_increase(s, j, k - 1);
    }
}

/// The ends of a text are boundaries.
pub proof fn lemma_ends_are_boundaries(s: Seq<char>)
    ensures
        is_boundary(s, 0),
        is_boundary(s, utf8_length(s) as int),
        is_boundary(s, encode_utf8(s).len() as int),
{
    assert(s.take(0).len() == 0);
    assert(utf8_length(s.take(0)) == 0);
    assert(s.take(s.len() as int) =~= s);
    lemma_utf8_length_is_encoded_length(s);
}

/// A byte offset reached from a UTF-16 offset is a boundary.
pub proof fn lemma_utf16_offset_lands_on_boundary(s: Seq<char>, units: int)
    ensures
        is_boundary(s, utf8_offset_of_utf16(s, units) as int),
    decreases s.len(),
{
    if s.len() == 0 || units <= 0 {
        lemma_ends_are_boundaries(s);
    } else {
        let t = s.drop_first();
        lemma_utf16_offset_lands_on_boundary(t, units - char_utf16_len(s[0]));
        let k = choose|k: int| 0 <= k <= t.len() && utf8_length(#[trigger] t.take(k)) == utf8_offset_of_utf16(t, units - char_utf16_len(s[0]));
        assert(s.take(k + 1).drop_first() =~= t.take(k));
        assert(s.take(k + 1)[0] == s[0]);
        assert(utf8_length(s.take(k + 1)) == utf8_offset_of_utf16(s, units));
    }
}

/// The position of the character that starts at byte offset `b`.
fn char_index_of_byte(chars: &Vec<char>, b: usize) -> (k: usize)
    requires
        is_boundary(chars@, b as int),
        utf8_length(chars@) <= usize::MAX,
    ensures
        k <= chars@.len(),
        utf8_length(chars@.take(k as int)) == b,
{
    let ghost s = chars@;
    let ghost target = choose|k: int| 0 <= k <= s.len() && utf8_length(#[trigger] s.take(k)) == b;
    let mut k: usize = 0;
    let mut bytes: usize = 0;
    assert(s.take(0).len() == 0);
    while bytes < b
        invariant
            k <= s.len(),
            chars@ == s,
            bytes == utf8_length(s.take(k as int)),
            0 <= target <= s.len(),
            utf8_length(s.take(target)) == b,
            k <= target,
            utf8_length(s) <= usize::MAX,
        decreases target - k,
    {
        proof {
            if k == target {
                assert(false);
            }
            lemma_utf8_length_split(s, k + 1);
            lemma_utf8_length_split(s, s.len() as int);
            assert(s.take(k + 1).drop_last() =~= s.take(k as int));
            lemma_utf8_length_last(s.take(k + 1));
            if k + 1 < s.len() {
                lemma_prefix_bytes_increase(s, k + 1, s.len() as int);
                assert(s.take(s.len() as int) =~= s);
            } else {
                assert(s.take(k + 1) =~= s);
            }
        }
        assert(k < chars.len());
        bytes = bytes + utf8_len_of(chars[k]);
        k = k + 1;
        proof {
            if k > target {
                lemma_prefix_bytes_increase(s, target, k - 1);
            }
        }
    }
    proof {
        if k < target {
            lemma_prefix_bytes_increase(s, k as int, target);
        }
    }
    k
}


/// Whether `x` is 0, `len`, or one of `starts`.
pub open spec fn among_boundaries(starts: Seq<usize>, len: int, x: int) -> bool {
    x == 0 || x == len || exists|i: int| 0 <= i < starts.len() && starts[i] == x
}

/// The boundary searches give 0, the end, or a grapheme start.
pub proof fn lemma_searches_give_boundaries(starts: Seq<usize>, len: int, offset: int, previous: int)
    requires
        among_boundaries(starts, len, previous),
    ensures
        among_boundaries(starts, len, previous_start(starts, offset)),
        among_boundaries(starts, len, next_start(starts, len, offset)),
        among_boundaries(starts, len, nearest_scan(starts, offset, previous, len)),
        among_boundaries(starts, len, nearest_boundary(starts, len, offset)),
    decreases starts.len(),
{
    if starts.len() > 0 {
        let t = starts.drop_first();
        let u = starts.drop_last();
        assert(among_boundaries(starts, len, starts[0] as int)) by {
            assert(starts[0] == starts[0]);
        }
        assert(among_boundaries(starts, len, starts.last() as int)) by {
            assert(starts[starts.len() - 1] == starts.last());
        }
        assert(among_boundaries(u, len, 0));
        lemma_searches_give_boundaries(u, len, offset, 0);
        if among_boundaries(u, len, previous_start(u, offset)) && previous_start(u, offset) != 0
            && previous_start(u, offset) != len {
            let i = choose|i: int| 0 <= i < u.len() && u[i] == previous_start(u, offset);
            assert(starts[i] == u[i]);
        }
        assert(among_boundaries(t, len, 0));
        lemma_searches_give_boundaries(t, len, offset, 0);
        if next_start(t, len, offset) != 0 && next_start(t, len, offset) != len {
            let i = choose|i: int| 0 <= i < t.len() && t[i] == next_start(t, len, offset);
            assert(starts[i + 1] == t[i]);
        }
        if starts[0] < offset {
            let p = starts[0] as int;
            assert(among_boundaries(t, len, p) || p == starts[0]);
            lemma_scan_gives_boundaries(starts, len, offset);
        }
    }
    lemma_scan_gives_boundaries(starts, len, offset);
    if !(starts.len() > 0 && starts[0] < offset) {
        lemma_scan_from(starts, len, offset, previous);
    }
}

/// A scan from `previous` gives `previous`, the end, or a start.
proof fn lemma_scan_from(starts: Seq<usize>, len: int, offset: int, previous: int)
    requires
        among_boundaries(starts, len, previous),
        !(starts.len() > 0 && starts[0] < offset),
    ensures
        among_boundaries(starts, len, nearest_scan(starts, offset, previous, len)),
{
    if starts.len() > 0 {
        assert(starts[0] == starts[0]);
    }
}

/// A scan from the start gives 0, the end, or a start.
proof fn lemma_scan_gives_boundaries(starts: Seq<usize>, len: int, offset: int)
    ensures
        among_boundaries(starts, len, nearest_scan(starts, offset, 0, len)),
        among_boundaries(starts, len, nearest_boundary(starts, len, offset)),
{
    lemma_scan_walk(starts, len, offset, 0, 0);
}

/// Walking the scan over the starts from position `i`, with `previous` 0 or
/// a start before `i`.
proof fn lemma_scan_walk(starts: Seq<usize>, len: int, offset: int, previous: int, i: int)
    requires
        0 <= i <= starts.len(),
        previous == 0 || exists|j: int| 0 <= j < i && starts[j] == previous,
    ensures
        among_boundaries(starts, len, nearest_scan(starts.skip(i), offset, previous, len)),
        i == 0 && previous == 0 ==> among_boundaries(starts, len, nearest_scan(starts, offset, 0, len)),
        i == 0 && previous == 0 ==> among_boundaries(starts, len, nearest_boundary(starts, len, offset)),
    decreases starts.len() - i,
{
    let t = starts.skip(i);
    if i == 0 {
        assert(t =~= starts);
    }
    if t.len() > 0 {
        assert(t[0] == starts[i]);
        if t[0] < offset && t[0] != offset {
            assert(t.drop_first() =~= starts.skip(i + 1));
            lemma_scan_walk(starts, len, offset, t[0] as int, i + 1);
        }
    }
}


/// The position of the character starting at byte offset `b`.
pub open spec fn char_index_at(s: Seq<char>, b: int) -> int {
    choose|k: int| 0 <= k <= s.len() && utf8_length(#[trigger] s.take(k)) == b
}

/// The characters between byte offsets `a` and `b`.
pub open spec fn chars_between(s: Seq<char>, a: int, b: int) -> Seq<char> {
    s.subrange(char_index_at(s, a), char_index_at(s, b))
}

/// `s` with the bytes from `a` to `b` replaced by `t`.
pub open spec fn replaced(s: Seq<char>, a: int, b: int, t: Seq<char>) -> Seq<char> {
    s.take(char_index_at(s, a)) + t + s.skip(char_index_at(s, b))
}

/// A boundary belongs to exactly one position.
pub proof fn lemma_char_index_unique(s: Seq<char>, b: int, k: int)
    requires
        0 <= k <= s.len(),
        utf8_length(s.take(k)) == b,
    ensures
        char_index_at(s, b) == k,
{
    let c = char_index_at(s, b);
    if c < k {
        lemma_prefix_bytes_increase(s, c, k);
    } else if c > k {
        lemma_prefix_bytes_increase(s, k, c);
    }
}

/// The bytes of two joined texts.
pub proof fn lemma_utf8_length_append(a: Seq<char>, b: Seq<char>)
    ensures
        utf8_length(a + b) == utf8_length(a) + utf8_length(b),
{
    lemma_utf8_length_split(a + b, a.len() as int);
    assert((a + b).take(a.len() as int) =~= a);
    assert((a + b).skip(a.len() as int) =~= b);
}

/// Replacing the bytes between two boundaries: the text, and where the new
/// part starts and ends.
fn replace_span(content: &str, a: usize, b: usize, t: &str) -> (r: String)
    requires
        a <= b,
        is_boundary(content@, a as int),
        is_boundary(content@, b as int),
        utf8_length(content@) <= usize::MAX,
    ensures
        r@ == replaced(content@, a as int, b as int, t@),
        char_index_at(content@, a as int) <= char_index_at(content@, b as int),
        utf8_length(content@.take(char_index_at(content@, a as int))) == a,
        utf8_length(content@.take(char_index_at(content@, b as int))) == b,
{
    let chars = chars_of(content);
    let new_chars = chars_of(t);
    let ka = char_index_of_byte(&chars, a);
    let kb = char_index_of_byte(&chars, b);
    proof {
        lemma_char_index_unique(content@, a as int, ka as int);
        lemma_char_index_unique(content@, b as int, kb as int);
        if kb < ka {
            lemma_prefix_bytes_increase(content@, kb as int, ka as int);
        }
    }
    let mut out: Vec<char> = Vec::new();
    let mut i: usize = 0;
    while i < ka
        invariant
            i <= ka <= chars@.len(),
            out@ == chars@.take(i as int),
        decreases ka - i,
    {
        out.push(chars[i]);
        i = i + 1;
        assert(out@ =~= chars@.take(i as int));
    }
    let mut j: usize = 0;
    while j < new_chars.len()
        invariant
            j <= new_chars@.len(),
            out@ == chars@.take(ka as int) + new_chars@.take(j as int),
        decreases new_chars.len() - j,
    {
        out.push(new_chars[j]);
        j = j + 1;
        assert(out@ =~= chars@.take(ka as int) + new_chars@.take(j as int));
    }
    assert(new_chars@.take(new_chars@.len() as int) =~= new_chars@);
    let mut m: usize = kb;
    while m < chars.len()
        invariant
            kb <= m <= chars@.len(),
            out@ == chars@.take(ka as int) + new_chars@ + chars@.subrange(kb as int, m as int),
        decreases chars.len() - m,
    {
        out.push(chars[m]);
        m = m + 1;
        assert(out@ =~= chars@.take(ka as int) + new_chars@ + chars@.subrange(kb as int, m as int));
    }
    assert(chars@.subrange(kb as int, chars@.len() as int) =~= chars@.skip(kb as int));
    string_from_chars(&out)
}

/// The characters between two boundaries.
fn span_text(content: &str, a: usize, b: usize) -> (r: String)
    requires
        a <= b,
        is_boundary(content@, a as int),
        is_boundary(content@, b as int),
        utf8_length(content@) <= usize::MAX,
    ensures
        r@ == chars_between(content@, a as int, b as int),
{
    let chars = chars_of(content);
    let ka = char_index_of_byte(&chars, a);
    let kb = char_index_of_byte(&chars, b);
    proof {
        lemma_char_index_unique(content@, a as int, ka as int);
        lemma_char_index_unique(content@, b as int, kb as int);
        if kb < ka {
            lemma_prefix_bytes_increase(content@, kb as int, ka as int);
        }
    }
    crate::text::string_from_range(&chars, ka, kb)
}


/// Turning line breaks into spaces keeps the UTF-8 length.
pub proof fn lemma_sanitized_length(s: Seq<char>)
    ensures
        utf8_length(without_line_breaks(s)) == utf8_length(s),
        without_line_breaks(s).len() == s.len(),
    decreases s.len(),
{
    if s.len() > 0 {
        lemma_sanitized_length(s.drop_first());
        assert(without_line_breaks(s).drop_first() =~= without_line_breaks(s.drop_first()));
        assert(without_line_breaks(s)[0] == (if s[0] == '\r' || s[0] == '\n' { ' ' } else { s[0] }));
    }
}

/// A boundary lies within the text.
pub proof fn lemma_boundary_within(s: Seq<char>, b: int)
    requires
        is_boundary(s, b),
    ensures
        0 <= b <= utf8_length(s),
        utf8_length(s.take(char_index_at(s, b))) == b,
        0 <= char_index_at(s, b) <= s.len(),
{
    let k = choose|k: int| 0 <= k <= s.len() && utf8_length(#[trigger] s.take(k)) == b;
    lemma_utf8_length_split(s, k);
    lemma_char_index_unique(s, b, k);
}

/// Where the selection is after moving to a boundary: collapsed there.
/// The cursor of a selection: its start when reversed, its end otherwise.
pub open spec fn cursor_of(v: TextFieldView) -> usize {
    if v.reversed {
        v.selected.0
    } else {
        v.selected.1
    }
}

/// The boundary the field moves to for a requested offset: the grapheme
/// boundary nearest to it, the offset being held to the text first.
pub open spec fn snapped(content: Seq<char>, offset: int) -> int {
    let len = utf8_length(content) as int;
    nearest_boundary(grapheme_starts_of(content), len, if offset < len { offset } else { len })
}

/// The field with the cursor moved to `offset`: the selection collapses
/// there, nothing stays marked.
pub open spec fn moved(v: TextFieldView, offset: int) -> TextFieldView {
    let o = snapped(v.content, offset) as usize;
    TextFieldView { selected: (o, o), reversed: false, marked: None, ..v }
}

/// The field with the selection extended to `offset`: the cursor end moves
/// there, and the ends swap (turning the selection around) when they cross.
pub open spec fn extended(v: TextFieldView, offset: int) -> TextFieldView {
    let o = snapped(v.content, offset) as usize;
    let (a, b) = if v.reversed { (o, v.selected.1) } else { (v.selected.0, o) };
    if b < a {
        TextFieldView { selected: (b, a), reversed: !v.reversed, marked: None, ..v }
    } else {
        TextFieldView { selected: (a, b), reversed: v.reversed, marked: None, ..v }
    }
}

/// The byte range a replacement applies to: the given UTF-16 range, else
/// the marked range, else the selection.
pub open spec fn replacement_of(v: TextFieldView, range_utf16: Option<(usize, usize)>) -> (usize, usize) {
    match range_utf16 {
        Some((x, y)) => {
            let a = utf8_offset_of_utf16(v.content, x as int);
            let b = utf8_offset_of_utf16(v.content, y as int);
            if a <= b { (a as usize, b as usize) } else { (b as usize, a as usize) }
        },
        None => match v.marked {
            Some(m) => m,
            None => v.selected,
        },
    }
}

/// The field after replacing the bytes of `range` by `text` (line breaks
/// already removed): the cursor ends right after the new text, nothing is
/// marked.
pub open spec fn after_replacement(v: TextFieldView, range: (usize, usize), text: Seq<char>) -> TextFieldView {
    let end = (range.0 + utf8_length(text)) as usize;
    TextFieldView {
        content: replaced(v.content, range.0 as int, range.1 as int, text),
        selected: (end, end),
        reversed: false,
        marked: None,
        ..v
    }
}

/// A UTF-16 range within a new text, as an ordered byte range of it.
pub open spec fn relative_range(text: Seq<char>, range_utf16: Option<(usize, usize)>) -> Option<(usize, usize)> {
    match range_utf16 {
        Some((x, y)) => {
            let a = utf8_offset_of_utf16(text, x as int);
            let b = utf8_offset_of_utf16(text, y as int);
            Some(if a <= b { (a as usize, b as usize) } else { (b as usize, a as usize) })
        },
        None => None,
    }
}

/// The field after an input method replaced the bytes of `range` by
/// `text` (line breaks already removed): the new text is marked (unless
/// empty), and the selection is the given part of it, or its end.
pub open spec fn after_marking(
    v: TextFieldView,
    range: (usize, usize),
    text: Seq<char>,
    relative: Option<(usize, usize)>,
) -> TextFieldView {
    let end = (range.0 + utf8_length(text)) as usize;
    TextFieldView {
        content: replaced(v.content, range.0 as int, range.1 as int, text),
        marked: if range.0 < end { Some((range.0, end)) } else { None },
        selected: match relative {
            Some((x, y)) => ((range.0 + x) as usize, (range.0 + y) as usize),
            None => (end, end),
        },
        reversed: false,
        ..v
    }
}

/// A byte range of a text, its ends in order and on character boundaries.
pub open spec fn range_ok(s: Seq<char>, r: (usize, usize)) -> bool {
    r.0 <= r.1 && is_boundary(s, r.0 as int) && is_boundary(s, r.1 as int)
}

/// A field's content fits three times over (the masked display) in
/// memory, and its selection and marked range lie on character boundaries.
pub open spec fn field_ok(v: TextFieldView) -> bool {
    &&& 3 * utf8_length(v.content) <= usize::MAX
    &&& range_ok(v.content, v.selected)
    &&& match v.marked {
        Some(m) => range_ok(v.content, m),
        None => true,
    }
}

/// A text field by its contents.
pub struct TextFieldView {
    pub content: Seq<char>,
    pub placeholder: Seq<char>,
    /// The selected bytes, start first.
    pub selected: (usize, usize),
    /// Whether the cursor is at the start of the selection.
    pub reversed: bool,
    /// The bytes an input method is composing.
    pub marked: Option<(usize, usize)>,
    pub masked: bool,
}

/// The editing state of a single-line text field: its content and
/// placeholder (never holding a line break), the selection as byte
/// offsets on character boundaries, which end the cursor is at, the range
/// an input method is composing, and whether the content is shown masked.
/// Masking changes only what is shown, never the content.
pub struct TextFieldState {
    content: String,
    placeholder: String,
    selected: (usize, usize),
    reversed: bool,
    marked: Option<(usize, usize)>,
    masked: bool,
}

impl View for TextFieldState {
    type V = TextFieldView;

    closed spec fn view(&self) -> TextFieldView {
        TextFieldView {
            content: self.content@,
            placeholder: self.placeholder@,
            selected: self.selected,
            reversed: self.reversed,
            marked: self.marked,
            masked: self.masked,
        }
    }
}

impl TextFieldState {
    #[verifier::type_invariant]
    closed spec fn inv(self) -> bool {
        field_ok(self@)
    }

    /// A field holding `value` (line breaks turned into spaces), the
    /// cursor at its end.
    pub fn new(placeholder: &str, value: &str, masked: bool) -> (r: Self)
        requires
            3 * utf8_length(value@) <= usize::MAX,
        ensures
            r@.content == without_line_breaks(value@),
            r@.placeholder == without_line_breaks(placeholder@),
            r@.selected == ((utf8_length(value@) as usize, utf8_length(value@) as usize)),
            !r@.reversed,
            r@.marked is None,
            r@.masked == masked,
    {
        let content = sanitize_text(value);
        let end = content.as_str().len();
        proof {
            lemma_sanitized_length(value@);
            lemma_utf8_length_is_encoded_length(content@);
            lemma_ends_are_boundaries(content@);
        }
        TextFieldState {
            content,
            placeholder: sanitize_text(placeholder),
            selected: (end, end),
            reversed: false,
            marked: None,
            masked,
        }
    }

    /// The content.
    pub fn value(&self) -> (r: &str)
        ensures
            r@ == self@.content,
    {
        self.content.as_str()
    }

    /// The placeholder.
    pub fn placeholder(&self) -> (r: &str)
        ensures
            r@ == self@.placeholder,
    {
        self.placeholder.as_str()
    }

    /// Whether the content is shown masked.
    pub fn is_masked(&self) -> (r: bool)
        ensures
            r == self@.masked,
    {
        self.masked
    }

    /// The selected bytes, start first.
    pub fn selected_range(&self) -> (r: (usize, usize))
        ensures
            r == self@.selected,
    {
        self.selected
    }

    /// Replaces the content (line breaks turned into spaces); the cursor
    /// goes to its end.
    pub fn set_value(&mut self, value: &str)
        requires
            3 * utf8_length(value@) <= usize::MAX,
        ensures
            final(self)@ == (TextFieldView {
                content: without_line_breaks(value@),
                selected: (utf8_length(value@) as usize, utf8_length(value@) as usize),
                reversed: false,
                marked: None,
                ..old(self)@
            }),
    {
        let content = sanitize_text(value);
        let end = content.as_str().len();
        proof {
            lemma_sanitized_length(value@);
            lemma_utf8_length_is_encoded_length(content@);
            lemma_ends_are_boundaries(content@);
        }
        *self = TextFieldState {
            content,
            placeholder: self.placeholder.clone(),
            selected: (end, end),
            reversed: false,
            marked: None,
            masked: self.masked,
        };
    }

    /// Replaces the placeholder (line breaks turned into spaces).
    pub fn set_placeholder(&mut self, placeholder: &str)
        ensures
            final(self)@ == (TextFieldView { placeholder: without_line_breaks(placeholder@), ..old(self)@ }),
    {
        proof {
            use_type_invariant(&*self);
        }
        self.placeholder = sanitize_text(placeholder);
    }

    /// Shows the content masked or not; the content itself does not change.
    pub fn set_masked(&mut self, masked: bool)
        ensures
            final(self)@ == (TextFieldView { masked, ..old(self)@ }),
    {
        proof {
            use_type_invariant(&*self);
        }
        self.masked = masked;
    }

    /// The cursor: the start of a reversed selection, its end otherwise.
    pub fn cursor_offset(&self) -> (r: usize)
        ensures
            r == cursor_of(self@),
    {
        if self.reversed {
            self.selected.0
        } else {
            self.selected.1
        }
    }

    /// The boundary a requested offset snaps to.
    fn snap(&self, offset: usize) -> (r: usize)
        ensures
            r == snapped(self@.content, offset as int),
            is_boundary(self@.content, r as int),
    {
        proof {
            use_type_invariant(self);
        }
        let (starts, len) = grapheme_layout(self.content.as_str());
        proof {
            lemma_utf8_length_is_encoded_length(self.content@);
            lemma_ends_are_boundaries(self.content@);
        }
        let held = if offset < len {
            offset
        } else {
            len
        };
        let r = nearest_grapheme_boundary(&starts, len, held);
        proof {
            lemma_searches_give_boundaries(starts@, len as int, held as int, 0);
            if r != 0 && r != len {
                let i = choose|i: int| 0 <= i < starts@.len() && starts@[i] == r;
                assert(is_boundary(self@.content, starts@[i] as int));
            }
        }
        r
    }

    /// Moves the cursor to the grapheme boundary nearest to `offset`.
    pub fn move_to(&mut self, offset: usize)
        ensures
            final(self)@ == moved(old(self)@, offset as int),
    {
        let o = self.snap(offset);
        proof {
            use_type_invariant(&*self);
        }
        self.selected = (o, o);
        self.reversed = false;
        self.marked = None;
    }

    /// Extends the selection to the grapheme boundary nearest to `offset`.
    pub fn select_to(&mut self, offset: usize)
        ensures
            final(self)@ == extended(old(self)@, offset as int),
    {
        let o = self.snap(offset);
        proof {
            use_type_invariant(&*self);
        }
        let (a, b) = if self.reversed {
            (o, self.selected.1)
        } else {
            (self.selected.0, o)
        };
        if b < a {
            self.selected = (b, a);
            self.reversed = !self.reversed;
        } else {
            self.selected = (a, b);
        }
        self.marked = None;
    }
}


impl TextFieldState {
    /// The byte length of the content.
    pub fn len(&self) -> (r: usize)
        ensures
            r == utf8_length(self@.content),
    {
        proof {
            use_type_invariant(self);
            lemma_utf8_length_is_encoded_length(self.content@);
        }
        self.content.as_str().len()
    }

    /// Left arrow: collapses a selection to its start, or moves the cursor
    /// to the previous grapheme boundary.
    pub fn left(&mut self)
        ensures
            final(self)@ == (if old(self)@.selected.0 == old(self)@.selected.1 {
                moved(old(self)@, previous_start(grapheme_starts_of(old(self)@.content), cursor_of(old(self)@) as int))
            } else {
                moved(old(self)@, old(self)@.selected.0 as int)
            }),
    {
        if self.selected.0 == self.selected.1 {
            let (starts, _) = grapheme_layout(self.content.as_str());
            let target = previous_boundary(&starts, self.cursor_offset());
            self.move_to(target);
        } else {
            let start = self.selected.0;
            self.move_to(start);
        }
    }

    /// Right arrow: collapses a selection to its end, or moves the cursor to
    /// the next grapheme boundary.
    pub fn right(&mut self)
        ensures
            final(self)@ == (if old(self)@.selected.0 == old(self)@.selected.1 {
                moved(
                    old(self)@,
                    next_start(grapheme_starts_of(old(self)@.content), utf8_length(old(self)@.content) as int, cursor_of(old(self)@) as int),
                )
            } else {
                moved(old(self)@, old(self)@.selected.1 as int)
            }),
    {
        if self.selected.0 == self.selected.1 {
            let len = self.len();
            let (starts, _) = grapheme_layout(self.content.as_str());
            let target = next_boundary(&starts, len, self.cursor_offset());
            self.move_to(target);
        } else {
            let end = self.selected.1;
            self.move_to(end);
        }
    }

    /// Shift+Left: extends the selection to the previous grapheme boundary.
    pub fn select_left(&mut self)
        ensures
            final(self)@ == extended(old(self)@, previous_start(grapheme_starts_of(old(self)@.content), cursor_of(old(self)@) as int)),
    {
        let (starts, _) = grapheme_layout(self.content.as_str());
        let target = previous_boundary(&starts, self.cursor_offset());
        self.select_to(target);
    }

    /// Shift+Right: extends the selection to the next grapheme boundary.
    pub fn select_right(&mut self)
        ensures
            final(self)@ == extended(
                old(self)@,
                next_start(grapheme_starts_of(old(self)@.content), utf8_length(old(self)@.content) as int, cursor_of(old(self)@) as int),
            ),
    {
        let len = self.len();
        let (starts, _) = grapheme_layout(self.content.as_str());
        let target = next_boundary(&starts, len, self.cursor_offset());
        self.select_to(target);
    }

    /// Selects the whole content.
    pub fn select_all(&mut self)
        ensures
            final(self)@ == (TextFieldView {
                selected: (0, utf8_length(old(self)@.content) as usize),
                reversed: false,
                ..old(self)@
            }),
    {
        let len = self.len();
        proof {
            use_type_invariant(&*self);
            lemma_ends_are_boundaries(self.content@);
        }
        self.selected = (0, len);
        self.reversed = false;
    }

    /// Home: moves the cursor to the start.
    pub fn home(&mut self)
        ensures
            final(self)@ == moved(old(self)@, 0),
    {
        self.move_to(0);
    }

    /// End: moves the cursor to the end.
    pub fn end(&mut self)
        ensures
            final(self)@ == moved(old(self)@, utf8_length(old(self)@.content) as int),
    {
        let len = self.len();
        self.move_to(len);
    }

    /// Shift+Home: extends the selection to the start.
    pub fn select_home(&mut self)
        ensures
            final(self)@ == extended(old(self)@, 0),
    {
        self.select_to(0);
    }

    /// Shift+End: extends the selection to the end.
    pub fn select_end(&mut self)
        ensures
            final(self)@ == extended(old(self)@, utf8_length(old(self)@.content) as int),
    {
        let len = self.len();
        self.select_to(len);
    }

    /// The selected text (what Copy and Cut take).
    pub fn selected_text(&self) -> (r: String)
        ensures
            r@ == chars_between(self@.content, self@.selected.0 as int, self@.selected.1 as int),
    {
        proof {
            use_type_invariant(self);
        }
        span_text(self.content.as_str(), self.selected.0, self.selected.1)
    }

    /// The byte range a replacement applies to.
    pub fn replacement_range(&self, range_utf16: Option<(usize, usize)>) -> (r: (usize, usize))
        ensures
            r == replacement_of(self@, range_utf16),
            range_ok(self@.content, r),
    {
        proof {
            use_type_invariant(self);
        }
        match range_utf16 {
            Some((x, y)) => {
                proof {
                    lemma_utf16_offset_lands_on_boundary(self.content@, x as int);
                    lemma_utf16_offset_lands_on_boundary(self.content@, y as int);
                    lemma_offsets_within_length(self.content@, x as int);
                    lemma_offsets_within_length(self.content@, y as int);
                }
                range_from_utf16(self.content.as_str(), x, y)
            },
            None => match self.marked {
                Some(m) => m,
                None => self.selected,
            },
        }
    }

    /// Replaces a range (see `replacement_range`) by `new_text`, line
    /// breaks turned into spaces; the cursor goes after the new text.
    pub fn replace_text_in_range(&mut self, range_utf16: Option<(usize, usize)>, new_text: &str)
        requires
            3 * (utf8_length(old(self)@.content) + utf8_length(new_text@)) <= usize::MAX,
        ensures
            final(self)@ == after_replacement(
                old(self)@,
                replacement_of(old(self)@, range_utf16),
                without_line_breaks(new_text@),
            ),
    {
        let range = self.replacement_range(range_utf16);
        let text = sanitize_text(new_text);
        proof {
            use_type_invariant(&*self);
            lemma_sanitized_length(new_text@);
            lemma_utf8_length_is_encoded_length(text@);
            lemma_boundary_within(self.content@, range.0 as int);
        }
        let content = replace_span(self.content.as_str(), range.0, range.1, text.as_str());
        let end = range.0 + text.as_str().len();
        proof {
            let s = self.content@;
            let ka = char_index_at(s, range.0 as int);
            let kb = char_index_at(s, range.1 as int);
            let t = text@;
            lemma_boundary_within(s, range.1 as int);
            lemma_utf8_length_split(s, kb);
            lemma_utf8_length_append(s.take(ka), t);
            lemma_utf8_length_append(s.take(ka) + t, s.skip(kb));
            assert(content@.take(ka + t.len()) =~= s.take(ka) + t);
            assert(utf8_length(content@.take(ka + t.len())) == end);
        }
        *self = TextFieldState {
            content,
            placeholder: self.placeholder.clone(),
            selected: (end, end),
            reversed: false,
            marked: None,
            masked: self.masked,
        };
    }

    /// Backspace: deletes the selection, or the grapheme before the cursor.
    pub fn backspace(&mut self)
        ensures
            ({
                let v = if old(self)@.selected.0 == old(self)@.selected.1 {
                    extended(old(self)@, previous_start(grapheme_starts_of(old(self)@.content), cursor_of(old(self)@) as int))
                } else {
                    old(self)@
                };
                final(self)@ == after_replacement(v, replacement_of(v, None), Seq::<char>::empty())
            }),
    {
        if self.selected.0 == self.selected.1 {
            self.select_left();
        }
        proof {
            use_type_invariant(&*self);
            reveal_strlit("");
            assert(without_line_breaks(""@) =~= Seq::<char>::empty());
        }
        self.replace_text_in_range(None, "");
    }

    /// Delete: deletes the selection, or the grapheme after the cursor.
    pub fn delete(&mut self)
        ensures
            ({
                let v = if old(self)@.selected.0 == old(self)@.selected.1 {
                    extended(
                        old(self)@,
                        next_start(grapheme_starts_of(old(self)@.content), utf8_length(old(self)@.content) as int, cursor_of(old(self)@) as int),
                    )
                } else {
                    old(self)@
                };
                final(self)@ == after_replacement(v, replacement_of(v, None), Seq::<char>::empty())
            }),
    {
        if self.selected.0 == self.selected.1 {
            self.select_right();
        }
        proof {
            use_type_invariant(&*self);
            reveal_strlit("");
            assert(without_line_breaks(""@) =~= Seq::<char>::empty());
        }
        self.replace_text_in_range(None, "");
    }

    /// The selection in UTF-16 units, and whether it is reversed.
    pub fn selected_text_range(&self) -> (r: ((usize, usize), bool))
        ensures
            ({
                let a = utf16_offset_of_utf8(self@.content, self@.selected.0 as int);
                let b = utf16_offset_of_utf8(self@.content, self@.selected.1 as int);
                r == (if a <= b { ((a as usize, b as usize), self@.reversed) } else { ((b as usize, a as usize), self@.reversed) })
            }),
    {
        proof {
            use_type_invariant(self);
        }
        (range_to_utf16(self.content.as_str(), self.selected.0, self.selected.1), self.reversed)
    }

    /// The marked range in UTF-16 units.
    pub fn marked_text_range(&self) -> (r: Option<(usize, usize)>)
        ensures
            match self@.marked {
                None => r is None,
                Some(m) => {
                    let a = utf16_offset_of_utf8(self@.content, m.0 as int);
                    let b = utf16_offset_of_utf8(self@.content, m.1 as int);
                    r == Some(if a <= b { (a as usize, b as usize) } else { (b as usize, a as usize) })
                },
            },
    {
        proof {
            use_type_invariant(self);
        }
        match self.marked {
            None => None,
            Some(m) => Some(range_to_utf16(self.content.as_str(), m.0, m.1)),
        }
    }

    /// Ends composing; says whether a range was marked.
    pub fn unmark_text(&mut self) -> (r: bool)
        ensures
            r == (old(self)@.marked is Some),
            final(self)@ == (TextFieldView { marked: None, ..old(self)@ }),
    {
        proof {
            use_type_invariant(&*self);
        }
        let was = self.marked.is_some();
        self.marked = None;
        was
    }

    /// The text of a UTF-16 range, and that range as it really falls on
    /// character boundaries.
    pub fn text_for_range(&self, start: usize, end: usize) -> (r: (String, (usize, usize)))
        ensures
            ({
                let range = replacement_of(self@, Some((start, end)));
                let a = utf16_offset_of_utf8(self@.content, range.0 as int);
                let b = utf16_offset_of_utf8(self@.content, range.1 as int);
                &&& r.0@ == chars_between(self@.content, range.0 as int, range.1 as int)
                &&& r.1 == (if a <= b { (a as usize, b as usize) } else { (b as usize, a as usize) })
            }),
    {
        proof {
            use_type_invariant(self);
        }
        let range = self.replacement_range(Some((start, end)));
        let actual = range_to_utf16(self.content.as_str(), range.0, range.1);
        (span_text(self.content.as_str(), range.0, range.1), actual)
    }

    /// An input method replaces a range (see `replacement_range`) by
    /// `new_text`, line breaks turned into spaces, marks it as being
    /// composed and selects the given part of it (UTF-16 offsets within the
    /// new text), or its end.
    pub fn replace_and_mark_text_in_range(
        &mut self,
        range_utf16: Option<(usize, usize)>,
        new_text: &str,
        new_selected_utf16: Option<(usize, usize)>,
    )
        requires
            3 * (utf8_length(old(self)@.content) + utf8_length(new_text@)) <= usize::MAX,
        ensures
            final(self)@ == after_marking(
                old(self)@,
                replacement_of(old(self)@, range_utf16),
                without_line_breaks(new_text@),
                relative_range(without_line_breaks(new_text@), new_selected_utf16),
            ),
    {
        let range = self.replacement_range(range_utf16);
        let text = sanitize_text(new_text);
        proof {
            use_type_invariant(&*self);
            lemma_sanitized_length(new_text@);
            lemma_utf8_length_is_encoded_length(text@);
            lemma_boundary_within(self.content@, range.0 as int);
        }
        let relative = match new_selected_utf16 {
            Some((x, y)) => {
                proof {
                    lemma_utf16_offset_lands_on_boundary(text@, x as int);
                    lemma_utf16_offset_lands_on_boundary(text@, y as int);
                    lemma_offsets_within_length(text@, x as int);
                    lemma_offsets_within_length(text@, y as int);
                }
                Some(range_from_utf16(text.as_str(), x, y))
            },
            None => None,
        };
        let content = replace_span(self.content.as_str(), range.0, range.1, text.as_str());
        let end = range.0 + text.as_str().len();
        let ghost s = self.content@;
        let ghost ka = char_index_at(s, range.0 as int);
        let ghost kb = char_index_at(s, range.1 as int);
        let ghost t = text@;
        proof {
            lemma_boundary_within(s, range.1 as int);
            lemma_utf8_length_split(s, kb);
            lemma_utf8_length_append(s.take(ka), t);
            lemma_utf8_length_append(s.take(ka) + t, s.skip(kb));
            assert(content@.take(ka + t.len()) =~= s.take(ka) + t);
            assert(utf8_length(content@.take(ka) ) == range.0) by {
                assert(content@.take(ka) =~= s.take(ka));
            }
        }
        let selected = match relative {
            Some((x, y)) => {
                proof {
                    lemma_boundary_within(t, x as int);
                    lemma_boundary_within(t, y as int);
                    let jx = char_index_at(t, x as int);
                    let jy = char_index_at(t, y as int);
                    assert(content@.take(ka + jx) =~= s.take(ka) + t.take(jx));
                    assert(content@.take(ka + jy) =~= s.take(ka) + t.take(jy));
                    lemma_utf8_length_append(s.take(ka), t.take(jx));
                    lemma_utf8_length_append(s.take(ka), t.take(jy));
                    lemma_utf8_length_split(t, jy);
                }
                (range.0 + x, range.0 + y)
            },
            None => (end, end),
        };
        let marked = if range.0 < end {
            Some((range.0, end))
        } else {
            None
        };
        *self = TextFieldState {
            content,
            placeholder: self.placeholder.clone(),
            selected,
            reversed: false,
            marked,
            masked: self.masked,
        };
    }

    /// How the content is shown.
    pub fn display_mapping(&self) -> (r: DisplayMapping)
        ensures
            r@ == mapping_of(grapheme_starts_of(self@.content), utf8_length(self@.content) as int, self@.masked),
    {
        proof {
            use_type_invariant(self);
            lemma_utf8_length_is_encoded_length(self.content@);
        }
        DisplayMapping::new(self.content.as_str(), self.masked)
    }
}

/// A stretch of the displayed text drawn in one way: `len` bytes, underlined
/// when it is part of the text being composed (the marked range).
#[derive(Clone, Copy, Debug, PartialEq, Eq, Structural)]
pub struct FieldRun {
    pub len: usize,
    pub marked: bool,
}

/// A run, or nothing when it is empty.
pub open spec fn kept_run(r: FieldRun) -> Seq<FieldRun> {
    if r.len > 0 {
        seq![r]
    } else {
        Seq::empty()
    }
}

/// `a - b`, or 0 when `b` is larger.
pub open spec fn saturated_gap(a: usize, b: usize) -> usize {
    if a >= b {
        (a - b) as usize
    } else {
        0
    }
}

/// The runs of a displayed text of `display_len` bytes: one plain run
/// without a marked range; with one (from `start` to `end`, display
/// offsets), the plain text before it, the marked text, and the plain text
/// after it, each only when not empty.
pub open spec fn field_runs_of(display_len: usize, marked: Option<(usize, usize)>) -> Seq<FieldRun> {
    match marked {
        None => seq![FieldRun { len: display_len, marked: false }],
        Some((start, end)) => kept_run(FieldRun { len: start, marked: false }) + kept_run(
            FieldRun { len: saturated_gap(end, start), marked: true },
        ) + kept_run(FieldRun { len: saturated_gap(display_len, end), marked: false }),
    }
}

/// The runs a text field draws its displayed text in.
pub fn field_runs(display_len: usize, marked: Option<(usize, usize)>) -> (r: Vec<FieldRun>)
    ensures
        r@ == field_runs_of(display_len, marked),
{
    let mut runs: Vec<FieldRun> = Vec::new();
    match marked {
        None => {
            runs.push(FieldRun { len: display_len, marked: false });
        },
        Some((start, end)) => {
            let before = FieldRun { len: start, marked: false };
            let inside = FieldRun { len: if end >= start { end - start } else { 0 }, marked: true };
            let after = FieldRun { len: if display_len >= end { display_len - end } else { 0 }, marked: false };
            if before.len > 0 {
                runs.push(before);
            }
            let ghost first = runs@;
            if inside.len > 0 {
                runs.push(inside);
            }
            let ghost second = runs@;
            if after.len > 0 {
                runs.push(after);
            }
            proof {
                assert(first =~= kept_run(before));
                assert(second =~= kept_run(before) + kept_run(inside));
                assert(runs@ =~= kept_run(before) + kept_run(inside) + kept_run(after));
            }
        },
    }
    proof {
        if marked is None {
            assert(runs@ =~= seq![FieldRun { len: display_len, marked: false }]);
        }
    }
    runs
}

} // verus!
