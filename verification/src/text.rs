//! Character classes and trimming of text.

use vstd::prelude::*;
use vstd::string::StrSliceExecFns;

verus! {

/// The characters with the Unicode `White_Space` property.
pub open spec fn white_space(c: char) -> bool {
    let n = c as u32;
    ||| 0x09 <= n <= 0x0d
    ||| n == 0x20
    ||| n == 0x85
    ||| n == 0xa0
    ||| n == 0x1680
    ||| 0x2000 <= n <= 0x200a
    ||| n == 0x2028
    ||| n == 0x2029
    ||| n == 0x202f
    ||| n == 0x205f
    ||| n == 0x3000
}

/// The control characters: the Unicode general category `Cc`.
pub open spec fn control(c: char) -> bool {
    let n = c as u32;
    ||| n <= 0x1f
    ||| 0x7f <= n <= 0x9f
}

/// Whether a piece of text holds anything that can be shown: at least one
/// character that is not a control character.
pub open spec fn printable(text: Seq<char>) -> bool {
    exists|i: int| 0 <= i < text.len() && !control(#[trigger] text[i])
}

/// `s` without the longest prefix of characters that satisfy `p`.
pub open spec fn skip_front(s: Seq<char>, p: spec_fn(char) -> bool) -> Seq<char>
    decreases s.len(),
{
    if s.len() > 0 && p(s[0]) {
        skip_front(s.drop_first(), p)
    } else {
        s
    }
}

/// `s` without the longest suffix of characters that satisfy `p`.
pub open spec fn skip_back(s: Seq<char>, p: spec_fn(char) -> bool) -> Seq<char>
    decreases s.len(),
{
    if s.len() > 0 && p(s.last()) {
        skip_back(s.drop_last(), p)
    } else {
        s
    }
}

/// `s` without leading and trailing white space.
pub open spec fn trimmed(s: Seq<char>) -> Seq<char> {
    skip_back(skip_front(s, |c: char| white_space(c)), |c: char| white_space(c))
}

/// Whether `c` is white space.
pub fn is_white_space(c: char) -> (r: bool)
    ensures
        r == white_space(c),
{
    let n: u32 = c as u32;
    (0x09 <= n && n <= 0x0d) || n == 0x20 || n == 0x85 || n == 0xa0 || n == 0x1680 || (0x2000 <= n
        && n <= 0x200a) || n == 0x2028 || n == 0x2029 || n == 0x202f || n == 0x205f || n == 0x3000
}

/// Whether `c` is a control character.
pub fn is_control(c: char) -> (r: bool)
    ensures
        r == control(c),
{
    let n: u32 = c as u32;
    n <= 0x1f || (0x7f <= n && n <= 0x9f)
}

/// The characters of `s`, in order.
pub fn chars_of(s: &str) -> (v: Vec<char>)
    ensures
        v@ == s@,
{
    let mut v: Vec<char> = Vec::new();
    for c in it: s.chars()
        invariant
            v@ == it.seq().take(it.index()),
            it.seq() == s@,
    {
        v.push(c);
    }
    v
}

/// Whether `text` holds at least one character that is not a control character.
pub fn is_printable(text: &str) -> (r: bool)
    ensures
        r == printable(text@),
{
    let chars: Vec<char> = chars_of(text);
    let mut i: usize = 0;
    while i < chars.len()
        invariant
            i <= chars.len(),
            chars@ == text@,
            forall|j: int| 0 <= j < i ==> control(#[trigger] text@[j]),
        decreases chars.len() - i,
    {
        if !is_control(chars[i]) {
            assert(!control(text@[i as int]));
            return true;
        }
        i += 1;
    }
    false
}

/// The bounds of `chars` once white space is trimmed from both ends.
pub fn trim_bounds(chars: &Vec<char>) -> (r: (usize, usize))
    ensures
        r.0 <= r.1 <= chars@.len(),
        chars@.subrange(r.0 as int, r.1 as int) == trimmed(chars@),
{
    let ghost p = |c: char| white_space(c);
    let mut start: usize = 0;
    let mut end: usize = chars.len();
    assert(chars@.subrange(0, end as int) == chars@);
    while start < end && is_white_space(chars[start])
        invariant
            start <= end == chars@.len(),
            p == (|c: char| white_space(c)),
            skip_front(chars@.subrange(start as int, end as int), p) == skip_front(chars@, p),
        decreases end - start,
    {
        let ghost rest = chars@.subrange(start as int, end as int);
        assert(rest.drop_first() == chars@.subrange(start + 1, end as int));
        start += 1;
    }
    let ghost tail = chars@.subrange(start as int, end as int);
    assert(tail == skip_front(chars@, p));
    while start < end && is_white_space(chars[end - 1])
        invariant
            start <= end <= chars@.len(),
            p == (|c: char| white_space(c)),
            skip_back(chars@.subrange(start as int, end as int), p) == skip_back(tail, p),
        decreases end - start,
    {
        let ghost rest = chars@.subrange(start as int, end as int);
        assert(rest.drop_last() == chars@.subrange(start as int, end - 1));
        end -= 1;
    }
    (start, end)
}

/// `s` without leading and trailing white space.
pub fn trim(s: &str) -> (r: String)
    ensures
        r@ == trimmed(s@),
{
    let chars: Vec<char> = chars_of(s);
    let (start, end) = trim_bounds(&chars);
    s.substring_char(start, end).to_string()
}

/// A text can be shown exactly if one of its characters lies beyond the control
/// characters U+0000 to U+001F and U+007F to U+009F; the empty text cannot.
pub proof fn lemma_one_visible_character_is_enough(text: Seq<char>, i: int)
    ensures
        0 <= i < text.len() && 0x20 <= text[i] as u32 && !(0x7f <= text[i] as u32 <= 0x9f)
            ==> printable(text),
        (forall|j: int|
            0 <= j < text.len() ==> (#[trigger] text[j]) as u32 <= 0x1f || 0x7f <= text[j] as u32
                <= 0x9f) ==> !printable(text),
{
    if 0 <= i < text.len() && 0x20 <= text[i] as u32 && !(0x7f <= text[i] as u32 <= 0x9f) {
        assert(!control(text[i]));
    }
}

/// Trimming takes white space from both ends, all of it, and nothing else:
/// white space around a text that neither begins nor ends with any is gone,
/// and the text is what remains.
pub proof fn lemma_trimming_takes_the_white_space(
    front: Seq<char>,
    text: Seq<char>,
    back: Seq<char>,
)
    requires
        forall|i: int| 0 <= i < front.len() ==> white_space(#[trigger] front[i]),
        forall|i: int| 0 <= i < back.len() ==> white_space(#[trigger] back[i]),
        text.len() > 0 ==> !white_space(text[0]) && !white_space(text[text.len() - 1]),
    ensures
        trimmed(front + text + back) == text,
{
    let p = |c: char| white_space(c);
    let whole = front + text + back;
    lemma_skip_front_of(front, text + back, p);
    assert(whole =~= front + (text + back));
    if text.len() > 0 {
        assert((text + back)[0] == text[0]);
        assert(skip_front(text + back, p) == text + back);
        lemma_skip_back_of(text, back, p);
        assert(text.last() == text[text.len() - 1]);
        assert(skip_back(text, p) == text);
    } else {
        assert(text + back =~= back + Seq::empty());
        lemma_skip_front_of(back, Seq::empty(), p);
        assert(text =~= Seq::empty());
    }
}

/// Every text is what trimming leaves of it, with nothing but white space
/// around.
pub proof fn lemma_trimmed_text_lies_within(s: Seq<char>) -> (r: (int, int))
    ensures
        0 <= r.0 <= r.1 <= s.len(),
        trimmed(s) == s.subrange(r.0, r.1),
        forall|i: int| 0 <= i < r.0 ==> white_space(#[trigger] s[i]),
        forall|i: int| r.1 <= i < s.len() ==> white_space(#[trigger] s[i]),
        r.0 < r.1 ==> !white_space(s[r.0]) && !white_space(s[r.1 - 1]),
{
    let p = |c: char| white_space(c);
    let from = lemma_skip_front_splits(s, p);
    let tail = s.subrange(from, s.len() as int);
    let end = lemma_skip_back_splits(tail, p);
    assert(trimmed(s) =~= s.subrange(from, from + end));
    assert forall|i: int| from + end <= i < s.len() implies white_space(#[trigger] s[i]) by {
        assert(p(tail[i - from]));
    }
    assert forall|i: int| 0 <= i < from implies white_space(#[trigger] s[i]) by {
        assert(p(s[i]));
    }
    if end > 0 {
        assert(!p(tail[end - 1]));
        assert(!p(s[from]));
    }
    (from, from + end)
}

proof fn lemma_skip_front_splits(s: Seq<char>, p: spec_fn(char) -> bool) -> (from: int)
    ensures
        0 <= from <= s.len(),
        skip_front(s, p) == s.subrange(from, s.len() as int),
        forall|i: int| 0 <= i < from ==> p(#[trigger] s[i]),
        from < s.len() ==> !p(s[from]),
    decreases s.len(),
{
    if s.len() > 0 && p(s[0]) {
        let rest = s.drop_first();
        let from = lemma_skip_front_splits(rest, p);
        assert(rest.subrange(from, rest.len() as int) =~= s.subrange(from + 1, s.len() as int));
        assert forall|i: int| 0 <= i < from + 1 implies p(#[trigger] s[i]) by {
            if i > 0 {
                assert(p(rest[i - 1]));
            }
        }
        from + 1
    } else {
        assert(s.subrange(0, s.len() as int) =~= s);
        0
    }
}

proof fn lemma_skip_back_splits(s: Seq<char>, p: spec_fn(char) -> bool) -> (end: int)
    ensures
        0 <= end <= s.len(),
        skip_back(s, p) == s.subrange(0, end),
        forall|i: int| end <= i < s.len() ==> p(#[trigger] s[i]),
        end > 0 ==> !p(s[end - 1]),
    decreases s.len(),
{
    if s.len() > 0 && p(s.last()) {
        let rest = s.drop_last();
        let end = lemma_skip_back_splits(rest, p);
        assert(rest.subrange(0, end) =~= s.subrange(0, end));
        assert forall|i: int| end <= i < s.len() implies p(#[trigger] s[i]) by {
            if i < rest.len() {
                assert(p(rest[i]));
            }
        }
        end
    } else {
        assert(s.subrange(0, s.len() as int) =~= s);
        s.len() as int
    }
}

proof fn lemma_skip_front_of(front: Seq<char>, rest: Seq<char>, p: spec_fn(char) -> bool)
    requires
        forall|i: int| 0 <= i < front.len() ==> p(#[trigger] front[i]),
    ensures
        skip_front(front + rest, p) == skip_front(rest, p),
    decreases front.len(),
{
    if front.len() > 0 {
        assert(p(front[0]));
        assert((front + rest).drop_first() =~= front.drop_first() + rest);
        assert forall|i: int| 0 <= i < front.drop_first().len() implies p(
            #[trigger] front.drop_first()[i],
        ) by {
            assert(p(front[i + 1]));
        }
        lemma_skip_front_of(front.drop_first(), rest, p);
    } else {
        assert(front + rest =~= rest);
    }
}

proof fn lemma_skip_back_of(rest: Seq<char>, back: Seq<char>, p: spec_fn(char) -> bool)
    requires
        forall|i: int| 0 <= i < back.len() ==> p(#[trigger] back[i]),
    ensures
        skip_back(rest + back, p) == skip_back(rest, p),
    decreases back.len(),
{
    if back.len() > 0 {
        assert(p(back[back.len() - 1]));
        assert((rest + back).drop_last() =~= rest + back.drop_last());
        assert forall|i: int| 0 <= i < back.drop_last().len() implies p(
            #[trigger] back.drop_last()[i],
        ) by {
            assert(p(back[i]));
        }
        lemma_skip_back_of(rest, back.drop_last(), p);
    } else {
        assert(rest + back =~= rest);
    }
}

} // verus!
