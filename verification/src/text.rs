//! Terminal text measurement and layout: display widths that skip ANSI
//! escapes, padding, centring, and decimal rendering of integers.

use vstd::prelude::*;
use vstd::std_specs::iter::IteratorSpec;
use vstd::string::*;

verus! {

/// `n` blank columns.
pub open spec fn spaces(n: nat) -> Seq<char> {
    Seq::new(n, |i: int| ' ')
}

/// Whether `c` is an ASCII letter (what ends a CSI escape sequence).
pub open spec fn is_ascii_letter(c: char) -> bool {
    ('a' <= c && c <= 'z') || ('A' <= c && c <= 'Z')
}

/// Whether `c` is one of the wide weather emoji/symbol blocks drawn two columns wide.
pub open spec fn is_wide_char(c: char) -> bool {
    let u = c as u32;
    ||| (0x1F300 <= u && u <= 0x1F6FF)
    ||| (0x1F900 <= u && u <= 0x1FAFF)
    ||| (0x2600 <= u && u <= 0x27BF)
    ||| (0x2B00 <= u && u <= 0x2BFF)
}

/// Terminal columns taken by one visible character.
pub open spec fn char_cols(c: char) -> nat {
    if is_wide_char(c) {
        2
    } else {
        1
    }
}

/// What is left of `s` once an escape sequence has been consumed up to and
/// including its final letter (nothing, when no letter closes it).
pub open spec fn after_escape(s: Seq<char>) -> Seq<char>
    decreases s.len(),
{
    if s.len() == 0 {
        s
    } else if is_ascii_letter(s[0]) {
        s.drop_first()
    } else {
        after_escape(s.drop_first())
    }
}

/// Consuming an escape never lengthens the text.
pub proof fn lemma_after_escape_shorter(s: Seq<char>)
    ensures
        after_escape(s).len() <= s.len(),
    decreases s.len(),
{
    if s.len() > 0 && !is_ascii_letter(s[0]) {
        lemma_after_escape_shorter(s.drop_first());
    }
}

/// Display width of `s`: ANSI escapes count for nothing, wide glyphs for two.
pub open spec fn visible_width(s: Seq<char>) -> nat
    decreases s.len(),
{
    if s.len() == 0 {
        0
    } else if s[0] == '\x1b' {
        proof {
            lemma_after_escape_shorter(s.drop_first());
        }
        visible_width(after_escape(s.drop_first()))
    } else {
        char_cols(s[0]) + visible_width(s.drop_first())
    }
}

/// Whether an ASCII letter occurs in `s` (so an escape begun before it ends).
pub open spec fn has_letter(s: Seq<char>) -> bool {
    exists|i: int| 0 <= i < s.len() && is_ascii_letter(#[trigger] s[i])
}

/// Every escape sequence in `s` is closed by a letter within `s`.
pub open spec fn escapes_closed(s: Seq<char>) -> bool
    decreases s.len(),
{
    if s.len() == 0 {
        true
    } else if s[0] == '\x1b' {
        proof {
            lemma_after_escape_shorter(s.drop_first());
        }
        has_letter(s.drop_first()) && escapes_closed(after_escape(s.drop_first()))
    } else {
        escapes_closed(s.drop_first())
    }
}

/// Text with no escape and no wide glyph: one column per character.
pub open spec fn plain_narrow(s: Seq<char>) -> bool {
    forall|i: int| 0 <= i < s.len() ==> (#[trigger] s[i]) != '\x1b' && !is_wide_char(s[i])
}

/// A closed escape swallows nothing that follows it.
proof fn lemma_after_escape_concat(t: Seq<char>, b: Seq<char>)
    requires
        has_letter(t),
    ensures
        after_escape(t + b) == after_escape(t) + b,
    decreases t.len(),
{
    assert((t + b)[0] == t[0]);
    if !is_ascii_letter(t[0]) {
        assert((t + b).drop_first() =~= t.drop_first() + b);
        let i = choose|i: int| 0 <= i < t.len() && is_ascii_letter(#[trigger] t[i]);
        assert(t.drop_first()[i - 1] == t[i]);
        lemma_after_escape_concat(t.drop_first(), b);
    } else {
        assert((t + b).drop_first() =~= t.drop_first() + b);
    }
}

/// The width of text after text whose escapes are closed adds up.
pub proof fn lemma_width_concat(a: Seq<char>, b: Seq<char>)
    requires
        escapes_closed(a),
    ensures
        visible_width(a + b) == visible_width(a) + visible_width(b),
        escapes_closed(b) ==> escapes_closed(a + b),
    decreases a.len(),
{
    if a.len() == 0 {
        assert(a + b =~= b);
    } else {
        assert((a + b)[0] == a[0]);
        assert((a + b).drop_first() =~= a.drop_first() + b);
        if a[0] == '\x1b' {
            lemma_after_escape_concat(a.drop_first(), b);
            lemma_after_escape_shorter(a.drop_first());
            lemma_width_concat(after_escape(a.drop_first()), b);
            if escapes_closed(b) {
                let i = choose|i: int| 0 <= i < a.drop_first().len() && is_ascii_letter(#[trigger] a.drop_first()[i]);
                assert((a.drop_first() + b)[i] == a.drop_first()[i]);
            }
        } else {
            lemma_width_concat(a.drop_first(), b);
        }
    }
}

/// Whether `s` holds no escape character.
pub open spec fn escape_free(s: Seq<char>) -> bool {
    forall|i: int| 0 <= i < s.len() ==> (#[trigger] s[i]) != '\x1b'
}

/// The sum of the columns of the characters of `s`.
pub open spec fn columns_sum(s: Seq<char>) -> nat
    decreases s.len(),
{
    if s.len() == 0 {
        0
    } else {
        char_cols(s[0]) + columns_sum(s.drop_first())
    }
}

proof fn lemma_escape_free_width(s: Seq<char>)
    requires
        escape_free(s),
    ensures
        visible_width(s) == columns_sum(s),
        s.len() <= visible_width(s) <= 2 * s.len(),
        escapes_closed(s),
    decreases s.len(),
{
    if s.len() > 0 {
        assert(s[0] != '\x1b');
        assert forall|i: int| 0 <= i < s.drop_first().len() implies (#[trigger] s.drop_first()[i]) != '\x1b' by {
            assert(s.drop_first()[i] == s[i + 1]);
        }
        lemma_escape_free_width(s.drop_first());
    }
}

/// Display widths: the width of text after text whose escapes are all closed
/// is the sum of the two widths; and text without escapes is as wide as the
/// sum of its characters' widths, at least one column and at most two per
/// character.
pub proof fn law_display_width(a: Seq<char>, b: Seq<char>, s: Seq<char>)
    requires
        escapes_closed(a),
        escape_free(s),
    ensures
        visible_width(a + b) == visible_width(a) + visible_width(b),
        visible_width(s) == columns_sum(s),
        s.len() <= visible_width(s) <= 2 * s.len(),
{
    lemma_width_concat(a, b);
    lemma_escape_free_width(s);
}

/// Plain narrow text is as wide as it is long, and holds no escape.
pub proof fn lemma_plain_width(s: Seq<char>)
    requires
        plain_narrow(s),
    ensures
        visible_width(s) == s.len(),
        escapes_closed(s),
    decreases s.len(),
{
    if s.len() > 0 {
        assert(s[0] != '\x1b' && !is_wide_char(s[0]));
        assert forall|i: int| 0 <= i < s.drop_first().len() implies (#[trigger] s.drop_first()[i]) != '\x1b' && !is_wide_char(s.drop_first()[i]) by {
            assert(s.drop_first()[i] == s[i + 1]);
        }
        lemma_plain_width(s.drop_first());
    }
}

/// Joining plain narrow texts keeps them plain and narrow.
pub proof fn lemma_plain_concat(a: Seq<char>, b: Seq<char>)
    requires
        plain_narrow(a),
        plain_narrow(b),
    ensures
        plain_narrow(a + b),
{
    assert forall|i: int| 0 <= i < (a + b).len() implies (#[trigger] (a + b)[i]) != '\x1b' && !is_wide_char((a + b)[i]) by {
        if i < a.len() {
            assert((a + b)[i] == a[i]);
        } else {
            assert((a + b)[i] == b[i - a.len()]);
        }
    }
}

/// Spaces are plain and narrow.
pub proof fn lemma_spaces_plain(n: nat)
    ensures
        plain_narrow(spaces(n)),
        spaces(n).len() == n,
{
}

/// An escape sequence: ESC, then characters that are not letters, then a letter.
pub proof fn lemma_escape_width(body: Seq<char>, end: char)
    requires
        forall|i: int| 0 <= i < body.len() ==> !is_ascii_letter(#[trigger] body[i]),
        is_ascii_letter(end),
    ensures
        visible_width(seq!['\x1b'] + body.push(end)) == 0,
        escapes_closed(seq!['\x1b'] + body.push(end)),
{
    let s = seq!['\x1b'] + body.push(end);
    assert(s[0] == '\x1b');
    assert(s.drop_first() =~= body.push(end));
    lemma_after_escape_body(body, end);
    assert(body.push(end)[body.len() as int] == end);
    assert(has_letter(s.drop_first()));
    assert(after_escape(s.drop_first()) =~= Seq::<char>::empty());
    assert(visible_width(Seq::<char>::empty()) == 0);
    assert(escapes_closed(Seq::<char>::empty()));
}

proof fn lemma_after_escape_body(body: Seq<char>, end: char)
    requires
        forall|i: int| 0 <= i < body.len() ==> !is_ascii_letter(#[trigger] body[i]),
        is_ascii_letter(end),
    ensures
        after_escape(body.push(end)) =~= Seq::<char>::empty(),
    decreases body.len(),
{
    if body.len() > 0 {
        assert(body.push(end)[0] == body[0]);
        assert(body.push(end).drop_first() =~= body.drop_first().push(end));
        assert forall|i: int| 0 <= i < body.drop_first().len() implies !is_ascii_letter(#[trigger] body.drop_first()[i]) by {
            assert(body.drop_first()[i] == body[i + 1]);
        }
        lemma_after_escape_body(body.drop_first(), end);
    } else {
        assert(body.push(end) =~= seq![end]);
        assert(seq![end].drop_first() =~= Seq::<char>::empty());
    }
}

/// Decimal digit character for `d < 10`.
pub open spec fn digit_char(d: nat) -> char {
    ((d + 48) as u32) as char
}

/// Decimal representation of a natural number, without leading zeros.
pub open spec fn decimal(n: nat) -> Seq<char>
    decreases n,
{
    if n < 10 {
        seq![digit_char(n)]
    } else {
        decimal(n / 10).push(digit_char(n % 10))
    }
}

/// Decimal representation of an integer, with a leading minus when negative.
pub open spec fn signed_decimal(n: int) -> Seq<char> {
    if n < 0 {
        seq!['-'] + decimal((-n) as nat)
    } else {
        decimal(n as nat)
    }
}

/// `text` right-aligned in a field of `width` columns (`{:>width}`).
pub open spec fn right_aligned(text: Seq<char>, width: nat) -> Seq<char> {
    if text.len() >= width {
        text
    } else {
        spaces((width - text.len()) as nat) + text
    }
}

/// `text` left-aligned in a field of `width` columns (`{:<width}`).
pub open spec fn left_aligned(text: Seq<char>, width: nat) -> Seq<char> {
    if text.len() >= width {
        text
    } else {
        text + spaces((width - text.len()) as nat)
    }
}

/// `text` centred in a field of `width` columns (`{:^width}`); the odd
/// column goes to the right.
pub open spec fn center_aligned(text: Seq<char>, width: nat) -> Seq<char> {
    if text.len() >= width {
        text
    } else {
        let pad = (width - text.len()) as nat;
        spaces(pad / 2) + text + spaces((pad - pad / 2) as nat)
    }
}

/// Calls `String::push`. Trusted: as documented, `c` is appended to `s`.
#[verifier::external_body]
pub(crate) fn push_char(s: &mut String, c: char)
    ensures
        final(s)@ == old(s)@.push(c),
{
    s.push(c);
}

/// Appends `text` to `s`.
pub fn push_str(s: &mut String, text: &str)
    ensures
        final(s)@ == old(s)@ + text@,
{
    s.append(text);
}

/// Appends `n` spaces to `s`.
pub fn push_spaces(s: &mut String, n: usize)
    ensures
        final(s)@ == old(s)@ + spaces(n as nat),
{
    let ghost start = s@;
    let mut i: usize = 0;
    while i < n
        invariant
            i <= n,
            s@ == start + spaces(i as nat),
        decreases n - i,
    {
        push_char(s, ' ');
        i = i + 1;
        assert(s@ =~= start + spaces(i as nat));
    }
}

/// The characters of `s`, in order.
pub fn chars_of(s: &str) -> (v: Vec<char>)
    ensures
        v@ == s@,
{
    broadcast use vstd::string::group_string_axioms;

    let mut v: Vec<char> = Vec::new();
    let ghost q = s@;
    for c in it: s.chars()
        invariant
            it.seq() == q,
            v@ == q.take(it.index()),
    {
        v.push(c);
        assert(q.take(it.index() + 1) == q.take(it.index() as int).push(c));
    }
    assert(q.take(q.len() as int) == q);
    v
}

/// Appends the characters of `v[from..to]` to `s`.
pub fn push_chars(s: &mut String, v: &Vec<char>, from: usize, to: usize)
    requires
        from <= to <= v.len(),
    ensures
        final(s)@ == old(s)@ + v@.subrange(from as int, to as int),
{
    let ghost start = s@;
    let mut i = from;
    while i < to
        invariant
            from <= i <= to <= v.len(),
            s@ == start + v@.subrange(from as int, i as int),
        decreases to - i,
    {
        push_char(s, v[i]);
        i = i + 1;
        assert(s@ =~= start + v@.subrange(from as int, i as int));
    }
}

/// Whether `s` begins with `p`.
pub open spec fn starts_with(s: Seq<char>, p: Seq<char>) -> bool {
    p.len() <= s.len() && s.take(p.len() as int) == p
}

/// Whether `p` occurs somewhere in `s`.
pub open spec fn contains_text(s: Seq<char>, p: Seq<char>) -> bool {
    exists|i: int| 0 <= i && i + p.len() <= s.len() && #[trigger] s.subrange(i, i + p.len()) == p
}

/// Whether `v[at..]` begins with `p`.
fn matches_at(v: &Vec<char>, p: &Vec<char>, at: usize) -> (r: bool)
    requires
        at <= v.len(),
    ensures
        r == (p.len() <= v.len() - at && v@.subrange(at as int, at + p.len()) == p@),
{
    if p.len() > v.len() - at {
        return false;
    }
    let mut j: usize = 0;
    while j < p.len()
        invariant
            at <= v.len(),
            p.len() <= v.len() - at,
            j <= p.len(),
            forall|q: int| 0 <= q < j ==> v@[at + q] == p@[q],
        decreases p.len() - j,
    {
        if v[at + j] != p[j] {
            assert(v@.subrange(at as int, at + p.len())[j as int] != p@[j as int]);
            return false;
        }
        j = j + 1;
    }
    assert(v@.subrange(at as int, at + p.len()) =~= p@);
    true
}

/// Whether `s` begins with `p`.
pub fn has_prefix(s: &str, p: &str) -> (r: bool)
    ensures
        r == starts_with(s@, p@),
{
    let v = chars_of(s);
    let w = chars_of(p);
    let r = matches_at(&v, &w, 0);
    assert(s@.take(p@.len() as int) =~= s@.subrange(0, p@.len() as int));
    r
}

/// Whether `p` occurs in `s`.
pub fn has_infix(s: &str, p: &str) -> (r: bool)
    ensures
        r == contains_text(s@, p@),
{
    let v = chars_of(s);
    let w = chars_of(p);
    if w.len() > v.len() {
        return false;
    }
    let limit = v.len() - w.len();
    let mut i: usize = 0;
    loop
        invariant
            v@ == s@,
            w@ == p@,
            w.len() <= v.len(),
            limit == v.len() - w.len(),
            i <= limit,
            forall|q: int| 0 <= q < i ==> #[trigger] s@.subrange(q, q + p@.len()) != p@,
        decreases limit - i,
    {
        if matches_at(&v, &w, i) {
            return true;
        }
        if i == limit {
            return false;
        }
        i = i + 1;
    }
}

/// Whether two texts hold the same characters.
pub fn same_text(a: &str, b: &str) -> (r: bool)
    ensures
        r == (a@ == b@),
{
    let va = chars_of(a);
    let vb = chars_of(b);
    if va.len() != vb.len() {
        return false;
    }
    let mut i: usize = 0;
    while i < va.len()
        invariant
            va@ == a@,
            vb@ == b@,
            va.len() == vb.len(),
            i <= va.len(),
            forall|j: int| 0 <= j < i ==> va@[j] == vb@[j],
        decreases va.len() - i,
    {
        if va[i] != vb[i] {
            return false;
        }
        i = i + 1;
    }
    assert(va@ =~= vb@);
    true
}

/// Columns taken by one visible character: 2 for the wide weather emoji and
/// symbols used as condition icons, 1 otherwise. The arrows (U+2190..21FF) and
/// the current-row marker (U+1F81E) are narrow.
pub fn char_width(c: char) -> (w: usize)
    ensures
        w == char_cols(c),
{
    let u = c as u32;
    let wide = (0x1F300 <= u && u <= 0x1F6FF) || (0x1F900 <= u && u <= 0x1FAFF) || (0x2600 <= u
        && u <= 0x27BF) || (0x2B00 <= u && u <= 0x2BFF);
    if wide {
        2
    } else {
        1
    }
}

/// Visible characters in `s` never exceed its length times two.
pub proof fn lemma_visible_width_bound(s: Seq<char>)
    ensures
        visible_width(s) <= 2 * s.len(),
    decreases s.len(),
{
    if s.len() > 0 {
        if s[0] == '\x1b' {
            lemma_after_escape_shorter(s.drop_first());
            lemma_visible_width_bound(after_escape(s.drop_first()));
        } else {
            lemma_visible_width_bound(s.drop_first());
        }
    }
}

/// Display width of `s`, skipping ANSI escape sequences (from ESC up to and
/// including the first ASCII letter) and counting wide glyphs as 2.
pub fn display_width(s: &str) -> (w: usize)
    requires
        s@.len() <= usize::MAX / 2,
    ensures
        w == visible_width(s@),
{
    let v = chars_of(s);
    let n = v.len();
    proof {
        lemma_visible_width_bound(v@);
        assert(v@.skip(0) =~= v@);
    }
    let mut w: usize = 0;
    let mut i: usize = 0;
    while i < n
        invariant
            n == v.len(),
            i <= n,
            w + visible_width(v@.skip(i as int)) == visible_width(v@),
            visible_width(v@) <= 2 * n,
            n <= usize::MAX / 2,
        decreases n - i,
    {
        let c = v[i];
        let ghost rest = v@.skip(i as int);
        assert(rest.drop_first() =~= v@.skip(i + 1));
        if c == '\x1b' {
            // Skip a CSI sequence up to and including its final letter.
            let mut j = i + 1;
            while j < n && !(('a' <= v[j] && v[j] <= 'z') || ('A' <= v[j] && v[j] <= 'Z'))
                invariant
                    n == v.len(),
                    i < j <= n,
                    after_escape(v@.skip(i + 1)) == after_escape(v@.skip(j as int)),
                decreases n - j,
            {
                assert(v@.skip(j as int).drop_first() =~= v@.skip(j + 1));
                j = j + 1;
            }
            if j < n {
                assert(v@.skip(j as int).drop_first() =~= v@.skip(j + 1));
                i = j + 1;
            } else {
                assert(v@.skip(j as int).len() == 0);
                assert(v@.skip(n as int) =~= v@.skip(j as int));
                i = n;
            }
        } else {
            proof {
                lemma_visible_width_bound(v@.skip(i + 1));
            }
            w = w + char_width(c);
            i = i + 1;
        }
    }
    assert(v@.skip(n as int).len() == 0);
    w
}

/// Pads `s` with spaces up to `target` display columns (no-op if already wider).
pub fn pad_to(s: &mut String, target: usize)
    requires
        old(s)@.len() <= usize::MAX / 2,
    ensures
        visible_width(old(s)@) < target ==> final(s)@ == old(s)@ + spaces(
            (target - visible_width(old(s)@)) as nat,
        ),
        visible_width(old(s)@) >= target ==> final(s)@ == old(s)@,
{
    let w = display_width(s.as_str());
    if w < target {
        push_spaces(s, target - w);
    }
}

/// Centre `text` within `width` columns, truncating it to `width` characters
/// when it does not fit.
pub open spec fn centered(text: Seq<char>, width: nat) -> Seq<char> {
    if text.len() >= width {
        text.take(width as int)
    } else {
        let left = ((width - text.len()) / 2) as nat;
        spaces(left) + text + spaces((width - text.len() - left) as nat)
    }
}

/// Centre `text` within `width` columns (truncating if it does not fit).
pub fn center(text: &str, width: usize) -> (r: String)
    ensures
        r@ == centered(text@, width as nat),
{
    let v = chars_of(text);
    let tw = v.len();
    let mut r = String::new();
    if tw >= width {
        push_chars(&mut r, &v, 0, width);
        assert(r@ =~= text@.take(width as int));
        return r;
    }
    let left = (width - tw) / 2;
    push_spaces(&mut r, left);
    push_chars(&mut r, &v, 0, tw);
    push_spaces(&mut r, width - tw - left);
    assert(v@.subrange(0, tw as int) =~= text@);
    r
}

/// A centred cell is exactly `width` characters long.
pub proof fn law_centered_width(text: Seq<char>, width: nat)
    ensures
        centered(text, width).len() == width,
{
}

/// `lo` flush left and `hi` flush right within `width` columns; when both do
/// not fit with a gap, their concatenation cut to `width` characters.
pub open spec fn axis_line(lo: Seq<char>, hi: Seq<char>, width: nat) -> Seq<char> {
    if lo.len() + hi.len() >= width {
        (lo + hi).take(width as int)
    } else {
        lo + spaces((width - lo.len() - hi.len()) as nat) + hi
    }
}

/// A scale line is exactly `width` characters long, and begins with `lo`
/// and ends with `hi` whenever both fit with a gap.
pub proof fn law_axis_width(lo: Seq<char>, hi: Seq<char>, width: nat)
    ensures
        axis_line(lo, hi, width).len() == width,
        lo.len() + hi.len() < width ==> axis_line(lo, hi, width).take(lo.len() as int) == lo
            && axis_line(lo, hi, width).skip(width - hi.len()) == hi,
{
    let r = axis_line(lo, hi, width);
    if lo.len() + hi.len() < width {
        assert(r.take(lo.len() as int) =~= lo);
        assert(r.skip(width - hi.len()) =~= hi);
    }
}

/// `lo` flush-left and `hi` flush-right within `width` columns.
pub fn axis(lo: &str, hi: &str, width: usize) -> (r: String)
    ensures
        r@ == axis_line(lo@, hi@, width as nat),
{
    let vl = chars_of(lo);
    let vh = chars_of(hi);
    let mut r = String::new();
    if vl.len() >= width {
        push_chars(&mut r, &vl, 0, width);
        assert(r@ =~= (lo@ + hi@).take(width as int));
        return r;
    }
    if vh.len() >= width - vl.len() {
        push_chars(&mut r, &vl, 0, vl.len());
        push_chars(&mut r, &vh, 0, width - vl.len());
        assert(r@ =~= (lo@ + hi@).take(width as int));
        return r;
    }
    push_chars(&mut r, &vl, 0, vl.len());
    push_spaces(&mut r, width - vl.len() - vh.len());
    push_chars(&mut r, &vh, 0, vh.len());
    assert(vl@.subrange(0, vl.len() as int) =~= lo@);
    assert(vh@.subrange(0, vh.len() as int) =~= hi@);
    r
}

/// The character of decimal digit `d`.
pub fn digit(d: u8) -> (c: char)
    requires
        d < 10,
    ensures
        c == digit_char(d as nat),
{
    let code: u8 = 48 + d;
    code as char
}

/// Appends the decimal digits of `n` to `s`.
pub fn push_decimal(s: &mut String, n: u64)
    ensures
        final(s)@ == old(s)@ + decimal(n as nat),
    decreases n,
{
    if n >= 10 {
        push_decimal(s, n / 10);
    }
    push_char(s, digit((n % 10) as u8));
    assert(final(s)@ =~= old(s)@ + decimal(n as nat)) by {
        if n >= 10 {
            assert(decimal(n as nat) == decimal((n / 10) as nat).push(digit_char((n % 10) as nat)));
        }
    }
}

/// Appends `n` in decimal, with a leading minus sign when negative.
pub fn push_signed(s: &mut String, n: i64)
    ensures
        final(s)@ == old(s)@ + signed_decimal(n as int),
{
    if n < 0 {
        push_char(s, '-');
        let m: u64 = ((-(n + 1)) as u64) + 1;
        push_decimal(s, m);
        assert(s@ =~= old(s)@ + signed_decimal(n as int));
    } else {
        push_decimal(s, n as u64);
    }
}

/// Decimal text of `n`.
pub fn decimal_text(n: u64) -> (r: String)
    ensures
        r@ == decimal(n as nat),
{
    let mut r = String::new();
    push_decimal(&mut r, n);
    assert(r@ =~= decimal(n as nat));
    r
}

/// Decimal text of `n`, with a leading minus sign when negative.
pub fn signed_text(n: i64) -> (r: String)
    ensures
        r@ == signed_decimal(n as int),
{
    let mut r = String::new();
    push_signed(&mut r, n);
    assert(r@ =~= signed_decimal(n as int));
    r
}

/// Decimal digits are plain narrow characters, none of them a letter.
pub proof fn lemma_decimal_digits(n: nat)
    ensures
        plain_narrow(decimal(n)),
        forall|i: int| 0 <= i < decimal(n).len() ==> !is_ascii_letter(#[trigger] decimal(n)[i]),
        forall|i: int| 0 <= i < decimal(n).len() ==> '0' <= #[trigger] decimal(n)[i] <= '9',
    decreases n,
{
    if n >= 10 {
        lemma_decimal_digits(n / 10);
        let p = decimal(n / 10);
        let c = digit_char(n % 10);
        assert(decimal(n) == p.push(c));
        assert forall|i: int| 0 <= i < decimal(n).len() implies '0' <= #[trigger] decimal(n)[i] <= '9' by {
            if i < p.len() {
                assert(decimal(n)[i] == p[i]);
            }
        }
    }
}

/// How many digits small numbers have.
pub proof fn lemma_decimal_len_bound(n: nat, digits: nat)
    requires
        1 <= digits,
        n < pow10(digits),
    ensures
        decimal(n).len() <= digits,
    decreases n,
{
    if n >= 10 {
        assert(digits >= 2) by {
            if digits == 1 {
                assert(pow10(0) == 1);
                assert(pow10(1) == 10);
            }
        }
        assert(pow10(digits) == 10 * pow10((digits - 1) as nat));
        assert(n / 10 < pow10((digits - 1) as nat));
        lemma_decimal_len_bound(n / 10, (digits - 1) as nat);
    }
}

/// Ten to the power `k`.
pub open spec fn pow10(k: nat) -> nat
    decreases k,
{
    if k == 0 {
        1
    } else {
        10 * pow10((k - 1) as nat)
    }
}

/// Decimal digits never outnumber the value plus one.
pub proof fn lemma_decimal_len(n: nat)
    ensures
        1 <= decimal(n).len() <= n + 1,
    decreases n,
{
    if n >= 10 {
        lemma_decimal_len(n / 10);
    }
}

/// Appends `text` right-aligned in a field of `width` columns.
pub fn push_right_aligned(s: &mut String, text: &str, width: usize)
    ensures
        final(s)@ == old(s)@ + right_aligned(text@, width as nat),
{
    let v = chars_of(text);
    if v.len() < width {
        push_spaces(s, width - v.len());
    }
    push_str(s, text);
    assert(final(s)@ =~= old(s)@ + right_aligned(text@, width as nat));
}

/// Appends `text` left-aligned in a field of `width` columns.
pub fn push_left_aligned(s: &mut String, text: &str, width: usize)
    ensures
        final(s)@ == old(s)@ + left_aligned(text@, width as nat),
{
    let v = chars_of(text);
    push_str(s, text);
    if v.len() < width {
        push_spaces(s, width - v.len());
    }
    assert(final(s)@ =~= old(s)@ + left_aligned(text@, width as nat));
}

/// Appends `text` centred in a field of `width` columns.
pub fn push_center_aligned(s: &mut String, text: &str, width: usize)
    ensures
        final(s)@ == old(s)@ + center_aligned(text@, width as nat),
{
    let v = chars_of(text);
    if v.len() < width {
        let pad = width - v.len();
        push_spaces(s, pad / 2);
        push_str(s, text);
        push_spaces(s, pad - pad / 2);
    } else {
        push_str(s, text);
    }
    assert(final(s)@ =~= old(s)@ + center_aligned(text@, width as nat));
}

} // verus!
