//! Characters and strings: the few primitives everything else is built from.
//! Text is reasoned about as its sequence of `char`s; where a position is a
//! byte offset, `byte_len` is the UTF-8 length of that sequence.

use vstd::prelude::*;

verus! {

/// `char::is_whitespace`: the Unicode `White_Space` property, which is exactly
/// these code points.
pub open spec fn is_space(c: char) -> bool {
    let u = c as u32;
    ||| 0x09 <= u <= 0x0d
    ||| u == 0x20
    ||| u == 0x85
    ||| u == 0xa0
    ||| u == 0x1680
    ||| 0x2000 <= u <= 0x200a
    ||| u == 0x2028
    ||| u == 0x2029
    ||| u == 0x202f
    ||| u == 0x205f
    ||| u == 0x3000
}

pub fn space(c: char) -> (r: bool)
    ensures
        r == is_space(c),
{
    let u = c as u32;
    (0x09 <= u && u <= 0x0d) || u == 0x20 || u == 0x85 || u == 0xa0 || u == 0x1680 || (0x2000
        <= u && u <= 0x200a) || u == 0x2028 || u == 0x2029 || u == 0x202f || u == 0x205f || u
        == 0x3000
}

/// How many bytes UTF-8 spends on `c`.
pub open spec fn width(c: char) -> nat {
    let u = c as u32;
    if u < 0x80 {
        1
    } else if u < 0x800 {
        2
    } else if u < 0x10000 {
        3
    } else {
        4
    }
}

pub fn char_width(c: char) -> (r: usize)
    ensures
        r == width(c),
        1 <= r <= 4,
{
    let u = c as u32;
    if u < 0x80 {
        1
    } else if u < 0x800 {
        2
    } else if u < 0x10000 {
        3
    } else {
        4
    }
}

/// The UTF-8 length of a text, in bytes.
pub open spec fn byte_len(s: Seq<char>) -> nat
    decreases s.len(),
{
    if s.len() == 0 {
        0
    } else {
        byte_len(s.drop_last()) + width(s.last())
    }
}

pub proof fn lemma_byte_len_push(s: Seq<char>, c: char)
    ensures
        byte_len(s.push(c)) == byte_len(s) + width(c),
{
    assert(s.push(c).drop_last() =~= s);
}

pub proof fn lemma_byte_len_take(s: Seq<char>, i: int)
    requires
        0 <= i < s.len(),
    ensures
        byte_len(s.take(i + 1)) == byte_len(s.take(i)) + width(s[i]),
{
    assert(s.take(i + 1).drop_last() =~= s.take(i));
}

pub proof fn lemma_byte_len_concat(a: Seq<char>, b: Seq<char>)
    ensures
        byte_len(a + b) == byte_len(a) + byte_len(b),
    decreases b.len(),
{
    if b.len() > 0 {
        assert((a + b).drop_last() =~= a + b.drop_last());
        lemma_byte_len_concat(a, b.drop_last());
    } else {
        assert(a + b =~= a);
    }
}

/// Longer prefixes take more bytes: every character takes at least one.
pub proof fn lemma_byte_len_grows(s: Seq<char>, i: int, j: int)
    requires
        0 <= i <= j <= s.len(),
    ensures
        byte_len(s.take(i)) + (j - i) <= byte_len(s.take(j)),
    decreases j - i,
{
    if i < j {
        lemma_byte_len_grows(s, i, j - 1);
        lemma_byte_len_take(s, j - 1);
    }
}

/// `byte_len` is the length of the UTF-8 encoding that vstd describes.
pub proof fn lemma_byte_len_utf8(s: Seq<char>)
    ensures
        byte_len(s) == vstd::utf8::encode_utf8(s).len(),
    decreases s.len(),
{
    if s.len() > 0 {
        let c = s[0];
        vstd::utf8::char_is_scalar(c);
        assert(vstd::utf8::encode_scalar(c as u32).len() == width(c));
        lemma_byte_len_utf8(s.drop_first());
        lemma_byte_len_concat(seq![c], s.drop_first());
        assert(seq![c] + s.drop_first() =~= s);
        assert(seq![c].drop_last() =~= Seq::<char>::empty());
        assert(byte_len(seq![c]) == width(c)) by {
            lemma_byte_len_push(Seq::<char>::empty(), c);
            assert(Seq::<char>::empty().push(c) =~= seq![c]);
        }
        assert(vstd::utf8::encode_utf8(s).len() == vstd::utf8::encode_scalar(c as u32).len()
            + vstd::utf8::encode_utf8(s.drop_first()).len());
    }
}

/// How many bytes `s` takes, which a `str` always has room to count.
pub fn byte_count(s: &str) -> (n: usize)
    ensures
        n == byte_len(s@),
{
    proof {
        lemma_byte_len_utf8(s@);
    }
    s.as_bytes().len()
}

/// `String::push`.
#[verifier::external_body]
pub fn push_char(s: &mut String, c: char)
    ensures
        final(s)@ == old(s)@.push(c),
{
    s.push(c)
}

pub fn push_str(s: &mut String, t: &str)
    ensures
        final(s)@ == old(s)@ + t@,
{
    s.append(t);
}

pub fn push_chars(s: &mut String, t: &[char])
    ensures
        final(s)@ == old(s)@ + t@,
{
    let ghost start = s@;
    let mut i: usize = 0;
    while i < t.len()
        invariant
            i <= t.len(),
            s@ == start + t@.take(i as int),
        decreases t.len() - i,
    {
        push_char(s, t[i]);
        assert(t@.take(i as int).push(t@[i as int]) =~= t@.take(i + 1));
        i += 1;
    }
    assert(t@.take(t.len() as int) =~= t@);
}

pub fn string_of(t: &[char]) -> (s: String)
    ensures
        s@ == t@,
{
    let mut s = String::new();
    push_chars(&mut s, t);
    assert(Seq::<char>::empty() + t@ =~= t@);
    s
}

pub fn chars_of(s: &str) -> (v: Vec<char>)
    ensures
        v@ == s@,
{
    let mut v: Vec<char> = Vec::new();
    for c in it: s.chars()
        invariant
            v@ == it.seq().take(it.index() as int),
    {
        v.push(c);
    }
    v
}

pub fn slice_chars(v: &[char], from: usize, to: usize) -> (r: Vec<char>)
    requires
        from <= to <= v.len(),
    ensures
        r@ == v@.subrange(from as int, to as int),
{
    let mut r: Vec<char> = Vec::new();
    let mut i = from;
    while i < to
        invariant
            from <= i <= to <= v.len(),
            r@ == v@.subrange(from as int, i as int),
        decreases to - i,
    {
        r.push(v[i]);
        assert(v@.subrange(from as int, i as int).push(v@[i as int]) =~= v@.subrange(
            from as int,
            i + 1,
        ));
        i += 1;
    }
    r
}

pub fn same_chars(a: &[char], b: &[char]) -> (r: bool)
    ensures
        r == (a@ == b@),
{
    if a.len() != b.len() {
        return false;
    }
    let mut i: usize = 0;
    while i < a.len()
        invariant
            a.len() == b.len(),
            i <= a.len(),
            forall|k: int| 0 <= k < i ==> a@[k] == b@[k],
        decreases a.len() - i,
    {
        if a[i] != b[i] {
            return false;
        }
        i += 1;
    }
    assert(a@ =~= b@);
    true
}

/// `s` with the whitespace at its front taken off.
pub open spec fn trim_start(s: Seq<char>) -> Seq<char>
    decreases s.len(),
{
    if s.len() > 0 && is_space(s[0]) {
        trim_start(s.drop_first())
    } else {
        s
    }
}

/// `s` with the whitespace at its end taken off.
pub open spec fn trim_end(s: Seq<char>) -> Seq<char>
    decreases s.len(),
{
    if s.len() > 0 && is_space(s.last()) {
        trim_end(s.drop_last())
    } else {
        s
    }
}

pub open spec fn trim(s: Seq<char>) -> Seq<char> {
    trim_end(trim_start(s))
}

/// How many characters `trim_start` takes off the front.
pub fn leading_space(v: &[char]) -> (n: usize)
    ensures
        n <= v.len(),
        trim_start(v@) == v@.skip(n as int),
        forall|k: int| 0 <= k < n ==> is_space(#[trigger] v@[k]),
        n < v.len() ==> !is_space(v@[n as int]),
{
    let mut i: usize = 0;
    assert(v@.skip(0) =~= v@);
    while i < v.len() && space(v[i])
        invariant
            i <= v.len(),
            trim_start(v@) == trim_start(v@.skip(i as int)),
            forall|k: int| 0 <= k < i ==> is_space(#[trigger] v@[k]),
        decreases v.len() - i,
    {
        assert(v@.skip(i as int).drop_first() =~= v@.skip(i + 1));
        i += 1;
    }
    i
}

/// Where `trim_end` stops: the length of what is left.
pub fn trailing_start(v: &[char]) -> (n: usize)
    ensures
        n <= v.len(),
        trim_end(v@) == v@.take(n as int),
        forall|k: int| n <= k < v.len() ==> is_space(#[trigger] v@[k]),
        n > 0 ==> !is_space(v@[n - 1]),
{
    let mut i: usize = v.len();
    assert(v@.take(v.len() as int) =~= v@);
    while i > 0 && space(v[i - 1])
        invariant
            i <= v.len(),
            trim_end(v@) == trim_end(v@.take(i as int)),
            forall|k: int| i <= k < v.len() ==> is_space(#[trigger] v@[k]),
        decreases i,
    {
        assert(v@.take(i as int).drop_last() =~= v@.take(i - 1));
        i -= 1;
    }
    i
}

pub fn trimmed(v: &[char]) -> (r: Vec<char>)
    ensures
        r@ == trim(v@),
{
    let a = leading_space(v);
    let rest = slice_chars(v, a, v.len());
    let b = trailing_start(&rest);
    slice_chars(&rest, 0, b)
}

/// Decimal digits of `n`, most significant first, with no padding.
pub open spec fn digits(n: nat) -> Seq<char>
    decreases n,
{
    if n < 10 {
        seq![digit_char(n)]
    } else {
        digits(n / 10).push(digit_char(n % 10))
    }
}

pub open spec fn digit_char(d: nat) -> char {
    if d == 0 {
        '0'
    } else if d == 1 {
        '1'
    } else if d == 2 {
        '2'
    } else if d == 3 {
        '3'
    } else if d == 4 {
        '4'
    } else if d == 5 {
        '5'
    } else if d == 6 {
        '6'
    } else if d == 7 {
        '7'
    } else if d == 8 {
        '8'
    } else {
        '9'
    }
}

pub fn digit_of(d: u64) -> (c: char)
    requires
        d < 10,
    ensures
        c == digit_char(d as nat),
{
    if d == 0 {
        '0'
    } else if d == 1 {
        '1'
    } else if d == 2 {
        '2'
    } else if d == 3 {
        '3'
    } else if d == 4 {
        '4'
    } else if d == 5 {
        '5'
    } else if d == 6 {
        '6'
    } else if d == 7 {
        '7'
    } else if d == 8 {
        '8'
    } else {
        '9'
    }
}

/// `n` written out in decimal, as `{}` formats an unsigned integer.
pub fn decimal(n: u64) -> (s: String)
    ensures
        s@ == digits(n as nat),
    decreases n,
{
    if n < 10 {
        let mut s = String::new();
        push_char(&mut s, digit_of(n));
        s
    } else {
        let mut s = decimal(n / 10);
        push_char(&mut s, digit_of(n % 10));
        s
    }
}

/// `n` zero-padded to at least `w` digits.
pub open spec fn padded(n: nat, w: nat) -> Seq<char>
    decreases w,
{
    if digits(n).len() >= w {
        digits(n)
    } else if w == 0 {
        digits(n)
    } else {
        seq!['0'] + padded(n, (w - 1) as nat)
    }
}

pub fn zero_padded(n: u64, w: usize) -> (s: String)
    ensures
        s@ == padded(n as nat, w as nat),
    decreases w,
{
    let d = decimal(n);
    if d.as_str().unicode_len() >= w || w == 0 {
        d
    } else {
        let rest = zero_padded(n, w - 1);
        let mut s = String::new();
        push_char(&mut s, '0');
        push_str(&mut s, rest.as_str());
        assert(s@ =~= seq!['0'] + padded(n as nat, (w - 1) as nat));
        s
    }
}


/// The words of `s` from position `i` on, as character spans, when a word
/// that began at `start` is still open: `split_whitespace`'s tokens.
pub open spec fn spans_from(s: Seq<char>, i: int, start: Option<int>) -> Seq<(int, int)>
    decreases s.len() - i,
{
    if i >= s.len() {
        match start {
            Some(a) => seq![(a, s.len() as int)],
            None => seq![],
        }
    } else if is_space(s[i]) {
        match start {
            Some(a) => seq![(a, i)] + spans_from(s, i + 1, None),
            None => spans_from(s, i + 1, None),
        }
    } else {
        match start {
            Some(a) => spans_from(s, i + 1, Some(a)),
            None => spans_from(s, i + 1, Some(i)),
        }
    }
}

/// Every word of `s`, as the span of characters it covers.
pub open spec fn spans(s: Seq<char>) -> Seq<(int, int)> {
    spans_from(s, 0, None)
}

pub open spec fn word_at(s: Seq<char>, sp: (int, int)) -> Seq<char> {
    s.subrange(sp.0, sp.1)
}

pub open spec fn spans_view(v: Seq<(usize, usize)>) -> Seq<(int, int)> {
    v.map_values(|p: (usize, usize)| (p.0 as int, p.1 as int))
}

/// What `spans_from` promises: spans in order, each a non-empty run of
/// non-space characters with a space or an end on either side.
pub open spec fn good_spans(s: Seq<char>, sp: Seq<(int, int)>, lo: int) -> bool {
    &&& forall|k: int|
        0 <= k < sp.len() ==> lo <= (#[trigger] sp[k]).0 < sp[k].1 <= s.len()
    &&& forall|k: int, j: int|
        0 <= k < j < sp.len() ==> (#[trigger] sp[k]).1 < (#[trigger] sp[j]).0
    &&& forall|k: int, m: int|
        0 <= k < sp.len() && (#[trigger] sp[k]).0 <= m < sp[k].1 ==> !is_space(#[trigger] s[m])
    &&& forall|k: int|
        0 <= k < sp.len() ==> ((#[trigger] sp[k]).1 == s.len() || is_space(s[sp[k].1]))
}

pub proof fn lemma_spans_from_good(s: Seq<char>, i: int, start: Option<int>)
    requires
        0 <= i <= s.len(),
        start matches Some(a) ==> 0 <= a < i && forall|m: int| a <= m < i ==> !is_space(
            #[trigger] s[m],
        ),
    ensures
        good_spans(
            s,
            spans_from(s, i, start),
            match start {
                Some(a) => a,
                None => i,
            },
        ),
    decreases s.len() - i,
{
    let lo = match start {
        Some(a) => a,
        None => i,
    };
    if i >= s.len() {
    } else if is_space(s[i]) {
        lemma_spans_from_good(s, i + 1, None);
        match start {
            Some(a) => {
                let rest = spans_from(s, i + 1, None);
                let all = seq![(a, i)] + rest;
                assert forall|k: int, j: int| 0 <= k < j < all.len() implies (
                #[trigger] all[k]).1 < (#[trigger] all[j]).0 by {
                    if k == 0 {
                        assert(all[j] == rest[j - 1]);
                    } else {
                        assert(all[j] == rest[j - 1]);
                        assert(all[k] == rest[k - 1]);
                    }
                }
                assert forall|k: int| 0 <= k < all.len() implies lo <= (#[trigger] all[k]).0
                    < all[k].1 <= s.len() by {
                    if k > 0 {
                        assert(all[k] == rest[k - 1]);
                    }
                }
                assert forall|k: int, m: int|
                    0 <= k < all.len() && (#[trigger] all[k]).0 <= m < all[k].1 implies !is_space(
                    #[trigger] s[m],
                ) by {
                    if k > 0 {
                        assert(all[k] == rest[k - 1]);
                    }
                }
                assert forall|k: int| 0 <= k < all.len() implies ((#[trigger] all[k]).1
                    == s.len() || is_space(s[all[k].1])) by {
                    if k > 0 {
                        assert(all[k] == rest[k - 1]);
                    }
                }
            },
            None => {},
        }
    } else {
        match start {
            Some(a) => {
                lemma_spans_from_good(s, i + 1, Some(a));
            },
            None => {
                lemma_spans_from_good(s, i + 1, Some(i));
            },
        }
    }
}

pub proof fn lemma_spans_good(s: Seq<char>)
    ensures
        good_spans(s, spans(s), 0),
{
    lemma_spans_from_good(s, 0, None);
}

/// `split_whitespace`, keeping where each word is.
pub fn word_spans(v: &[char]) -> (r: Vec<(usize, usize)>)
    ensures
        spans_view(r@) == spans(v@),
        good_spans(v@, spans(v@), 0),
{
    proof {
        lemma_spans_good(v@);
    }
    let mut out: Vec<(usize, usize)> = Vec::new();
    let mut start: Option<usize> = None;
    let mut i: usize = 0;
    while i < v.len()
        invariant
            i <= v.len(),
            start matches Some(a) ==> a < i,
            spans_view(out@) + spans_from(
                v@,
                i as int,
                match start {
                    Some(a) => Some(a as int),
                    None => None,
                },
            ) == spans(v@),
        decreases v.len() - i,
    {
        let ghost before = out@;
        if space(v[i]) {
            match start {
                Some(a) => {
                    out.push((a, i));
                    assert(spans_view(out@) =~= spans_view(before) + seq![(a as int, i as int)]);
                    assert(spans_view(out@) + spans_from(v@, i + 1, None) =~= spans_view(before)
                        + (seq![(a as int, i as int)] + spans_from(v@, i + 1, None)));
                },
                None => {},
            }
            start = None;
        } else {
            match start {
                Some(_) => {},
                None => {
                    start = Some(i);
                },
            }
        }
        i += 1;
    }
    match start {
        Some(a) => {
            let ghost before = out@;
            out.push((a, v.len()));
            assert(spans_view(out@) =~= spans_view(before) + seq![(a as int, v.len() as int)]);
        },
        None => {
            assert(spans_view(out@) =~= spans_view(out@) + Seq::<(int, int)>::empty());
        },
    }
    out
}

/// The byte offset of each character position: `byte_offsets(v)[k]` is the
/// UTF-8 length of the first `k` characters.
pub fn byte_offsets(v: &[char]) -> (r: Vec<usize>)
    requires
        byte_len(v@) <= usize::MAX,
    ensures
        r@.len() == v@.len() + 1,
        forall|k: int| 0 <= k <= v@.len() ==> #[trigger] r@[k] == byte_len(v@.take(k)),
{
    let mut r: Vec<usize> = Vec::new();
    r.push(0);
    let mut b: usize = 0;
    let mut i: usize = 0;
    assert(v@.take(0) =~= Seq::<char>::empty());
    while i < v.len()
        invariant
            i <= v.len(),
            byte_len(v@) <= usize::MAX,
            r@.len() == i + 1,
            b == byte_len(v@.take(i as int)),
            forall|k: int| 0 <= k <= i ==> #[trigger] r@[k] == byte_len(v@.take(k)),
        decreases v.len() - i,
    {
        proof {
            lemma_byte_len_take(v@, i as int);
            lemma_byte_len_grows(v@, i + 1, v@.len() as int);
            assert(v@.take(v@.len() as int) =~= v@);
        }
        b = b + char_width(v[i]);
        r.push(b);
        i += 1;
    }
    r
}


/// What `str::to_lowercase` makes of a text: Unicode's lowercase mapping.
pub uninterp spec fn lower_case(s: Seq<char>) -> Seq<char>;

/// `str::to_lowercase`. Claimed: its result depends on the text alone.
#[verifier::external_body]
pub fn lowercase(s: &str) -> (r: String)
    ensures
        r@ == lower_case(s@),
{
    s.to_lowercase()
}

/// Whether `n` occurs in `h` as a run of consecutive characters.
pub open spec fn has_infix(h: Seq<char>, n: Seq<char>) -> bool {
    exists|i: int| 0 <= i && i + n.len() <= h.len() && #[trigger] h.subrange(i, i + n.len()) == n
}

pub fn contains(h: &[char], n: &[char]) -> (r: bool)
    ensures
        r == has_infix(h@, n@),
{
    if n.len() > h.len() {
        return false;
    }
    let mut i: usize = 0;
    let last = h.len() - n.len();
    while i <= last
        invariant
            n.len() <= h.len(),
            last == h.len() - n.len(),
            i <= last + 1,
            forall|k: int| 0 <= k < i ==> #[trigger] h@.subrange(k, k + n@.len()) != n@,
        decreases h.len() - i,
    {
        let mut j: usize = 0;
        let mut same = true;
        while j < n.len()
            invariant
                i + n.len() <= h.len(),
                j <= n.len(),
                same == forall|m: int| 0 <= m < j ==> h@[i + m] == n@[m],
            decreases n.len() - j,
        {
            if h[i + j] != n[j] {
                same = false;
            }
            j += 1;
        }
        if same {
            assert(h@.subrange(i as int, i + n@.len()) =~= n@);
            return true;
        }
        assert(h@.subrange(i as int, i + n@.len()) != n@) by {
            let k = choose|m: int| 0 <= m < n.len() && h@[i + m] != n@[m];
            assert(h@.subrange(i as int, i + n@.len())[k] == h@[i + k]);
        }
        i += 1;
    }
    assert(!has_infix(h@, n@)) by {
        if has_infix(h@, n@) {
            let k = choose|k: int|
                0 <= k && k + n@.len() <= h@.len() && #[trigger] h@.subrange(k, k + n@.len())
                    == n@;
            assert(k < i);
        }
    }
    false
}

} // verus!
