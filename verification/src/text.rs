//! Text helpers: Unicode whitespace trimming, decimal rendering of integers and
//! lossy decoding of UTF-8 bytes.

use vstd::prelude::*;
use vstd::utf8::*;

verus! {

/// The Unicode `White_Space` property, the set of code points that
/// `char::is_whitespace` accepts.
pub open spec fn is_white_space(c: char) -> bool {
    let u = c as u32;
    ||| 0x09 <= u <= 0x0D
    ||| u == 0x20
    ||| u == 0x85
    ||| u == 0xA0
    ||| u == 0x1680
    ||| 0x2000 <= u <= 0x200A
    ||| u == 0x2028
    ||| u == 0x2029
    ||| u == 0x202F
    ||| u == 0x205F
    ||| u == 0x3000
}

/// `chars` without its leading whitespace.
pub open spec fn trim_start_spec(chars: Seq<char>) -> Seq<char>
    decreases chars.len(),
{
    if chars.len() > 0 && is_white_space(chars[0]) {
        trim_start_spec(chars.drop_first())
    } else {
        chars
    }
}

/// `chars` without its trailing whitespace.
pub open spec fn trim_end_spec(chars: Seq<char>) -> Seq<char>
    decreases chars.len(),
{
    if chars.len() > 0 && is_white_space(chars.last()) {
        trim_end_spec(chars.drop_last())
    } else {
        chars
    }
}

/// `chars` without leading and trailing whitespace, as `str::trim` gives it.
pub open spec fn trim_spec(chars: Seq<char>) -> Seq<char> {
    trim_end_spec(trim_start_spec(chars))
}

/// Calls `char::is_whitespace`, which the standard library documents as the
/// Unicode `White_Space` property; the contract lists that property's code points.
#[verifier::external_body]
fn char_is_whitespace(c: char) -> (r: bool)
    ensures
        r == is_white_space(c),
{
    c.is_whitespace()
}

proof fn lemma_trim_start_skip(chars: Seq<char>, k: int)
    requires
        0 <= k <= chars.len(),
        forall|i: int| 0 <= i < k ==> is_white_space(#[trigger] chars[i]),
        k == chars.len() || !is_white_space(chars[k]),
    ensures
        trim_start_spec(chars) == chars.skip(k),
    decreases k,
{
    if k == 0 {
        assert(chars.skip(0) =~= chars);
    } else {
        let rest = chars.drop_first();
        assert forall|i: int| 0 <= i < k - 1 implies is_white_space(#[trigger] rest[i]) by {
            assert(rest[i] == chars[i + 1]);
        }
        if k - 1 < rest.len() {
            assert(rest[k - 1] == chars[k]);
        }
        lemma_trim_start_skip(rest, k - 1);
        assert(rest.skip(k - 1) =~= chars.skip(k));
    }
}

proof fn lemma_trim_end_take(chars: Seq<char>, m: int)
    requires
        0 <= m <= chars.len(),
        forall|i: int| m <= i < chars.len() ==> is_white_space(#[trigger] chars[i]),
        m == 0 || !is_white_space(chars[m - 1]),
    ensures
        trim_end_spec(chars) == chars.take(m),
    decreases chars.len() - m,
{
    if m == chars.len() {
        assert(chars.take(m) =~= chars);
    } else {
        let rest = chars.drop_last();
        assert(is_white_space(chars[chars.len() - 1]));
        assert forall|i: int| m <= i < rest.len() implies is_white_space(#[trigger] rest[i]) by {
            assert(rest[i] == chars[i]);
        }
        if m > 0 {
            assert(rest[m - 1] == chars[m - 1]);
        }
        lemma_trim_end_take(rest, m);
        assert(rest.take(m) =~= chars.take(m));
    }
}

/// Trimming removes exactly the whitespace around a text that neither starts nor
/// ends with whitespace.
pub proof fn lemma_trim_surrounded(pre: Seq<char>, body: Seq<char>, post: Seq<char>)
    requires
        forall|i: int| 0 <= i < pre.len() ==> is_white_space(#[trigger] pre[i]),
        forall|i: int| 0 <= i < post.len() ==> is_white_space(#[trigger] post[i]),
        body.len() > 0,
        !is_white_space(body[0]),
        !is_white_space(body.last()),
    ensures
        trim_spec(pre + body + post) == body,
{
    let s = pre + body + post;
    let k = pre.len() as int;
    assert forall|i: int| 0 <= i < k implies is_white_space(#[trigger] s[i]) by {
        assert(s[i] == pre[i]);
    }
    assert(s[k] == body[0]);
    lemma_trim_start_skip(s, k);
    let t = s.skip(k);
    assert(t =~= body + post);
    let m = body.len() as int;
    assert forall|i: int| m <= i < t.len() implies is_white_space(#[trigger] t[i]) by {
        assert(t[i] == post[i - m]);
    }
    assert(t[m - 1] == body.last());
    lemma_trim_end_take(t, m);
    assert(t.take(m) =~= body);
}

/// The characters of `s` without leading and trailing Unicode whitespace.
pub fn trim(s: &str) -> (r: String)
    ensures
        r@ == trim_spec(s@),
{
    let n = s.unicode_len();
    let mut start: usize = 0;
    while start < n && char_is_whitespace(s.get_char(start))
        invariant
            n == s@.len(),
            start <= n,
            forall|i: int| 0 <= i < start ==> is_white_space(#[trigger] s@[i]),
        decreases n - start,
    {
        start = start + 1;
    }
    let mut end: usize = n;
    while end > start && char_is_whitespace(s.get_char(end - 1))
        invariant
            n == s@.len(),
            start <= end <= n,
            forall|i: int| end <= i < n ==> is_white_space(#[trigger] s@[i]),
        decreases end - start,
    {
        end = end - 1;
    }
    proof {
        lemma_trim_start_skip(s@, start as int);
        let tail = s@.skip(start as int);
        assert forall|i: int| end - start <= i < tail.len() implies is_white_space(
            #[trigger] tail[i],
        ) by {
            assert(tail[i] == s@[i + start]);
        }
        if end > start {
            assert(tail[end - start - 1] == s@[end - 1]);
        }
        lemma_trim_end_take(tail, end - start);
        assert(tail.take(end - start) =~= s@.subrange(start as int, end as int));
    }
    String::from_str(s.substring_char(start, end))
}


/// The ASCII digit for `d`, for `0 <= d < 10`.
pub open spec fn digit_char(d: int) -> char {
    (d + 48) as char
}

/// The decimal digits of `n`, most significant first, without leading zeros.
pub open spec fn decimal_digits(n: nat) -> Seq<char>
    decreases n,
{
    if n < 10 {
        seq![digit_char(n as int)]
    } else {
        decimal_digits(n / 10).push(digit_char((n % 10) as int))
    }
}

/// The decimal rendering of `i`, with a leading `-` when it is negative, as
/// `Display` writes an integer.
pub open spec fn decimal_spec(i: int) -> Seq<char> {
    if i < 0 {
        seq!['-'] + decimal_digits((-i) as nat)
    } else {
        decimal_digits(i as nat)
    }
}

/// Calls `ToString::to_string` on an `i64`, which renders it through `Display`:
/// its decimal digits, with `-` before a negative value.
#[verifier::external_body]
pub(crate) fn i64_to_string(i: i64) -> (r: String)
    ensures
        r@ == decimal_spec(i as int),
{
    i.to_string()
}

/// Calls `ToString::to_string` on a `usize`, which renders it through `Display`:
/// its decimal digits.
#[verifier::external_body]
pub(crate) fn usize_to_string(n: usize) -> (r: String)
    ensures
        r@ == decimal_spec(n as int),
{
    n.to_string()
}

/// The characters that `String::from_utf8_lossy` decodes from `bytes`: each
/// invalid sequence of bytes becomes U+FFFD.
pub uninterp spec fn utf8_lossy(bytes: Seq<u8>) -> Seq<char>;

/// Calls `String::from_utf8_lossy`. Its result is named by `utf8_lossy`; the
/// standard library documents that valid UTF-8 decodes unchanged, which the
/// second clause states. How an invalid sequence is replaced is left unsaid.
#[verifier::external_body]
pub(crate) fn string_from_utf8_lossy(bytes: &[u8]) -> (r: String)
    ensures
        r@ == utf8_lossy(bytes@),
        valid_utf8(bytes@) ==> r@ == decode_utf8(bytes@),
{
    String::from_utf8_lossy(bytes).into_owned()
}

} // verus!
