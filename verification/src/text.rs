//! Text shaping: byte-bounded truncation, decimal rendering of integers,
//! and plain concatenation.

use vstd::prelude::*;
use vstd::utf8::*;
use vstd::string::*;

verus! {

broadcast use vstd::string::group_string_axioms;

/// The three dots appended to a truncated text.
pub open spec fn ellipsis() -> Seq<char> {
    seq!['.', '.', '.']
}

/// Whether truncating `text` to `max_width` bytes cuts it: the text is
/// longer than `max_width` bytes and `max_width` leaves room for the dots.
pub open spec fn cuts(text: Seq<char>, max_width: nat) -> bool {
    encode_utf8(text).len() > max_width && max_width > 3
}

/// Whether the cut (if any) falls on a character boundary: where it does
/// not, slicing the text there is impossible.
pub open spec fn truncation_safe(text: Seq<char>, max_width: nat) -> bool {
    cuts(text, max_width) ==> is_char_boundary(encode_utf8(text), max_width - 2)
}

/// The text as shown in a column of `max_width` bytes: unchanged when it
/// fits (or when the column is too narrow to truncate at all), else its
/// first `max_width - 2` bytes followed by "...".
pub open spec fn truncated(text: Seq<char>, max_width: nat) -> Seq<char> {
    if cuts(text, max_width) {
        decode_utf8(encode_utf8(text).subrange(0, max_width - 2)) + ellipsis()
    } else {
        text
    }
}

/// Shortens `text` to fit `max_width` bytes as described by [`truncated`].
pub fn truncate_text(text: &str, max_width: usize) -> (r: String)
    requires
        encode_utf8(text@).len() <= usize::MAX,
        truncation_safe(text@, max_width as nat),
    ensures
        r@ == truncated(text@, max_width as nat),
{
    if text.len() > max_width && max_width > 3 {
        let (head, _tail) = text.split_at(max_width - 2);
        proof {
            encode_utf8_decode_utf8(head@);
            assert(head.spec_bytes() =~= text.spec_bytes().subrange(0, max_width - 2));
            reveal_strlit("...");
            assert("..."@ =~= ellipsis());
        }
        let mut r = String::from_str(head);
        r.append("...");
        assert(r@ =~= head@ + ellipsis());
        r
    } else {
        String::from_str(text)
    }
}

/// A character takes at most four bytes in UTF-8.
pub proof fn lemma_encoded_len_bound(s: Seq<char>)
    ensures
        encode_utf8(s).len() <= 4 * s.len(),
    decreases s.len(),
{
    if s.len() > 0 {
        lemma_encoded_len_bound(s.drop_first());
    }
}

/// UTF-8 encodes a concatenation piecewise.
pub proof fn lemma_encode_concat(a: Seq<char>, b: Seq<char>)
    ensures
        encode_utf8(a + b) == encode_utf8(a) + encode_utf8(b),
    decreases a.len(),
{
    if a.len() == 0 {
        assert(a + b =~= b);
        assert(encode_utf8(a) + encode_utf8(b) =~= encode_utf8(b));
    } else {
        lemma_encode_concat(a.drop_first(), b);
        assert((a + b).drop_first() =~= a.drop_first() + b);
        assert((a + b)[0] == a[0]);
        let first = encode_scalar(a[0] as u32);
        assert(encode_utf8(a + b) =~= first + encode_utf8(a.drop_first() + b));
        assert(encode_utf8(a) =~= first + encode_utf8(a.drop_first()));
        assert(first + (encode_utf8(a.drop_first()) + encode_utf8(b)) =~= (first + encode_utf8(
            a.drop_first(),
        )) + encode_utf8(b));
    }
}

/// A cut text takes exactly one byte more than its column: it is the first
/// `max_width - 2` bytes of the text followed by the three bytes of "...".
pub proof fn lemma_truncated_bytes(text: Seq<char>, max_width: nat)
    requires
        truncation_safe(text, max_width),
        cuts(text, max_width),
    ensures
        encode_utf8(truncated(text, max_width)) == encode_utf8(text).subrange(0, max_width - 2)
            + seq![46u8, 46u8, 46u8],
        encode_utf8(truncated(text, max_width)).len() == max_width + 1,
{
    let bytes = encode_utf8(text);
    let head = bytes.subrange(0, max_width - 2);
    encode_utf8_valid_utf8(text);
    valid_utf8_split(bytes, max_width - 2);
    decode_utf8_encode_utf8(head);
    lemma_encode_concat(decode_utf8(head), ellipsis());
    assert((46u32 & 0x7F) as u8 == 46u8) by (bit_vector);
    let e = ellipsis();
    assert(e.drop_first().drop_first().drop_first() =~= Seq::<char>::empty());
    assert(encode_utf8(e) =~= seq![46u8, 46u8, 46u8]) by {
        reveal_with_fuel(encode_utf8, 4);
        assert(e.drop_first() =~= seq!['.', '.']);
        assert(e.drop_first().drop_first() =~= seq!['.']);
    }
}

/// Truncating an already truncated text changes nothing: a cut text is cut
/// again at the same byte and keeps its dots.
pub proof fn lemma_truncated_idempotent(text: Seq<char>, max_width: nat)
    requires
        truncation_safe(text, max_width),
    ensures
        truncation_safe(truncated(text, max_width), max_width),
        truncated(truncated(text, max_width), max_width) == truncated(text, max_width),
{
    if cuts(text, max_width) {
        let r = truncated(text, max_width);
        let m = max_width as int;
        lemma_truncated_bytes(text, max_width);
        let rb = encode_utf8(r);
        let head = encode_utf8(text).subrange(0, m - 2);
        assert(rb[m - 2] == 46u8);
        encode_utf8_valid_utf8(r);
        is_char_boundary_iff_not_is_continuation_byte(rb, m - 2);
        assert(rb.subrange(0, m - 2) =~= head);
    }
}

/// The character of a decimal digit.
pub open spec fn digit_char(d: nat) -> char {
    if d == 0 { '0' }
    else if d == 1 { '1' }
    else if d == 2 { '2' }
    else if d == 3 { '3' }
    else if d == 4 { '4' }
    else if d == 5 { '5' }
    else if d == 6 { '6' }
    else if d == 7 { '7' }
    else if d == 8 { '8' }
    else { '9' }
}

/// The decimal notation of `n`, without sign or leading zeros.
pub open spec fn decimal(n: nat) -> Seq<char>
    decreases n,
{
    if n < 10 {
        seq![digit_char(n)]
    } else {
        decimal(n / 10).push(digit_char(n % 10))
    }
}

fn digit_str(d: u64) -> (r: &'static str)
    requires
        d < 10,
    ensures
        r@ == seq![digit_char(d as nat)],
{
    proof {
        reveal_strlit("0");
        reveal_strlit("1");
        reveal_strlit("2");
        reveal_strlit("3");
        reveal_strlit("4");
        reveal_strlit("5");
        reveal_strlit("6");
        reveal_strlit("7");
        reveal_strlit("8");
        reveal_strlit("9");
    }
    if d == 0 { "0" }
    else if d == 1 { "1" }
    else if d == 2 { "2" }
    else if d == 3 { "3" }
    else if d == 4 { "4" }
    else if d == 5 { "5" }
    else if d == 6 { "6" }
    else if d == 7 { "7" }
    else if d == 8 { "8" }
    else { "9" }
}

/// Renders `n` in decimal, as `Display` does for unsigned integers.
pub fn decimal_string(n: u64) -> (r: String)
    ensures
        r@ == decimal(n as nat),
    decreases n,
{
    if n < 10 {
        String::from_str(digit_str(n))
    } else {
        let mut r = decimal_string(n / 10);
        r.append(digit_str(n % 10));
        r
    }
}

/// `a` followed by `b`.
pub fn joined(a: &str, b: &str) -> (r: String)
    ensures
        r@ == a@ + b@,
{
    let mut r = String::from_str(a);
    r.append(b);
    r
}

} // verus!
