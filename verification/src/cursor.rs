//! Opaque cursors: the tag of an entity kind followed by the decimal key,
//! as in `Actor:42`.

use crate::error::ClientInputError;
use vstd::prelude::*;

verus! {

/// The entity kinds a cursor can refer to.
#[derive(Clone, Copy, Debug, PartialEq, Eq, Structural)]
pub enum NodeKind {
    Actor,
    Post,
}

impl NodeKind {
    /// The tag that opens every cursor of this kind, colon included.
    pub open spec fn tag(self) -> Seq<char> {
        match self {
            NodeKind::Actor => seq!['A', 'c', 't', 'o', 'r', ':'],
            NodeKind::Post => seq!['P', 'o', 's', 't', ':'],
        }
    }

    /// The tag as a string.
    pub fn prefix(self) -> (s: &'static str)
        ensures
            s@ == self.tag(),
    {
        match self {
            NodeKind::Actor => {
                proof {
                    reveal_strlit("Actor:");
                }
                assert("Actor:"@ =~= NodeKind::Actor.tag());
                "Actor:"
            },
            NodeKind::Post => {
                proof {
                    reveal_strlit("Post:");
                }
                assert("Post:"@ =~= NodeKind::Post.tag());
                "Post:"
            },
        }
    }
}

/// Whether `c` is one of the ten decimal digits of ASCII.
pub open spec fn is_digit(c: char) -> bool {
    '0' <= c && c <= '9'
}

/// The number a decimal digit stands for.
pub open spec fn digit_value(c: char) -> int {
    c as int - '0' as int
}

/// The decimal digit for a number below ten.
pub open spec fn digit_char(d: int) -> char {
    (d + 48) as u8 as char
}

/// The decimal digits of `n`, most significant first, without leading zeros.
pub open spec fn digits(n: nat) -> Seq<char>
    decreases n,
{
    if n < 10 {
        seq![digit_char(n as int)]
    } else {
        digits(n / 10).push(digit_char((n % 10) as int))
    }
}

/// The decimal text of an integer: a minus sign for a negative one, then its digits.
pub open spec fn decimal(k: int) -> Seq<char> {
    if k < 0 {
        seq!['-'] + digits((-k) as nat)
    } else {
        digits(k as nat)
    }
}

/// Whether `s` holds decimal digits only.
pub open spec fn all_digits(s: Seq<char>) -> bool {
    forall|i: int| 0 <= i < s.len() ==> is_digit(#[trigger] s[i])
}

/// The number that a sequence of decimal digits denotes.
pub open spec fn digits_value(s: Seq<char>) -> nat
    decreases s.len(),
{
    if s.len() == 0 {
        0
    } else {
        (digits_value(s.drop_last()) * 10 + digit_value(s.last())) as nat
    }
}

/// The key that a text denotes: an optional sign, then one or more decimal
/// digits, the whole within the range of `i32`. Any other text denotes none.
pub open spec fn parse_decimal(s: Seq<char>) -> Option<i32> {
    let signed = s.len() > 0 && (s[0] == '-' || s[0] == '+');
    let body = if signed { s.skip(1) } else { s };
    let magnitude = digits_value(body) as int;
    let value = if s.len() > 0 && s[0] == '-' { -magnitude } else { magnitude };
    if body.len() > 0 && all_digits(body) && i32::MIN <= value <= i32::MAX {
        Some(value as i32)
    } else {
        None
    }
}

/// The cursor of the entity of kind `kind` with key `key`.
pub open spec fn encode_spec(kind: NodeKind, key: i32) -> Seq<char> {
    kind.tag() + decimal(key as int)
}

/// What a cursor text means for kind `kind`: without the tag it is absent,
/// with the tag and a key it is that key, with the tag and anything else it
/// is malformed.
pub open spec fn decode_spec(kind: NodeKind, cursor: Seq<char>) -> Result<
    Option<i32>,
    ClientInputError,
> {
    if kind.tag().is_prefix_of(cursor) {
        match parse_decimal(cursor.skip(kind.tag().len() as int)) {
            Some(key) => Ok(Some(key)),
            None => Err(ClientInputError::MalformedCursor),
        }
    } else {
        Ok(None)
    }
}

/// The one-character string of a decimal digit.
fn digit_str(d: u32) -> (s: &'static str)
    requires
        d < 10,
    ensures
        s@ == seq![digit_char(d as int)],
{
    proof {
        reveal_strlit("0");
        reveal_strlit("1");
        reveal_strlit("2");
        reveal_strlit("3");
        reveal_strlit("4");
        reveal_strlit("5");
        reveal_strlit("6");
        reveal_strlit("7");
        reveal_strlit("8");
        reveal_strlit("9");
    }
    let s = match d {
        0 => "0",
        1 => "1",
        2 => "2",
        3 => "3",
        4 => "4",
        5 => "5",
        6 => "6",
        7 => "7",
        8 => "8",
        _ => "9",
    };
    assert(s@ =~= seq![digit_char(d as int)]);
    s
}

/// Appends the decimal digits of `n` to `out`.
fn push_digits(out: &mut String, n: u32)
    ensures
        final(out)@ == old(out)@ + digits(n as nat),
    decreases n,
{
    if n >= 10 {
        push_digits(out, n / 10);
    }
    out.append(digit_str(n % 10));
    assert(out@ =~= old(out)@ + digits(n as nat));
}

/// Appends the decimal text of `key` to `out`.
fn push_decimal(out: &mut String, key: i32)
    ensures
        final(out)@ == old(out)@ + decimal(key as int),
{
    if key < 0 {
        proof {
            reveal_strlit("-");
        }
        out.append("-");
        let magnitude: i64 = -(key as i64);
        push_digits(out, magnitude as u32);
        assert(out@ =~= old(out)@ + decimal(key as int));
    } else {
        push_digits(out, key as u32);
    }
}

/// The decimal text of `key`.
pub fn format_key(key: i32) -> (text: String)
    ensures
        text@ == decimal(key as int),
        parse_decimal(text@) == Some(key),
{
    let mut out = String::new();
    push_decimal(&mut out, key);
    proof {
        lemma_parse_decimal(key);
        assert(out@ =~= decimal(key as int));
    }
    out
}

/// The cursor of the entity of kind `kind` with key `key`. Decoding it for
/// the same kind gives `key` back.
pub fn encode(kind: NodeKind, key: i32) -> (cursor: String)
    ensures
        cursor@ == encode_spec(kind, key),
        decode_spec(kind, cursor@) == Ok::<Option<i32>, ClientInputError>(Some(key)),
{
    let mut out = String::from_str(kind.prefix());
    push_decimal(&mut out, key);
    proof {
        lemma_decode_encode(kind, key);
    }
    out
}

/// The characters of `s`, in order.
fn chars_of(s: &str) -> (v: Vec<char>)
    ensures
        v@ == s@,
{
    let mut v: Vec<char> = Vec::new();
    for c in it: s.chars()
        invariant
            it.seq() == s@,
            v@ == s@.take(it.index() as int),
    {
        v.push(c);
    }
    v
}

/// Whether `text` opens with `tag`.
fn has_tag(text: &Vec<char>, tag: &Vec<char>) -> (found: bool)
    ensures
        found == tag@.is_prefix_of(text@),
{
    if tag.len() > text.len() {
        return false;
    }
    let mut i: usize = 0;
    while i < tag.len()
        invariant
            i <= tag.len() <= text.len(),
            forall|j: int| 0 <= j < i ==> tag@[j] == text@[j],
        decreases tag.len() - i,
    {
        if tag[i] != text[i] {
            assert(text@.subrange(0, tag@.len() as int)[i as int] != tag@[i as int]);
            return false;
        }
        i += 1;
    }
    assert(tag@ =~= text@.subrange(0, tag@.len() as int));
    true
}

/// The key that the characters of `text` from position `from` on denote.
fn parse_from(text: &Vec<char>, from: usize) -> (key: Option<i32>)
    requires
        from <= text.len(),
    ensures
        key == parse_decimal(text@.skip(from as int)),
{
    let ghost s = text@.skip(from as int);
    let n = text.len();
    if from == n {
        return None;
    }
    let negative = text[from] == '-';
    let signed = negative || text[from] == '+';
    let start: usize = if signed { from + 1 } else { from };
    let ghost body = if signed { s.skip(1) } else { s };
    assert(body =~= text@.skip(start as int));
    if start == n {
        return None;
    }
    // `total` follows the digits read so far until it passes every magnitude
    // that fits; from then on only the flag is kept.
    let mut total: i64 = 0;
    let mut too_large = false;
    let mut i: usize = start;
    while i < n
        invariant
            start <= i <= n,
            n == text.len(),
            s == text@.skip(from as int),
            signed == (s.len() > 0 && (s[0] == '-' || s[0] == '+')),
            body == if signed { s.skip(1) } else { s },
            body == text@.skip(start as int),
            all_digits(body.take(i - start)),
            !too_large ==> 0 <= total <= 0x8000_0000 && total == digits_value(
                body.take(i - start),
            ),
            too_large ==> digits_value(body.take(i - start)) > 0x8000_0000,
        decreases n - i,
    {
        let c = text[i];
        let ghost seen = body.take(i - start);
        let ghost next = body.take(i + 1 - start);
        assert(next.drop_last() =~= seen);
        assert(next.last() == c);
        if !(c >= '0' && c <= '9') {
            assert(body[i - start] == c);
            assert(!all_digits(body));
            return None;
        }
        assert(all_digits(next)) by {
            assert forall|j: int| 0 <= j < next.len() implies is_digit(#[trigger] next[j]) by {
                if j < seen.len() {
                    assert(next[j] == seen[j]);
                }
            }
        }
        if !too_large {
            total = total * 10 + (c as u32 - 48) as i64;
            if total > 0x8000_0000 {
                too_large = true;
            }
        }
        i += 1;
    }
    assert(body.take(n - start) =~= body);
    if too_large {
        return None;
    }
    let value: i64 = if negative { -total } else { total };
    if value > 0x7fff_ffff {
        return None;
    }
    Some(value as i32)
}

/// The key that `text` denotes: an optional sign, then one or more decimal
/// digits, within the range of `i32`; `None` for any other text.
pub fn parse_key(text: &str) -> (key: Option<i32>)
    ensures
        key == parse_decimal(text@),
{
    let chars = chars_of(text);
    assert(chars@.skip(0) =~= chars@);
    parse_from(&chars, 0)
}

/// Decodes a cursor for kind `kind`: `Ok(None)` where it lacks the tag of the
/// kind, the key where the tag is followed by one, and an error where the
/// tag is followed by anything else.
pub fn decode(kind: NodeKind, cursor: &str) -> (r: Result<Option<i32>, ClientInputError>)
    ensures
        r == decode_spec(kind, cursor@),
{
    let text = chars_of(cursor);
    let tag = chars_of(kind.prefix());
    if !has_tag(&text, &tag) {
        return Ok(None);
    }
    match parse_from(&text, tag.len()) {
        Some(key) => Ok(Some(key)),
        None => Err(ClientInputError::MalformedCursor),
    }
}

/// The digit for a number below ten is a digit that stands for that number.
proof fn lemma_digit_char(d: int)
    requires
        0 <= d <= 9,
    ensures
        is_digit(digit_char(d)),
        digit_value(digit_char(d)) == d,
        digit_char(d) != '-',
        digit_char(d) != '+',
{
}

/// The digits of a number are digits, one at least, and denote the number.
proof fn lemma_digits(n: nat)
    ensures
        digits(n).len() > 0,
        all_digits(digits(n)),
        digits_value(digits(n)) == n,
    decreases n,
{
    if n < 10 {
        lemma_digit_char(n as int);
        let s = digits(n);
        assert(s.drop_last() =~= Seq::<char>::empty());
        assert(digits_value(s.drop_last()) == 0);
    } else {
        lemma_digits(n / 10);
        lemma_digit_char((n % 10) as int);
        let s = digits(n);
        assert(s.drop_last() =~= digits(n / 10));
    }
}

/// The decimal text of every `i32` denotes that `i32`.
pub proof fn lemma_parse_decimal(key: i32)
    ensures
        parse_decimal(decimal(key as int)) == Some(key),
{
    if key < 0 {
        let m = (-(key as int)) as nat;
        lemma_digits(m);
        let s = decimal(key as int);
        assert(s.skip(1) =~= digits(m));
    } else {
        let m = key as nat;
        lemma_digits(m);
        lemma_digit_char(0);
        let s = digits(m);
        assert(is_digit(s[0]));
    }
}

/// Decoding the cursor that was encoded for a key gives that key back.
pub proof fn lemma_decode_encode(kind: NodeKind, key: i32)
    ensures
        decode_spec(kind, encode_spec(kind, key)) == Ok::<Option<i32>, ClientInputError>(
            Some(key),
        ),
{
    let cursor = encode_spec(kind, key);
    lemma_parse_decimal(key);
    assert(cursor.subrange(0, kind.tag().len() as int) =~= kind.tag());
    assert(cursor.skip(kind.tag().len() as int) =~= decimal(key as int));
}

/// A cursor of one kind is absent for every other kind.
pub proof fn lemma_decode_other_kind(kind: NodeKind, other: NodeKind, key: i32)
    requires
        kind != other,
    ensures
        decode_spec(other, encode_spec(kind, key)) == Ok::<Option<i32>, ClientInputError>(None),
{
    let cursor = encode_spec(kind, key);
    assert(cursor[0] == kind.tag()[0]);
    if other.tag().is_prefix_of(cursor) {
        assert(cursor.subrange(0, other.tag().len() as int)[0] == other.tag()[0]);
    }
}

} // verus!
