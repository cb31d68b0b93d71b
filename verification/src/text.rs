//! Text helpers over `str` and `String`, specified on sequences of characters.

use vstd::prelude::*;
use vstd::string::*;
use vstd::utf8::*;

verus! {

/// Length in bytes of the UTF-8 encoding of a text.
pub open spec fn byte_len(text: Seq<char>) -> nat {
    encode_utf8(text).len()
}

/// Two texts are equal exactly when their UTF-8 encodings are.
pub proof fn lemma_encode_injective(a: Seq<char>, b: Seq<char>)
    requires
        encode_utf8(a) == encode_utf8(b),
    ensures
        a == b,
{
    encode_utf8_decode_utf8(a);
    encode_utf8_decode_utf8(b);
}

/// Length in bytes of `text`.
pub fn text_len(text: &str) -> (n: usize)
    ensures
        n == byte_len(text@),
{
    text.as_bytes().len()
}

/// Whether the two texts are the same.
pub fn same_text(a: &str, b: &str) -> (same: bool)
    ensures
        same == (a@ == b@),
{
    let x = a.as_bytes();
    let y = b.as_bytes();
    if x.len() != y.len() {
        return false;
    }
    let mut i: usize = 0;
    while i < x.len()
        invariant
            x@ == encode_utf8(a@),
            y@ == encode_utf8(b@),
            x@.len() == y@.len(),
            i <= x@.len(),
            forall|j: int| 0 <= j < i ==> x@[j] == y@[j],
        decreases x@.len() - i,
    {
        if x[i] != y[i] {
            return false;
        }
        i += 1;
    }
    proof {
        assert(x@ =~= y@);
        lemma_encode_injective(a@, b@);
    }
    true
}

/// The characters of `text`, in order.
pub fn to_chars(text: &str) -> (chars: Vec<char>)
    ensures
        chars@ == text@,
{
    let mut chars: Vec<char> = Vec::new();
    for c in iter: text.chars()
        invariant
            chars@ == iter.seq().take(iter.index() as int),
            iter.seq() == text@,
    {
        chars.push(c);
    }
    assert(text@.take(text@.len() as int) =~= text@);
    chars
}

/// Whether `text` begins with `prefix`.
pub fn has_prefix(text: &str, prefix: &str) -> (yes: bool)
    ensures
        yes == prefix@.is_prefix_of(text@),
{
    let t = to_chars(text);
    let p = to_chars(prefix);
    if p.len() > t.len() {
        return false;
    }
    let mut i: usize = 0;
    while i < p.len()
        invariant
            t@ == text@,
            p@ == prefix@,
            p@.len() <= t@.len(),
            i <= p@.len(),
            forall|j: int| 0 <= j < i ==> p@[j] == t@[j],
        decreases p@.len() - i,
    {
        if p[i] != t[i] {
            assert(p@[i as int] != t@.subrange(0, p@.len() as int)[i as int]);
            return false;
        }
        i += 1;
    }
    assert(p@ =~= t@.subrange(0, p@.len() as int));
    true
}

/// `text` without its leading `prefix`, where it has it.
pub open spec fn without_prefix(text: Seq<char>, prefix: Seq<char>) -> Option<Seq<char>> {
    if prefix.is_prefix_of(text) {
        Some(text.skip(prefix.len() as int))
    } else {
        None
    }
}

/// The view of an optional text.
pub open spec fn opt_view(text: Option<String>) -> Option<Seq<char>> {
    match text {
        Some(t) => Some(t@),
        None => None,
    }
}

/// The views of a list of texts.
pub open spec fn views(texts: Seq<String>) -> Seq<Seq<char>> {
    texts.map_values(|t: String| t@)
}

/// `text` without its leading `prefix`, where it has it.
pub fn strip_prefix(text: &str, prefix: &str) -> (rest: Option<String>)
    ensures
        opt_view(rest) == without_prefix(text@, prefix@),
{
    if has_prefix(text, prefix) {
        let n = prefix.unicode_len();
        let m = text.unicode_len();
        Some(text.substring_char(n, m).to_owned())
    } else {
        None
    }
}

/// The code points with the Unicode property White_Space.
pub open spec fn is_white_space(c: char) -> bool {
    let u = c as u32;
    ||| 0x9 <= u <= 0xd
    ||| u == 0x20
    ||| u == 0x85
    ||| u == 0xa0
    ||| u == 0x1680
    ||| 0x2000 <= u <= 0x200a
    ||| u == 0x2028
    ||| u == 0x2029
    ||| u == 0x202f
    ||| u == 0x205f
    ||| u == 0x3000
}

/// Whether the character is white space.
pub fn white_space(c: char) -> (yes: bool)
    ensures
        yes == is_white_space(c),
{
    let u = c as u32;
    (0x9 <= u && u <= 0xd) || u == 0x20 || u == 0x85 || u == 0xa0 || u == 0x1680 || (0x2000 <= u
        && u <= 0x200a) || u == 0x2028 || u == 0x2029 || u == 0x202f || u == 0x205f || u == 0x3000
}

/// `text` from its first character that is not white space on.
pub open spec fn trimmed_start(text: Seq<char>) -> Seq<char>
    decreases text.len(),
{
    if text.len() > 0 && is_white_space(text[0]) {
        trimmed_start(text.drop_first())
    } else {
        text
    }
}

/// `text` up to its last character that is not white space.
pub open spec fn trimmed_end(text: Seq<char>) -> Seq<char>
    decreases text.len(),
{
    if text.len() > 0 && is_white_space(text.last()) {
        trimmed_end(text.drop_last())
    } else {
        text
    }
}

/// `text` without leading and trailing white space.
pub open spec fn trimmed(text: Seq<char>) -> Seq<char> {
    trimmed_end(trimmed_start(text))
}

/// `text` without leading white space.
pub fn trim_start(text: &str) -> (rest: String)
    ensures
        rest@ == trimmed_start(text@),
{
    let chars = to_chars(text);
    let n = chars.len();
    let mut i: usize = 0;
    assert(chars@.subrange(0, n as int) =~= chars@);
    while i < n && white_space(chars[i])
        invariant
            i <= n,
            n == chars@.len(),
            chars@ == text@,
            trimmed_start(text@) == trimmed_start(chars@.subrange(i as int, n as int)),
        decreases n - i,
    {
        proof {
            let rest = chars@.subrange(i as int, n as int);
            assert(rest.drop_first() =~= chars@.subrange(i + 1, n as int));
        }
        i += 1;
    }
    proof {
        let rest = chars@.subrange(i as int, n as int);
        assert(i < n ==> rest[0] == chars@[i as int]);
    }
    text.substring_char(i, n).to_owned()
}

/// `text` without trailing white space.
pub fn trim_end(text: &str) -> (rest: String)
    ensures
        rest@ == trimmed_end(text@),
{
    let chars = to_chars(text);
    let mut n = chars.len();
    assert(chars@.subrange(0, n as int) =~= chars@);
    while n > 0 && white_space(chars[n - 1])
        invariant
            n <= chars@.len(),
            chars@ == text@,
            trimmed_end(text@) == trimmed_end(chars@.subrange(0, n as int)),
        decreases n,
    {
        proof {
            let rest = chars@.subrange(0, n as int);
            assert(rest.last() == chars@[n - 1]);
            assert(rest.drop_last() =~= chars@.subrange(0, n - 1));
        }
        n -= 1;
    }
    proof {
        let rest = chars@.subrange(0, n as int);
        assert(n > 0 ==> rest.last() == chars@[n - 1]);
    }
    text.substring_char(0, n).to_owned()
}

/// `text` without leading and trailing white space.
pub fn trim(text: &str) -> (rest: String)
    ensures
        rest@ == trimmed(text@),
{
    let start = trim_start(text);
    trim_end(start.as_str())
}

/// The parts in order, with `sep` between neighbours.
pub open spec fn joined(parts: Seq<Seq<char>>, sep: Seq<char>) -> Seq<char>
    decreases parts.len(),
{
    if parts.len() == 0 {
        seq![]
    } else if parts.len() == 1 {
        parts[0]
    } else {
        joined(parts.drop_last(), sep) + sep + parts.last()
    }
}

/// The parts in order, with `sep` between neighbours.
pub fn join(parts: &Vec<String>, sep: &str) -> (text: String)
    ensures
        text@ == joined(views(parts@), sep@),
{
    let mut text = String::new();
    let ghost all = views(parts@);
    let mut i: usize = 0;
    while i < parts.len()
        invariant
            i <= parts@.len(),
            all == views(parts@),
            text@ == joined(all.take(i as int), sep@),
        decreases parts@.len() - i,
    {
        proof {
            assert(all.take(i + 1).drop_last() =~= all.take(i as int));
            assert(all.take(i + 1).last() == parts@[i as int]@);
        }
        if i > 0 {
            text.append(sep);
        }
        text.append(parts[i].as_str());
        i += 1;
    }
    assert(all.take(all.len() as int) =~= all);
    text
}

/// The decimal digit `d`.
pub open spec fn digit_char(d: nat) -> char {
    (48 + d) as char
}

/// The decimal representation of `n`, without leading zeros.
pub open spec fn decimal(n: nat) -> Seq<char>
    decreases n,
{
    if n < 10 {
        seq![digit_char(n)]
    } else {
        decimal(n / 10).push(digit_char(n % 10))
    }
}

fn digit_text(d: u128) -> (text: &'static str)
    requires
        d < 10,
    ensures
        text@ == seq![digit_char(d as nat)],
{
    proof {
        reveal_strlit("0");
        reveal_strlit("1");
        reveal_strlit("2");
        reveal_strlit("3");
        reveal_strlit("4");
        reveal_strlit("5");
        reveal_strlit("6");
        reveal_strlit("7");
        reveal_strlit("8");
        reveal_strlit("9");
    }
    if d == 0 {
        "0"
    } else if d == 1 {
        "1"
    } else if d == 2 {
        "2"
    } else if d == 3 {
        "3"
    } else if d == 4 {
        "4"
    } else if d == 5 {
        "5"
    } else if d == 6 {
        "6"
    } else if d == 7 {
        "7"
    } else if d == 8 {
        "8"
    } else {
        "9"
    }
}

/// The decimal representation of `n`.
pub fn decimal_text(n: u128) -> (text: String)
    ensures
        text@ == decimal(n as nat),
    decreases n,
{
    if n < 10 {
        digit_text(n).to_owned()
    } else {
        let mut text = decimal_text(n / 10);
        text.append(digit_text(n % 10));
        assert(text@ =~= decimal((n / 10) as nat).push(digit_char((n % 10) as nat)));
        text
    }
}

/// The value of a run of decimal digits; `None` where another character occurs.
pub open spec fn digits_value(text: Seq<char>) -> Option<nat>
    decreases text.len(),
{
    if text.len() == 0 {
        Some(0)
    } else {
        match digits_value(text.drop_last()) {
            Some(v) => if '0' <= text.last() <= '9' {
                Some(v * 10 + (text.last() as nat - 48) as nat)
            } else {
                None
            },
            None => None,
        }
    }
}

/// The unsigned number that `text` writes: an optional `+`, then one or more
/// decimal digits, with a value of at most `max`.
pub open spec fn unsigned_value(text: Seq<char>, max: nat) -> Option<nat> {
    let digits = if text.len() > 0 && text[0] == '+' {
        text.drop_first()
    } else {
        text
    };
    match digits_value(digits) {
        Some(v) => if digits.len() > 0 && v <= max {
            Some(v)
        } else {
            None
        },
        None => None,
    }
}

/// More digits never make a number smaller.
proof fn lemma_digits_value_grows(text: Seq<char>, n: int)
    requires
        0 <= n <= text.len(),
    ensures
        digits_value(text) is Some ==> digits_value(text.take(n)) is Some,
        digits_value(text) is Some ==> digits_value(text.take(n))->0 <= digits_value(text)->0,
    decreases text.len() - n,
{
    if n == text.len() {
        assert(text.take(n) =~= text);
    } else {
        lemma_digits_value_grows(text, n + 1);
        assert(text.take(n + 1).drop_last() =~= text.take(n));
    }
}

/// The unsigned number of at most `max` that `text` writes.
pub fn parse_unsigned(text: &str, max: u64) -> (value: Option<u64>)
    ensures
        match value {
            Some(v) => unsigned_value(text@, max as nat) == Some(v as nat),
            None => unsigned_value(text@, max as nat) is None,
        },
{
    let chars = to_chars(text);
    let start: usize = if chars.len() > 0 && chars[0] == '+' {
        1
    } else {
        0
    };
    let ghost digits = if chars@.len() > 0 && chars@[0] == '+' {
        chars@.drop_first()
    } else {
        chars@
    };
    if start == chars.len() {
        return None;
    }
    let mut value: u64 = 0;
    let mut i = start;
    assert(digits.take(0) =~= seq![]);
    while i < chars.len()
        invariant
            chars@ == text@,
            start <= i <= chars@.len(),
            start == (if chars@.len() > 0 && chars@[0] == '+' {
                1int
            } else {
                0int
            }),
            digits == (if chars@.len() > 0 && chars@[0] == '+' {
                chars@.drop_first()
            } else {
                chars@
            }),
            digits.len() > 0,
            value <= max,
            digits_value(digits.take(i - start)) == Some(value as nat),
        decreases chars@.len() - i,
    {
        let c = chars[i];
        proof {
            assert(digits.take(i - start + 1).drop_last() =~= digits.take(i - start));
            assert(digits.take(i - start + 1).last() == c);
            lemma_digits_value_grows(digits, i - start + 1);
        }
        if !('0' <= c && c <= '9') {
            return None;
        }
        let d: u64 = c as u64 - 48;
        if max < d || value > (max - d) / 10 {
            return None;
        }
        value = value * 10 + d;
        i += 1;
    }
    assert(digits.take(digits.len() as int) =~= digits);
    Some(value)
}

/// A character of `text` begins, or `text` ends, after `n` bytes of its encoding.
pub open spec fn on_boundary(text: Seq<char>, n: nat) -> bool {
    is_char_boundary(encode_utf8(text), n as int)
}

/// The characters that the first `n` bytes of the encoding of `text` encode.
pub open spec fn byte_prefix(text: Seq<char>, n: nat) -> Seq<char> {
    decode_utf8(encode_utf8(text).subrange(0, n as int))
}

/// The first `n` bytes of `text`.
pub fn prefix_bytes(text: &str, n: usize) -> (prefix: String)
    requires
        on_boundary(text@, n as nat),
    ensures
        prefix@ == byte_prefix(text@, n as nat),
{
    let (head, _) = text.split_at(n);
    proof {
        encode_utf8_decode_utf8(head@);
    }
    head.to_owned()
}

/// In a text of ASCII characters every character is one byte.
pub proof fn lemma_ascii_prefix(text: Seq<char>, n: nat)
    requires
        is_ascii_chars(text),
        n <= text.len(),
    ensures
        byte_len(text) == text.len(),
        on_boundary(text, n),
        byte_prefix(text, n) == text.take(n as int),
{
    let bytes = encode_utf8(text);
    let head = text.take(n as int);
    is_ascii_chars_encode_utf8(text);
    encode_utf8_valid_utf8(text);
    is_char_boundary_start_end_of_seq(bytes);
    if n < text.len() {
        assert(text[n as int] as u8 == bytes[n as int]);
        is_char_boundary_iff_not_is_continuation_byte(bytes, n as int);
    }
    assert(is_ascii_chars(head));
    is_ascii_chars_encode_utf8(head);
    assert(encode_utf8(head) =~= bytes.subrange(0, n as int)) by {
        assert forall|i: int| 0 <= i < n implies encode_utf8(head)[i] == bytes[i] by {
            assert(head[i] == text[i]);
            assert(head[i] as u8 == encode_utf8(head)[i]);
            assert(text[i] as u8 == bytes[i]);
        }
    }
    encode_utf8_decode_utf8(head);
}

/// The encoding of two texts one after the other is that of the first and then that
/// of the second, and where the first one ends a character ends.
pub proof fn lemma_encode_concat(a: Seq<char>, b: Seq<char>)
    ensures
        encode_utf8(a + b) == encode_utf8(a) + encode_utf8(b),
        byte_len(a + b) == byte_len(a) + byte_len(b),
        on_boundary(a + b, byte_len(a)),
    decreases a.len(),
{
    let whole = a + b;
    encode_utf8_valid_utf8(whole);
    if a.len() == 0 {
        assert(whole =~= b);
        assert(encode_utf8(a) + encode_utf8(b) =~= encode_utf8(b));
    } else {
        lemma_encode_concat(a.drop_first(), b);
        assert(whole.drop_first() =~= a.drop_first() + b);
        assert(whole[0] == a[0]);
        assert(encode_utf8(whole) =~= encode_utf8(a) + encode_utf8(b));
        encode_utf8_first_scalar(whole);
        let bytes = encode_utf8(whole);
        assert(pop_first_scalar(bytes) =~= encode_utf8(whole.drop_first()));
        assert(length_of_first_scalar(bytes) == encode_scalar(a[0] as u32).len());
    }
}

/// A text has no more characters than bytes.
pub proof fn lemma_chars_are_bytes(text: Seq<char>)
    ensures
        text.len() <= byte_len(text),
    decreases text.len(),
{
    if text.len() > 0 {
        lemma_chars_are_bytes(text.drop_first());
    }
}

/// The first `n` bytes of a text are a text of `n` bytes.
pub proof fn lemma_byte_prefix(text: Seq<char>, n: nat)
    requires
        on_boundary(text, n),
    ensures
        encode_utf8(byte_prefix(text, n)) == encode_utf8(text).subrange(0, n as int),
        byte_len(byte_prefix(text, n)) == n,
        byte_prefix(text, n).len() <= n,
{
    let bytes = encode_utf8(text);
    encode_utf8_valid_utf8(text);
    assert(n <= bytes.len());
    valid_utf8_split(bytes, n as int);
    decode_utf8_encode_utf8(bytes.subrange(0, n as int));
    lemma_chars_are_bytes(byte_prefix(text, n));
}

/// Reading the decimal representation of a number gives the number.
pub proof fn law_decimal_reads_back(n: nat, max: nat)
    requires
        n <= max,
    ensures
        unsigned_value(decimal(n), max) == Some(n),
{
    lemma_decimal_digits(n);
}

proof fn lemma_decimal_digits(n: nat)
    ensures
        decimal(n).len() > 0,
        decimal(n)[0] != '+',
        digits_value(decimal(n)) == Some(n),
    decreases n,
{
    if n < 10 {
        let text = decimal(n);
        assert(text.drop_last() =~= seq![]);
        assert(digits_value(text.drop_last()) == Some(0nat));
    } else {
        lemma_decimal_digits(n / 10);
        assert(decimal(n).drop_last() =~= decimal(n / 10));
    }
}

/// Joined parts are each part, with the separator between neighbours.
pub proof fn law_joined_append(a: Seq<Seq<char>>, b: Seq<Seq<char>>, sep: Seq<char>)
    ensures
        joined(seq![], sep).len() == 0,
        a.len() > 0 && b.len() > 0 ==> joined(a + b, sep) == joined(a, sep) + sep + joined(b, sep),
        a.len() == 0 ==> joined(a + b, sep) == joined(b, sep),
        b.len() == 0 ==> joined(a + b, sep) == joined(a, sep),
    decreases b.len(),
{
    if a.len() == 0 {
        assert(a + b =~= b);
    } else if b.len() == 0 {
        assert(a + b =~= a);
    } else {
        let before = b.drop_last();
        law_joined_append(a, before, sep);
        assert((a + b).drop_last() =~= a + before);
        assert((a + b).last() == b.last());
        assert(joined(a + b, sep) =~= joined(a, sep) + sep + joined(b, sep));
    }
}

/// One part is joined to itself.
pub proof fn law_joined_one(part: Seq<char>, sep: Seq<char>)
    ensures
        joined(seq![part], sep) == part,
{
    assert(joined(seq![part], sep) =~= part);
}

/// Where a text is made of two, a character ends after the bytes of the first, and
/// the text up to there is the first.
pub proof fn law_prefix_of_a_text(head: Seq<char>, tail: Seq<char>)
    ensures
        byte_len(head) == encode_utf8(head).len(),
        on_boundary(head + tail, byte_len(head)),
        byte_prefix(head + tail, byte_len(head)) == head,
{
    lemma_encode_concat(head, tail);
    assert(encode_utf8(head + tail).subrange(0, byte_len(head) as int) =~= encode_utf8(head));
    encode_utf8_decode_utf8(head);
}

/// Where a character ends after `n` bytes, the text is made of a text of `n` bytes and
/// of the rest.
pub proof fn law_boundaries_divide(text: Seq<char>, n: nat)
    requires
        on_boundary(text, n),
    ensures
        byte_len(byte_prefix(text, n)) == n,
        byte_prefix(text, n).is_prefix_of(text),
{
    let bytes = encode_utf8(text);
    lemma_byte_prefix(text, n);
    encode_utf8_valid_utf8(text);
    encode_utf8_decode_utf8(text);
    decode_utf8_split(bytes, n as int);
}

/// Taking a prefix off gives the rest, and works on exactly the texts that are made of
/// the prefix and a rest.
pub proof fn law_prefix_and_rest(text: Seq<char>, prefix: Seq<char>, rest: Seq<char>)
    ensures
        without_prefix(prefix + rest, prefix) == Some(rest),
        without_prefix(text, prefix) matches Some(r) ==> text == prefix + r,
        without_prefix(text, prefix) is None ==> !prefix.is_prefix_of(text),
{
    assert(prefix.is_prefix_of(prefix + rest));
    assert((prefix + rest).skip(prefix.len() as int) =~= rest);
    if prefix.is_prefix_of(text) {
        assert(text =~= prefix + text.skip(prefix.len() as int));
    }
}

/// The text is white space.
pub open spec fn is_blank(text: Seq<char>) -> bool {
    forall|i: int| 0 <= i < text.len() ==> is_white_space(#[trigger] text[i])
}

/// Trimming takes off white space before and after a text, all of it and nothing
/// else.
pub proof fn law_trimming(before: Seq<char>, text: Seq<char>, after: Seq<char>)
    requires
        is_blank(before),
        is_blank(after),
        text.len() > 0,
        !is_white_space(text[0]),
        !is_white_space(text.last()),
    ensures
        trimmed_start(before + text) == text,
        trimmed_end(text + after) == text,
        trimmed(before + text + after) == text,
        trimmed(before).len() == 0,
{
    lemma_trim_start(before, text);
    lemma_trim_end(text, after);
    lemma_trim_start(before, text + after);
    assert((text + after)[0] == text[0]);
    assert(before + text + after =~= before + (text + after));
    lemma_trim_blank(before);
    assert(trimmed_end(seq![]).len() == 0);
}

proof fn lemma_trim_blank(text: Seq<char>)
    requires
        is_blank(text),
    ensures
        trimmed_start(text) == Seq::<char>::empty(),
    decreases text.len(),
{
    if text.len() > 0 {
        assert(is_white_space(text[0]));
        let rest = text.drop_first();
        assert forall|i: int| 0 <= i < rest.len() implies is_white_space(#[trigger] rest[i]) by {
            assert(rest[i] == text[i + 1]);
        }
        lemma_trim_blank(rest);
    } else {
        assert(text =~= seq![]);
    }
}

proof fn lemma_trim_start(before: Seq<char>, text: Seq<char>)
    requires
        is_blank(before),
        text.len() > 0,
        !is_white_space(text[0]),
    ensures
        trimmed_start(before + text) == text,
    decreases before.len(),
{
    if before.len() == 0 {
        assert(before + text =~= text);
    } else {
        let rest = before.drop_first();
        assert(is_white_space(before[0]));
        assert((before + text)[0] == before[0]);
        assert forall|i: int| 0 <= i < rest.len() implies is_white_space(#[trigger] rest[i]) by {
            assert(rest[i] == before[i + 1]);
        }
        lemma_trim_start(rest, text);
        assert((before + text).drop_first() =~= rest + text);
    }
}

proof fn lemma_trim_end(text: Seq<char>, after: Seq<char>)
    requires
        is_blank(after),
        text.len() > 0,
        !is_white_space(text.last()),
    ensures
        trimmed_end(text + after) == text,
    decreases after.len(),
{
    if after.len() == 0 {
        assert(text + after =~= text);
    } else {
        let rest = after.drop_last();
        assert(is_white_space(after[after.len() - 1]));
        assert((text + after).last() == after.last());
        assert forall|i: int| 0 <= i < rest.len() implies is_white_space(#[trigger] rest[i]) by {
            assert(rest[i] == after[i]);
        }
        lemma_trim_end(text, rest);
        assert((text + after).drop_last() =~= text + rest);
    }
}

/// The decimal digits of a number: those of its tenth part and then the last one.
pub proof fn law_decimal_digits(n: nat, d: nat)
    requires
        d < 10,
    ensures
        decimal(d).len() == 1,
        decimal(d)[0] as int == '0' as int + d,
        n > 0 ==> decimal(10 * n + d) == decimal(n) + decimal(d),
{
    if n > 0 {
        assert((10 * n + d) / 10 == n);
        assert((10 * n + d) % 10 == d);
        assert(decimal(10 * n + d) =~= decimal(n) + decimal(d));
    }
}

/// The value of a number with one more digit is ten times its value and the digit;
/// what is not made of digits has none.
pub proof fn law_digits_have_a_value(text: Seq<char>, c: char)
    ensures
        digits_value(seq![]) == Some(0nat),
        '0' <= c <= '9' ==> (digits_value(text) matches Some(n) ==> digits_value(text.push(c))
            == Some((10 * n + (c as int - '0' as int)) as nat)),
        !('0' <= c <= '9') ==> digits_value(text.push(c)) is None,
        digits_value(text) is None ==> digits_value(text.push(c)) is None,
{
    assert(text.push(c).drop_last() =~= text);
}

/// A number is read from one digit or more, before which a plus sign may stand, and
/// only where it is not too large.
pub proof fn law_numbers_are_read(digits: Seq<char>, max: nat)
    ensures
        unsigned_value(seq![], max) is None,
        unsigned_value(seq!['+'], max) is None,
        digits.len() > 0 && digits[0] != '+' ==> unsigned_value(digits, max) == unsigned_value(
            seq!['+'] + digits,
            max,
        ),
        digits.len() > 0 && digits_value(digits) is None ==> unsigned_value(
            seq!['+'] + digits,
            max,
        ) is None,
        digits.len() > 0 ==> (digits_value(digits) matches Some(n) ==> {
            &&& n <= max ==> unsigned_value(seq!['+'] + digits, max) == Some(n)
            &&& n > max ==> unsigned_value(seq!['+'] + digits, max) is None
        }),
{
    assert((seq!['+'] + digits).drop_first() =~= digits);
    assert((seq!['+'] + digits).skip(1) =~= digits);
    assert(seq!['+'].drop_first() =~= seq![]);
    assert(seq!['+'].skip(1) =~= seq![]);
}

} // verus!
