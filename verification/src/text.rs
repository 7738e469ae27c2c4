//! Text building blocks: the number renderings and string operations that
//! identifiers, log lines and error messages are made of.
use vstd::prelude::*;

verus! {

/// Contract of `String::push`: the character is appended at the end.
pub assume_specification[ String::push ](s: &mut String, c: char)
    ensures
        final(s)@ == old(s)@.push(c),
;

/// Contract of `==` on string slices: two slices are equal when they hold the
/// same characters.
pub assume_specification[ <str as PartialEq>::eq ](a: &str, b: &str) -> (r: bool)
    ensures
        r == (a@ == b@),
;

/// The `i`-th hexadecimal digit, in lower case.
pub open spec fn digit_char(i: int) -> char {
    if i == 0 {
        '0'
    } else if i == 1 {
        '1'
    } else if i == 2 {
        '2'
    } else if i == 3 {
        '3'
    } else if i == 4 {
        '4'
    } else if i == 5 {
        '5'
    } else if i == 6 {
        '6'
    } else if i == 7 {
        '7'
    } else if i == 8 {
        '8'
    } else if i == 9 {
        '9'
    } else if i == 10 {
        'a'
    } else if i == 11 {
        'b'
    } else if i == 12 {
        'c'
    } else if i == 13 {
        'd'
    } else if i == 14 {
        'e'
    } else {
        'f'
    }
}

/// The digits of `n` in the given base, most significant first, without
/// leading zeros (`0` is the single digit zero).
pub open spec fn digits(n: nat, base: nat) -> Seq<char>
    decreases n,
{
    if base < 2 || n < base {
        seq![digit_char(n as int)]
    } else {
        proof {
            assert(n / base < n) by (nonlinear_arith)
                requires
                    n >= base,
                    base >= 2,
            ;
        }
        digits(n / base, base).push(digit_char((n % base) as int))
    }
}

/// Decimal rendering of `n`.
pub open spec fn decimal(n: nat) -> Seq<char> {
    digits(n, 10)
}

/// Decimal rendering of an integer, with a leading minus sign when negative.
pub open spec fn signed_decimal(n: int) -> Seq<char> {
    if n < 0 {
        seq!['-'] + decimal((-n) as nat)
    } else {
        decimal(n as nat)
    }
}

/// Hexadecimal rendering of `n` with the `0x` prefix.
pub open spec fn prefixed_hex(n: nat) -> Seq<char> {
    "0x"@ + digits(n, 16)
}

/// The lower-case hexadecimal digit for `i`.
pub fn hex_digit(i: u8) -> (c: char)
    requires
        i < 16,
    ensures
        c == digit_char(i as int),
{
    match i {
        0 => '0',
        1 => '1',
        2 => '2',
        3 => '3',
        4 => '4',
        5 => '5',
        6 => '6',
        7 => '7',
        8 => '8',
        9 => '9',
        10 => 'a',
        11 => 'b',
        12 => 'c',
        13 => 'd',
        14 => 'e',
        _ => 'f',
    }
}

fn push_digits(out: &mut String, n: u64, base: u64)
    requires
        2 <= base <= 16,
    ensures
        final(out)@ == old(out)@ + digits(n as nat, base as nat),
    decreases n,
{
    if n >= base {
        assert(n / base < n) by (nonlinear_arith)
            requires
                n >= base,
                base >= 2,
        ;
        push_digits(out, n / base, base);
    }
    assert(n % base < base) by (nonlinear_arith)
        requires
            base >= 2,
    ;
    assert(n < base ==> n % base == n) by (nonlinear_arith)
        requires
            base >= 2,
    ;
    out.push(hex_digit((n % base) as u8));
}

/// Append the decimal rendering of `n`.
pub fn push_decimal(out: &mut String, n: u64)
    ensures
        final(out)@ == old(out)@ + decimal(n as nat),
{
    push_digits(out, n, 10);
}

/// Append the decimal rendering of `n`, with its sign when negative.
pub fn push_signed_decimal(out: &mut String, n: i32)
    ensures
        final(out)@ == old(out)@ + signed_decimal(n as int),
{
    let wide: i64 = n as i64;
    if wide < 0 {
        out.push('-');
        push_decimal(out, (-wide) as u64);
    } else {
        push_decimal(out, wide as u64);
    }
}

/// Append `n` as `0x` followed by lower-case hexadecimal digits.
pub fn push_prefixed_hex(out: &mut String, n: u64)
    ensures
        final(out)@ == old(out)@ + prefixed_hex(n as nat),
{
    out.append("0x");
    push_digits(out, n, 16);
}

/// Whether a character has the Unicode `White_Space` property.
pub open spec fn is_white_space(c: char) -> bool {
    let code = c as int;
    ||| 0x9 <= code <= 0xd
    ||| code == 0x20
    ||| code == 0x85
    ||| code == 0xa0
    ||| code == 0x1680
    ||| 0x2000 <= code <= 0x200a
    ||| code == 0x2028
    ||| code == 0x2029
    ||| code == 0x202f
    ||| code == 0x205f
    ||| code == 0x3000
}

/// Whether `part` is `text` without its leading and trailing white space.
pub open spec fn is_trimmed(text: Seq<char>, part: Seq<char>) -> bool {
    exists|start: int, end: int|
        {
            &&& 0 <= start <= end <= text.len()
            &&& part == #[trigger] text.subrange(start, end)
            &&& forall|i: int|
                0 <= i < start || end <= i < text.len() ==> is_white_space(#[trigger] text[i])
            &&& part.len() > 0 ==> !is_white_space(part[0]) && !is_white_space(part.last())
        }
}

fn white_space(c: char) -> (found: bool)
    ensures
        found == is_white_space(c),
{
    let code: u32 = c as u32;
    (0x9 <= code && code <= 0xd) || code == 0x20 || code == 0x85 || code == 0xa0 || code == 0x1680
        || (0x2000 <= code && code <= 0x200a) || code == 0x2028 || code == 0x2029 || code == 0x202f
        || code == 0x205f || code == 0x3000
}

/// The characters of `text` from `start` up to `end`.
pub fn substring(text: &str, start: usize, end: usize) -> (part: String)
    requires
        start <= end <= text@.len(),
    ensures
        part@ == text@.subrange(start as int, end as int),
{
    let mut part = String::new();
    let mut i: usize = start;
    while i < end
        invariant
            start <= i <= end <= text@.len(),
            part@ == text@.subrange(start as int, i as int),
        decreases end - i,
    {
        part.push(text.get_char(i));
        assert(part@ =~= text@.subrange(start as int, i + 1));
        i = i + 1;
    }
    part
}

/// `text` without its leading and trailing white space.
pub fn trim(text: &str) -> (part: String)
    ensures
        is_trimmed(text@, part@),
{
    let len: usize = text.unicode_len();
    let mut start: usize = 0;
    while start < len && white_space(text.get_char(start))
        invariant
            start <= len == text@.len(),
            forall|i: int| 0 <= i < start ==> is_white_space(#[trigger] text@[i]),
        decreases len - start,
    {
        start = start + 1;
    }
    let mut end: usize = len;
    while end > start && white_space(text.get_char(end - 1))
        invariant
            start <= end <= len == text@.len(),
            forall|i: int| 0 <= i < start ==> is_white_space(#[trigger] text@[i]),
            forall|i: int| end <= i < len ==> is_white_space(#[trigger] text@[i]),
            start < len ==> !is_white_space(text@[start as int]),
        decreases end - start,
    {
        end = end - 1;
    }
    let part = substring(text, start, end);
    proof {
        if part@.len() > 0 {
            assert(part@[0] == text@[start as int]);
            assert(part@.last() == text@[end - 1]);
        }
    }
    part
}

/// A text has exactly one trimmed form.
pub proof fn law_trimmed_form_is_unique(text: Seq<char>, a: Seq<char>, b: Seq<char>)
    requires
        is_trimmed(text, a),
        is_trimmed(text, b),
    ensures
        a == b,
{
    let (sa, ea) = choose|start: int, end: int|
        {
            &&& 0 <= start <= end <= text.len()
            &&& a == #[trigger] text.subrange(start, end)
            &&& forall|i: int|
                0 <= i < start || end <= i < text.len() ==> is_white_space(#[trigger] text[i])
            &&& a.len() > 0 ==> !is_white_space(a[0]) && !is_white_space(a.last())
        };
    let (sb, eb) = choose|start: int, end: int|
        {
            &&& 0 <= start <= end <= text.len()
            &&& b == #[trigger] text.subrange(start, end)
            &&& forall|i: int|
                0 <= i < start || end <= i < text.len() ==> is_white_space(#[trigger] text[i])
            &&& b.len() > 0 ==> !is_white_space(b[0]) && !is_white_space(b.last())
        };
    if a.len() > 0 {
        assert(a[0] == text[sa]);
        assert(a.last() == text[ea - 1]);
        assert(sb <= sa && ea <= eb);
    }
    if b.len() > 0 {
        assert(b[0] == text[sb]);
        assert(b.last() == text[eb - 1]);
        assert(sa <= sb && eb <= ea);
    }
    assert(a =~= b);
}

/// What follows well-formed UTF-8 decides whether the whole is well formed,
/// and then the whole decodes to both texts, one after the other.
pub proof fn lemma_utf8_concat(front: Seq<u8>, back: Seq<u8>)
    requires
        vstd::utf8::valid_utf8(front),
    ensures
        vstd::utf8::valid_utf8(front + back) == vstd::utf8::valid_utf8(back),
        vstd::utf8::valid_utf8(back) ==> vstd::utf8::decode_utf8(front + back)
            == vstd::utf8::decode_utf8(front) + vstd::utf8::decode_utf8(back),
    decreases front.len(),
{
    if front.len() == 0 {
        assert(front + back =~= back);
        assert(vstd::utf8::decode_utf8(front) =~= Seq::empty());
        assert(Seq::<char>::empty() + vstd::utf8::decode_utf8(back) =~= vstd::utf8::decode_utf8(
            back,
        ));
    } else {
        let rest = vstd::utf8::pop_first_scalar(front);
        lemma_utf8_concat(rest, back);
        assert(vstd::utf8::pop_first_scalar(front + back) =~= rest + back);
        if vstd::utf8::valid_utf8(back) {
            assert(vstd::utf8::decode_utf8(front + back) =~= vstd::utf8::decode_utf8(front)
                + vstd::utf8::decode_utf8(back));
        }
    }
}

/// A separator alone is the text of a separator.
pub proof fn lemma_separator_decodes()
    ensures
        vstd::utf8::valid_utf8(seq![crate::paths::SEPARATOR]),
        vstd::utf8::decode_utf8(seq![crate::paths::SEPARATOR]) == seq!['/'],
{
    assert(vstd::utf8::is_ascii_chars(seq!['/']));
    vstd::utf8::is_ascii_chars_encode_utf8(seq!['/']);
    vstd::utf8::encode_utf8_valid_utf8(seq!['/']);
    vstd::utf8::encode_utf8_decode_utf8(seq!['/']);
    let bytes = vstd::utf8::encode_utf8(seq!['/']);
    assert(seq!['/'][0] as u8 == bytes[0]);
    assert(bytes =~= seq![crate::paths::SEPARATOR]);
}

/// The text of an absolute path starts with a separator.
pub proof fn lemma_starts_with_separator(path: Seq<u8>)
    requires
        vstd::utf8::valid_utf8(path),
        crate::paths::is_absolute(path),
    ensures
        vstd::utf8::decode_utf8(path).len() > 0,
        vstd::utf8::decode_utf8(path)[0] == '/',
{
    let slash = seq![crate::paths::SEPARATOR];
    let rest = path.skip(1);
    lemma_separator_decodes();
    lemma_utf8_concat(slash, rest);
    assert(slash + rest =~= path);
}

/// Names the quoted form of a text that `{:?}` renders: double quotes around
/// it, with quotes, backslashes and unprintable characters escaped.
pub uninterp spec fn debug_text(text: Seq<char>) -> Seq<char>;

/// The `{:?}` rendering of a text, by the `Debug` implementation of `str`.
/// Which characters are escaped is left to the standard library; the result
/// depends on the text alone.
#[verifier::external_body]
pub(crate) fn debug_quoted(text: &str) -> (quoted: String)
    ensures
        quoted@ == debug_text(text@),
{
    format!("{:?}", text)
}

/// Names the text of a byte string with every malformed UTF-8 sequence
/// replaced.
pub uninterp spec fn utf8_lossy(bytes: Seq<u8>) -> Seq<char>;

/// `String::from_utf8_lossy`: the text depends on the bytes alone, and
/// well-formed UTF-8 is decoded as it stands. How malformed sequences are
/// grouped into replacement characters is left to the standard library.
#[verifier::external_body]
pub(crate) fn text_lossy(bytes: &[u8]) -> (text: String)
    ensures
        text@ == utf8_lossy(bytes@),
        vstd::utf8::valid_utf8(bytes@) ==> text@ == vstd::utf8::decode_utf8(bytes@),
{
    String::from_utf8_lossy(bytes).into_owned()
}

/// Whether a text ends with another.
pub open spec fn ends_with(text: Seq<char>, end: Seq<char>) -> bool {
    text.len() >= end.len() && text.skip(text.len() - end.len()) == end
}

/// Whether a text begins with another.
pub open spec fn begins_with(text: Seq<char>, begin: Seq<char>) -> bool {
    text.len() >= begin.len() && text.take(begin.len() as int) == begin
}

pub proof fn lemma_ends_with(front: Seq<char>, end: Seq<char>)
    ensures
        ends_with(front + end, end),
        begins_with(front + end, front),
{
    assert((front + end).skip(front.len() as int) =~= end);
    assert((front + end).take(front.len() as int) =~= front);
}

/// The value of a hexadecimal digit in lower case.
pub open spec fn digit_value(c: char) -> int {
    if c as int >= 97 {
        c as int - 87
    } else {
        c as int - 48
    }
}

/// The number that a text of digits stands for.
pub open spec fn read_number(text: Seq<char>, base: int) -> int
    decreases text.len(),
{
    if text.len() == 0 {
        0
    } else {
        read_number(text.drop_last(), base) * base + digit_value(text.last())
    }
}

/// Whether a text holds digits of the given base alone, at least one, and none
/// that is a needless zero in front.
pub open spec fn is_numeral(text: Seq<char>, base: int) -> bool {
    &&& text.len() > 0
    &&& text.len() > 1 ==> text[0] != '0'
    &&& forall|i: int|
        0 <= i < text.len() ==> {
            &&& 48 <= #[trigger] text[i] as int <= 57 || 97 <= text[i] as int <= 102
            &&& 0 <= digit_value(text[i]) < base
        }
}

pub proof fn lemma_digits(n: nat, base: nat)
    requires
        2 <= base <= 16,
    ensures
        is_numeral(digits(n, base), base as int),
        read_number(digits(n, base), base as int) == n,
        n > 0 ==> digits(n, base)[0] != '0',
    decreases n,
{
    reveal_with_fuel(read_number, 2);
    if n < base {
        assert(digits(n, base) =~= seq![digit_char(n as int)]);
        assert(digits(n, base).drop_last() =~= Seq::empty());
    } else {
        assert(0 < n / base < n) by (nonlinear_arith)
            requires
                n >= base,
                base >= 2,
        ;
        vstd::arithmetic::div_mod::lemma_fundamental_div_mod(n as int, base as int);
        assert((n as int / base as int) * base == base * (n as int / base as int))
            by (nonlinear_arith);
        vstd::arithmetic::div_mod::lemma_mod_bound(n as int, base as int);
        lemma_digits(n / base, base);
        let front = digits(n / base, base);
        let text = digits(n, base);
        assert(text == front.push(digit_char((n % base) as int)));
        assert(text.drop_last() =~= front);
        assert forall|i: int| 0 <= i < text.len() implies {
            &&& 48 <= #[trigger] text[i] as int <= 57 || 97 <= text[i] as int <= 102
            &&& 0 <= digit_value(text[i]) < base
        } by {
            if i < front.len() {
                assert(text[i] == front[i]);
            }
        }
    }
}

/// A number is appended as a numeral that reads back as the number: decimal
/// ones with a sign if the number is negative, hexadecimal ones behind `0x`.
pub proof fn law_numerals_read_back(
    plain: &mut String,
    n: u64,
    signed: &mut String,
    i: i32,
    hex: &mut String,
    done: (),
)
    requires
        call_ensures(push_decimal, (plain, n), done),
        call_ensures(push_signed_decimal, (signed, i), done),
        call_ensures(push_prefixed_hex, (hex, n), done),
    ensures
        begins_with(final(plain)@, old(plain)@),
        ({
            let added = final(plain)@.skip(old(plain)@.len() as int);
            is_numeral(added, 10) && read_number(added, 10) == n
        }),
        begins_with(final(signed)@, old(signed)@),
        ({
            let added = final(signed)@.skip(old(signed)@.len() as int);
            if i < 0 {
                added.len() > 0 && added[0] == '-' && is_numeral(added.skip(1), 10) && read_number(
                    added.skip(1),
                    10,
                ) == -i
            } else {
                is_numeral(added, 10) && read_number(added, 10) == i
            }
        }),
        begins_with(final(hex)@, old(hex)@),
        ({
            let added = final(hex)@.skip(old(hex)@.len() as int);
            &&& added.len() > 2
            &&& added[0] == '0'
            &&& added[1] == 'x'
            &&& is_numeral(added.skip(2), 16)
            &&& read_number(added.skip(2), 16) == n
        }),
{
    lemma_digits(n as nat, 10);
    lemma_digits(n as nat, 16);
    lemma_ends_with(old(plain)@, decimal(n as nat));
    lemma_ends_with(old(signed)@, signed_decimal(i as int));
    lemma_ends_with(old(hex)@, prefixed_hex(n as nat));
    reveal_strlit("0x");
    assert(prefixed_hex(n as nat).skip(2) =~= digits(n as nat, 16));
    if i < 0 {
        lemma_digits((-i) as nat, 10);
        assert(signed_decimal(i as int).skip(1) =~= decimal((-i) as nat));
    } else {
        lemma_digits(i as nat, 10);
    }
}

/// A hexadecimal digit stands for its number.
pub proof fn law_digits_stand_for_their_numbers(i: u8, c: char)
    requires
        i < 16,
        call_ensures(hex_digit, (i,), c),
    ensures
        i < 10 ==> c as int == 48 + i,
        i >= 10 ==> c as int == 97 + (i - 10),
{
}

/// The code points of white space.
pub open spec fn white_codes() -> Set<int> {
    set![
        9, 10, 11, 12, 13, 32, 133, 160, 5760, 8192, 8193, 8194, 8195, 8196, 8197, 8198, 8199, 8200,
        8201, 8202, 8232, 8233, 8239, 8287, 12288,
    ]
}

/// A trimmed text is a stretch of the text: nothing but white space was left
/// out on either side, and it has none at its ends.
pub proof fn law_trimming_strips_white_space(text: &str, part: String)
    requires
        call_ensures(trim, (text,), part),
    ensures
        exists|start: int, end: int|
            {
                &&& 0 <= start <= end <= text@.len()
                &&& part@ == #[trigger] text@.subrange(start, end)
                &&& forall|i: int|
                    0 <= i < start || end <= i < text@.len() ==> white_codes().contains(
                        #[trigger] text@[i] as int,
                    )
            },
        part@.len() > 0 ==> !white_codes().contains(part@[0] as int) && !white_codes().contains(
            part@.last() as int,
        ),
{
    assert forall|c: char| #[trigger] is_white_space(c) == white_codes().contains(c as int) by {}
    let (start, end) = choose|start: int, end: int|
        {
            &&& 0 <= start <= end <= text@.len()
            &&& part@ == #[trigger] text@.subrange(start, end)
            &&& forall|i: int|
                0 <= i < start || end <= i < text@.len() ==> is_white_space(#[trigger] text@[i])
            &&& part@.len() > 0 ==> !is_white_space(part@[0]) && !is_white_space(part@.last())
        };
    assert(part@ == text@.subrange(start, end));
    assert forall|i: int| 0 <= i < start || end <= i < text@.len() implies white_codes().contains(
        #[trigger] text@[i] as int,
    ) by {
        assert(is_white_space(text@[i]));
    }
}

/// A part of a text holds its characters from one place up to another.
pub proof fn law_parts_are_stretches(text: &str, start: usize, end: usize, part: String, i: int)
    requires
        start <= end <= text@.len(),
        call_ensures(substring, (text, start, end), part),
        start <= i < end,
    ensures
        part@.len() == end - start,
        part@[i - start] == text@[i],
{
}

} // verus!
