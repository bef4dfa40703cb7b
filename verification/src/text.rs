//! Text helpers: decimal numbers, blank lines and comparisons.

use vstd::prelude::*;

verus! {

/// The characters of Unicode's `White_Space` property.
pub open spec fn white_space(c: char) -> bool {
    ||| 0x9 <= c as u32 <= 0xd
    ||| c as u32 == 0x20
    ||| c as u32 == 0x85
    ||| c as u32 == 0xa0
    ||| c as u32 == 0x1680
    ||| 0x2000 <= c as u32 <= 0x200a
    ||| c as u32 == 0x2028
    ||| c as u32 == 0x2029
    ||| c as u32 == 0x202f
    ||| c as u32 == 0x205f
    ||| c as u32 == 0x3000
}

/// A text that is empty or holds white space alone.
pub open spec fn blank(text: Seq<char>) -> bool {
    forall|i: int| 0 <= i < text.len() ==> white_space(#[trigger] text[i])
}

/// The characters of `text`, in order.
pub fn characters(text: &str) -> (chars: Vec<char>)
    ensures
        chars@ == text@,
{
    let mut chars: Vec<char> = Vec::new();
    for c in iter: text.chars()
        invariant
            iter.seq() == text@,
            chars@ == text@.take(iter.index() as int),
    {
        chars.push(c);
        assert(text@.take(iter.index() + 1) =~= text@.take(iter.index() as int).push(c));
    }
    assert(text@.take(text@.len() as int) =~= text@);
    chars
}

pub fn is_white_space(c: char) -> (yes: bool)
    ensures
        yes == white_space(c),
{
    let code: u32 = c as u32;
    (0x9 <= code && code <= 0xd) || code == 0x20 || code == 0x85 || code == 0xa0 || code == 0x1680
        || (0x2000 <= code && code <= 0x200a) || code == 0x2028 || code == 0x2029 || code == 0x202f
        || code == 0x205f || code == 0x3000
}

/// Whether nothing but white space is left of `text`.
pub fn is_blank(text: &str) -> (yes: bool)
    ensures
        yes == blank(text@),
{
    let chars = characters(text);
    let mut i: usize = 0;
    while i < chars.len()
        invariant
            i <= chars.len(),
            chars@ == text@,
            forall|k: int| 0 <= k < i ==> white_space(#[trigger] text@[k]),
        decreases chars.len() - i,
    {
        if !is_white_space(chars[i]) {
            assert(!white_space(text@[i as int]));
            return false;
        }
        i += 1;
    }
    true
}

/// Whether two texts hold the same characters.
pub fn same_text(a: &str, b: &str) -> (yes: bool)
    ensures
        yes == (a@ == b@),
{
    let left = characters(a);
    let right = characters(b);
    if left.len() != right.len() {
        return false;
    }
    let mut i: usize = 0;
    while i < left.len()
        invariant
            i <= left.len(),
            left@ == a@,
            right@ == b@,
            left.len() == right.len(),
            forall|k: int| 0 <= k < i ==> a@[k] == b@[k],
        decreases left.len() - i,
    {
        if left[i] != right[i] {
            assert(a@[i as int] != b@[i as int]);
            return false;
        }
        i += 1;
    }
    assert(a@ =~= b@);
    true
}

/// The decimal digit of a number below ten.
pub open spec fn digit(n: nat) -> char {
    (n + 48) as char
}

/// A number in decimal, without leading zeros.
pub open spec fn decimal_text(n: nat) -> Seq<char>
    decreases n,
{
    if n < 10 {
        seq![digit(n)]
    } else {
        decimal_text(n / 10).push(digit(n % 10))
    }
}

/// One decimal digit as text.
fn digit_text(n: u64) -> (text: &'static str)
    requires
        n < 10,
    ensures
        text@ == seq![digit(n as nat)],
{
    proof {
        reveal_strlit("0");
        reveal_strlit("1");
        reveal_strlit("2");
        reveal_strlit("3");
        reveal_strlit("4");
        reveal_strlit("5");
        reveal_strlit("6");
        reveal_strlit("7");
        reveal_strlit("8");
        reveal_strlit("9");
    }
    let text = if n == 0 {
        "0"
    } else if n == 1 {
        "1"
    } else if n == 2 {
        "2"
    } else if n == 3 {
        "3"
    } else if n == 4 {
        "4"
    } else if n == 5 {
        "5"
    } else if n == 6 {
        "6"
    } else if n == 7 {
        "7"
    } else if n == 8 {
        "8"
    } else {
        "9"
    };
    assert(text@ =~= seq![digit(n as nat)]);
    text
}

/// `n` written in decimal.
pub fn decimal(n: u64) -> (text: String)
    ensures
        text@ == decimal_text(n as nat),
    decreases n,
{
    if n < 10 {
        digit_text(n).to_string()
    } else {
        let mut text = decimal(n / 10);
        let last = digit_text(n % 10);
        text.append(last);
        assert(text@ =~= decimal_text((n / 10) as nat).push(digit((n % 10) as nat)));
        text
    }
}

/// Whether a character is one of the ten decimal digits.
pub open spec fn is_digit(c: char) -> bool {
    '0' <= c && c <= '9'
}

/// A decimal number is made of digits, and has at least one.
pub proof fn lemma_decimal_is_digits(n: nat)
    ensures
        decimal_text(n).len() > 0,
        forall|i: int| 0 <= i < decimal_text(n).len() ==> is_digit(#[trigger] decimal_text(n)[i]),
    decreases n,
{
    if n >= 10 {
        lemma_decimal_is_digits(n / 10);
    }
}

/// Different numbers are written differently.
pub proof fn lemma_decimal_injective(a: nat, b: nat)
    requires
        decimal_text(a) == decimal_text(b),
    ensures
        a == b,
    decreases a,
{
    lemma_decimal_is_digits(a);
    lemma_decimal_is_digits(b);
    let s = decimal_text(a);
    let t = decimal_text(b);
    if a < 10 && b < 10 {
        assert(s[0] == digit(a) && t[0] == digit(b));
    } else if a >= 10 && b >= 10 {
        assert(s.drop_last() =~= decimal_text(a / 10));
        assert(t.drop_last() =~= decimal_text(b / 10));
        assert(s.last() == digit(a % 10) && t.last() == digit(b % 10));
        lemma_decimal_injective(a / 10, b / 10);
    } else if a < 10 {
        lemma_decimal_is_digits(b / 10);
        assert(s.len() == 1 && t.len() > 1);
    } else {
        lemma_decimal_is_digits(a / 10);
        assert(t.len() == 1 && s.len() > 1);
    }
}

/// A character with the ASCII capitals turned into small letters.
pub open spec fn ascii_lower(c: char) -> char {
    if 'A' <= c && c <= 'Z' {
        (c as u32 + 32) as char
    } else {
        c
    }
}

/// A text with the ASCII capitals turned into small letters.
pub open spec fn ascii_lower_text(text: Seq<char>) -> Seq<char> {
    text.map_values(|c: char| ascii_lower(c))
}

/// Whether `needle` stands somewhere in `text`.
pub open spec fn holds(text: Seq<char>, needle: Seq<char>) -> bool {
    exists|at: int| holds_at(text, needle, at)
}

/// Whether `needle` stands in `text` at `at`.
pub open spec fn holds_at(text: Seq<char>, needle: Seq<char>, at: int) -> bool {
    0 <= at && at + needle.len() <= text.len() && text.subrange(at, at + needle.len()) == needle
}

fn to_ascii_lower(c: char) -> (lower: char)
    ensures
        lower == ascii_lower(c),
{
    if 'A' <= c && c <= 'Z' {
        (c as u8 + 32) as char
    } else {
        c
    }
}

/// Whether `text`, with its ASCII capitals turned into small letters, holds
/// `needle`.
pub fn holds_ignoring_ascii_case(text: &str, needle: &str) -> (yes: bool)
    ensures
        yes == holds(ascii_lower_text(text@), needle@),
{
    let chars = characters(text);
    let wanted = characters(needle);
    let ghost lower = ascii_lower_text(text@);
    let mut at: usize = 0;
    while wanted.len() <= chars.len() - at
        invariant
            at <= chars.len(),
            chars@ == text@,
            wanted@ == needle@,
            lower == ascii_lower_text(text@),
            forall|k: int| 0 <= k < at ==> !holds_at(lower, needle@, k),
        decreases chars.len() - at,
    {
        let mut i: usize = 0;
        while i < wanted.len() && to_ascii_lower(chars[at + i]) == wanted[i]
            invariant
                at <= chars.len(),
                wanted.len() <= chars.len() - at,
                chars@ == text@,
                wanted@ == needle@,
                lower == ascii_lower_text(text@),
                i <= wanted.len(),
                forall|k: int| 0 <= k < i ==> lower[at + k] == needle@[k],
            decreases wanted.len() - i,
        {
            i += 1;
        }
        if i == wanted.len() {
            assert(lower.subrange(at as int, at + needle@.len()) =~= needle@);
            assert(holds_at(lower, needle@, at as int));
            return true;
        }
        assert(lower.subrange(at as int, at + needle@.len())[i as int] != needle@[i as int]);
        at += 1;
    }
    false
}

/// The number that decimal digits spell.
pub open spec fn spelled(text: Seq<char>) -> int
    decreases text.len(),
{
    if text.len() == 0 {
        0
    } else {
        10 * spelled(text.drop_last()) + (text.last() as u32 - 48)
    }
}

/// A number in decimal spells the number, in digits alone, with no zero before
/// the others.
pub proof fn lemma_decimal_spells_the_number(n: nat)
    ensures
        spelled(decimal_text(n)) == n,
        decimal_text(n).len() > 0,
        forall|i: int|
            0 <= i < decimal_text(n).len() ==> '0' <= #[trigger] decimal_text(n)[i] <= '9',
        decimal_text(n).len() > 1 ==> decimal_text(n)[0] != '0',
    decreases n,
{
    let text = decimal_text(n);
    reveal_with_fuel(spelled, 2);
    if n < 10 {
        assert(text.drop_last() =~= seq![]);
        assert(text[0] as u32 == n + 48);
    } else {
        lemma_decimal_spells_the_number(n / 10);
        let before = decimal_text(n / 10);
        assert(text.drop_last() =~= before);
        assert(text.last() as u32 == n % 10 + 48);
        assert forall|i: int| 0 <= i < text.len() implies '0' <= #[trigger] text[i] <= '9' by {
            if i < before.len() {
                assert(text[i] == before[i]);
            }
        }
        assert(text[0] == before[0]);
        if before.len() == 1 {
            assert(before.drop_last() =~= seq![]);
        }
    }
}

/// A text is blank exactly where it has no character but white space, wherever
/// it stands: what is put together of blank texts is blank, and of others not.
pub proof fn lemma_blank_concat(a: Seq<char>, b: Seq<char>)
    ensures
        blank(a + b) <==> blank(a) && blank(b),
        blank(Seq::<char>::empty()),
{
    let ab = a + b;
    if blank(ab) {
        assert forall|i: int| 0 <= i < a.len() implies white_space(#[trigger] a[i]) by {
            assert(ab[i] == a[i]);
        }
        assert forall|i: int| 0 <= i < b.len() implies white_space(#[trigger] b[i]) by {
            assert(ab[a.len() + i] == b[i]);
        }
    }
    if blank(a) && blank(b) {
        assert forall|i: int| 0 <= i < ab.len() implies white_space(#[trigger] ab[i]) by {
            if i < a.len() {
                assert(ab[i] == a[i]);
            } else {
                assert(ab[i] == b[i - a.len()]);
            }
        }
    }
}

/// A text that holds another holds it whatever stands around, and in lower case
/// letters stay where they are: the capital ones become small, the others are
/// as they were.
pub proof fn lemma_search(a: Seq<char>, needle: Seq<char>, b: Seq<char>)
    ensures
        holds(a + needle + b, needle),
        holds(a, needle) ==> exists|x: Seq<char>, y: Seq<char>| a == #[trigger] (x + needle + y),
        ascii_lower_text(a).len() == a.len(),
        forall|i: int|
            0 <= i < a.len() ==> #[trigger] ascii_lower_text(a)[i] == if 'A' <= a[i] <= 'Z' {
                (a[i] as u32 + 32) as char
            } else {
                a[i]
            },
{
    let all = a + needle + b;
    assert(all.subrange(a.len() as int, (a.len() + needle.len()) as int) =~= needle);
    assert(holds_at(all, needle, a.len() as int));
    if holds(a, needle) {
        let at = choose|at: int| holds_at(a, needle, at);
        let x = a.take(at);
        let y = a.skip(at + needle.len());
        assert(a =~= x + needle + y) by {
            assert forall|i: int| 0 <= i < needle.len() implies a[at + i] == needle[i] by {
                assert(a.subrange(at, at + needle.len())[i] == needle[i]);
            }
        }
    }
}

proof fn lemma_white_space(c: char)
    ensures
        white_space(c) == {
            ||| c == ' ' || c == '\t' || c == '\n' || c == '\r'
            ||| c == '\u{b}' || c == '\u{c}'
            ||| c == '\u{85}' || c == '\u{a0}' || c == '\u{1680}'
            ||| '\u{2000}' <= c <= '\u{200a}'
            ||| c == '\u{2028}' || c == '\u{2029}' || c == '\u{202f}'
            ||| c == '\u{205f}' || c == '\u{3000}'
        },
{
}

/// Blank texts are those of blanks, tabs, line and page breaks, no-break and
/// typographic spaces alone; the empty text is one. No letter, digit, mark or
/// control character besides is blank.
pub proof fn lemma_blank_texts(text: Seq<char>)
    ensures
        blank(text) <==> forall|i: int|
            0 <= i < text.len() ==> {
                let c = #[trigger] text[i];
                ||| c == ' ' || c == '\t' || c == '\n' || c == '\r'
                ||| c == '\u{b}' || c == '\u{c}'
                ||| c == '\u{85}' || c == '\u{a0}' || c == '\u{1680}'
                ||| '\u{2000}' <= c <= '\u{200a}'
                ||| c == '\u{2028}' || c == '\u{2029}' || c == '\u{202f}'
                ||| c == '\u{205f}' || c == '\u{3000}'
            },
{
    assert forall|i: int| 0 <= i < text.len() implies white_space(#[trigger] text[i]) == {
        let c = text[i];
        ||| c == ' ' || c == '\t' || c == '\n' || c == '\r'
        ||| c == '\u{b}' || c == '\u{c}'
        ||| c == '\u{85}' || c == '\u{a0}' || c == '\u{1680}'
        ||| '\u{2000}' <= c <= '\u{200a}'
        ||| c == '\u{2028}' || c == '\u{2029}' || c == '\u{202f}'
        ||| c == '\u{205f}' || c == '\u{3000}'
    } by {
        lemma_white_space(text[i]);
    }
    if blank(text) {
        assert forall|i: int| 0 <= i < text.len() implies white_space(#[trigger] text[i]) by {}
    }
}

} // verus!
