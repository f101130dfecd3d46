//! Texts as sequences of characters: reading them, searching them, writing numbers.

use vstd::prelude::*;

verus! {

/// `text` holds `needle` as a run of consecutive characters.
pub open spec fn contains_text(text: Seq<char>, needle: Seq<char>) -> bool {
    exists|at: int| occurs_at(text, needle, at)
}

/// `needle` stands in `text` at position `at`.
pub open spec fn occurs_at(text: Seq<char>, needle: Seq<char>, at: int) -> bool {
    &&& 0 <= at
    &&& at + needle.len() <= text.len()
    &&& text.subrange(at, at + needle.len()) == needle
}

/// The decimal digit `d` as a character.
pub open spec fn digit_char(d: nat) -> char
    recommends
        d < 10,
{
    (0x30 + d) as char
}

/// `n` in decimal, without leading zeros.
pub open spec fn decimal_text(n: nat) -> Seq<char>
    decreases n,
{
    if n < 10 {
        seq![digit_char(n)]
    } else {
        decimal_text(n / 10).push(digit_char(n % 10))
    }
}

/// What `std` writes for a text with `{:?}`: the text in quotation marks, with what cannot be
/// shown there escaped.
pub uninterp spec fn quoted(text: Seq<char>) -> Seq<char>;

/// Printable ASCII characters that need no escape between quotation marks.
pub open spec fn is_ordinary(text: Seq<char>) -> bool {
    forall|i: int|
        0 <= i < text.len() ==> ' ' <= #[trigger] text[i] <= '~' && text[i] != '"' && text[i]
            != '\\'
}

/// A text between quotation marks.
pub open spec fn in_quotes(text: Seq<char>) -> Seq<char> {
    seq!['"'] + text + seq!['"']
}

/// An ordinary text is written as it is, between quotation marks.
pub open spec fn is_quoted_plainly(text: Seq<char>) -> bool {
    is_ordinary(text) ==> quoted(text) == in_quotes(text)
}

/// A text in quotation marks, by `std`'s `Debug` of `str`.
///
/// Trusted: what is written depends on the text alone, and where the text is printable ASCII
/// without quotation marks and backslashes, it is the text between two quotation marks. How other
/// characters are escaped is left to `std`, and is not stated.
#[verifier::external_body]
pub(crate) fn quote(text: &str) -> (result: String)
    ensures
        result@ == quoted(text@),
        is_ordinary(text@) ==> result@ == in_quotes(text@),
{
    format!("{text:?}")
}

/// An optional text in words.
pub open spec fn optional_text(text: Option<Seq<char>>) -> Seq<char> {
    match text {
        Some(text) => "Some("@ + quoted(text) + ")"@,
        None => "None"@,
    }
}

/// `true` or `false`.
pub open spec fn flag_text(flag: bool) -> Seq<char> {
    if flag {
        "true"@
    } else {
        "false"@
    }
}

/// `c` does not stand in `text`.
pub open spec fn free_of(text: Seq<char>, c: char) -> bool {
    forall|i: int| 0 <= i < text.len() ==> #[trigger] text[i] != c
}

/// A text that lacks a character of another does not hold that other.
pub proof fn lemma_free_text_lacks(text: Seq<char>, needle: Seq<char>, c: char)
    requires
        free_of(text, c),
        needle.contains(c),
    ensures
        !contains_text(text, needle),
{
    let k = choose|k: int| 0 <= k < needle.len() && needle[k] == c;
    assert forall|at: int| !occurs_at(text, needle, at) by {
        if occurs_at(text, needle, at) {
            assert(text.subrange(at, at + needle.len())[k] == text[at + k]);
        }
    }
}

/// A text holds another exactly where it can be cut into that one and what stands before and
/// behind it.
pub proof fn lemma_contains_is_a_cut(text: Seq<char>, needle: Seq<char>)
    ensures
        contains_text(text, needle) <==> exists|before: Seq<char>, behind: Seq<char>|
            text == #[trigger] (before + needle + behind),
{
    if contains_text(text, needle) {
        let at = choose|at: int| occurs_at(text, needle, at);
        let before = text.take(at);
        let behind = text.skip(at + needle.len());
        assert(text =~= text.take(at) + text.subrange(at, at + needle.len()) + behind);
        assert(text == before + needle + behind);
    }
    if exists|before: Seq<char>, behind: Seq<char>|
        text == #[trigger] (before + needle + behind) {
        let (before, behind) = choose|before: Seq<char>, behind: Seq<char>|
            text == #[trigger] (before + needle + behind);
        let at = before.len() as int;
        assert(text.subrange(at, at + needle.len()) =~= needle);
        assert(occurs_at(text, needle, at));
    }
}

/// A number is written with as many digits as it needs: its last digit behind the number without
/// it, and never a zero in front of others.
pub proof fn lemma_number_is_written_shortly(n: nat)
    ensures
        decimal_text(n).len() >= 1,
        n < 10 ==> decimal_text(n).len() == 1,
        n >= 10 ==> decimal_text(n).len() == decimal_text(n / 10).len() + 1,
        n >= 1 ==> decimal_text(n)[0] != '0',
        n < 10 ==> decimal_text(n)[0] as int == '0' as int + n,
        decimal_text(n).last() as int == '0' as int + n % 10,
    decreases n,
{
    if n >= 10 {
        lemma_number_is_written_shortly(n / 10);
    }
}

/// A number is written in digits.
pub proof fn lemma_decimal_text_free(n: nat, c: char)
    requires
        !('0' <= c <= '9'),
    ensures
        free_of(decimal_text(n), c),
    decreases n,
{
    if n >= 10 {
        lemma_decimal_text_free(n / 10, c);
    }
}

/// A text does not cross a character that it lacks: it stands before that or behind it.
pub proof fn lemma_contains_split(a: Seq<char>, c: char, b: Seq<char>, needle: Seq<char>)
    requires
        !needle.contains(c),
        needle.len() > 0,
    ensures
        contains_text(a + seq![c] + b, needle) == (contains_text(a, needle) || contains_text(
            b,
            needle,
        )),
{
    let whole = a + seq![c] + b;
    let n = needle.len();
    if contains_text(whole, needle) {
        let at = choose|at: int| occurs_at(whole, needle, at);
        let window = whole.subrange(at, at + n);
        if at + n <= a.len() {
            assert(a.subrange(at, at + n) =~= window);
            assert(occurs_at(a, needle, at));
        } else if at > a.len() {
            let from = at - a.len() - 1;
            assert(b.subrange(from, from + n) =~= window);
            assert(occurs_at(b, needle, from));
        } else {
            assert(window[a.len() - at] == c);
            assert(needle[a.len() - at] == c);
        }
    }
    if contains_text(a, needle) {
        let at = choose|at: int| occurs_at(a, needle, at);
        assert(whole.subrange(at, at + n) =~= a.subrange(at, at + n));
        assert(occurs_at(whole, needle, at));
    }
    if contains_text(b, needle) {
        let at = choose|at: int| occurs_at(b, needle, at);
        let from = at + a.len() + 1;
        assert(whole.subrange(from, from + n) =~= b.subrange(at, at + n));
        assert(occurs_at(whole, needle, from));
    }
}

/// The characters of `text`, one by one.
pub fn chars_of(text: &str) -> (chars: Vec<char>)
    ensures
        chars@ == text@,
{
    let mut chars: Vec<char> = Vec::new();
    for c in it: text.chars()
        invariant
            chars@ == it.seq().take(it.index() as int),
            it.seq() == text@,
    {
        proof {
            assert(it.seq().take(it.index() + 1) =~= it.seq().take(it.index() as int).push(c));
        }
        chars.push(c);
    }
    assert(text@.take(text@.len() as int) =~= text@);
    chars
}

/// Whether `needle` occurs in `text`.
pub fn text_contains(text: &str, needle: &str) -> (found: bool)
    ensures
        found == contains_text(text@, needle@),
{
    let hay = chars_of(text);
    let pin = chars_of(needle);
    let hay_len: usize = hay.len();
    let pin_len: usize = pin.len();
    if pin_len > hay_len {
        return false;
    }
    let last: usize = hay_len - pin_len;
    let mut at: usize = 0;
    loop
        invariant
            hay@ == text@,
            pin@ == needle@,
            hay_len == hay@.len(),
            pin_len == pin@.len(),
            at <= last,
            last + pin_len == hay_len,
            forall|i: int| 0 <= i < at ==> !#[trigger] occurs_at(text@, needle@, i),
        decreases last - at,
    {
        let ghost window = text@.subrange(at as int, at + needle@.len());
        let mut k: usize = 0;
        while k < pin_len && hay[at + k] == pin[k]
            invariant
                hay@ == text@,
                pin@ == needle@,
                hay_len == hay@.len(),
                pin_len == pin@.len(),
                k <= pin_len,
                at <= last,
                last + pin_len == hay_len,
                window == text@.subrange(at as int, at + needle@.len()),
                forall|j: int| 0 <= j < k ==> #[trigger] window[j] == needle@[j],
            decreases pin_len - k,
        {
            k = k + 1;
        }
        if k == pin_len {
            assert(window =~= needle@);
            assert(occurs_at(text@, needle@, at as int));
            return true;
        }
        assert(window[k as int] != needle@[k as int]);
        if at == last {
            return false;
        }
        at = at + 1;
    }
}

/// An optional text in words.
pub(crate) fn write_optional(text: &Option<String>) -> (result: String)
    ensures
        result@ == optional_text(
            match *text {
                Some(text) => Some(text@),
                None => None,
            },
        ),
        *text matches Some(text) ==> is_quoted_plainly(text@),
{
    let mut result = String::new();
    match text {
        Some(text) => {
            result.append("Some(");
            result.append(quote(text.as_str()).as_str());
            result.append(")");
            assert(result@ =~= optional_text(Some(text@)));
        },
        None => {
            result.append("None");
            assert(result@ =~= optional_text(None));
        },
    }
    result
}

/// Appends `true` or `false`.
pub fn append_flag(out: &mut String, flag: bool)
    ensures
        final(out)@ == old(out)@ + flag_text(flag),
{
    if flag {
        out.append("true");
    } else {
        out.append("false");
    }
}

/// The one-character text of a decimal digit.
fn digit_text(d: u64) -> (text: &'static str)
    requires
        d < 10,
    ensures
        text@ == seq![digit_char(d as nat)],
{
    proof {
        reveal_strlit("0");
        reveal_strlit("1");
        reveal_strlit("2");
        reveal_strlit("3");
        reveal_strlit("4");
        reveal_strlit("5");
        reveal_strlit("6");
        reveal_strlit("7");
        reveal_strlit("8");
        reveal_strlit("9");
    }
    let text: &'static str = match d {
        0 => "0",
        1 => "1",
        2 => "2",
        3 => "3",
        4 => "4",
        5 => "5",
        6 => "6",
        7 => "7",
        8 => "8",
        _ => "9",
    };
    assert(text@ =~= seq![digit_char(d as nat)]);
    text
}

/// `n` written in decimal.
pub fn number_text(n: u64) -> (text: String)
    ensures
        text@ == decimal_text(n as nat),
    decreases n,
{
    if n < 10 {
        let mut text = String::new();
        text.append(digit_text(n));
        assert(text@ =~= decimal_text(n as nat));
        text
    } else {
        let mut text = number_text(n / 10);
        text.append(digit_text(n % 10));
        assert(text@ =~= decimal_text(n as nat));
        text
    }
}

} // verus!
