//! Text helpers: decimal rendering with thousands separators, digit parsing,
//! trimming and case-insensitive comparison.

use vstd::prelude::*;
use vstd::string::StringExecFns;
use vstd::string::StrSliceExecFns;

verus! {

/// `String::push` of the standard library: appends one character to the end
/// of the string and leaves the characters before it unchanged.
pub assume_specification[ String::push ](s: &mut String, c: char)
    ensures
        final(s)@ == old(s)@.push(c),
;

/// The character that stands for the decimal digit `d`.
pub open spec fn digit_char(d: int) -> char
    recommends
        0 <= d < 10,
{
    (48 + d) as u8 as char
}

/// The decimal digits of `n`, most significant first, without leading zeros.
pub open spec fn nat_text(n: nat) -> Seq<char>
    decreases n,
{
    if n < 10 {
        seq![digit_char(n as int)]
    } else {
        nat_text(n / 10).push(digit_char((n % 10) as int))
    }
}

/// The decimal text of `n`, with a leading minus sign where it is negative.
pub open spec fn int_text(n: int) -> Seq<char> {
    if n < 0 {
        seq!['-'] + nat_text((-n) as nat)
    } else {
        nat_text(n as nat)
    }
}

/// `s` cut into groups of three counted from the right, the groups joined by
/// commas. The leftmost group holds what is left, a sign included.
pub open spec fn grouped(s: Seq<char>) -> Seq<char>
    decreases s.len(),
{
    if s.len() <= 3 {
        s
    } else {
        grouped(s.subrange(0, s.len() - 3)).push(',') + s.subrange(s.len() - 3, s.len() as int)
    }
}

fn push_digits(n: u64, out: &mut Vec<char>)
    ensures
        final(out)@ == old(out)@ + nat_text(n as nat),
    decreases n,
{
    if n < 10 {
        out.push((48u8 + n as u8) as char);
    } else {
        push_digits(n / 10, out);
        out.push((48u8 + (n % 10) as u8) as char);
    }
}

fn push_grouped(text: &Vec<char>, end: usize, out: &mut String)
    requires
        end <= text@.len(),
    ensures
        final(out)@ == old(out)@ + grouped(text@.subrange(0, end as int)),
    decreases end,
{
    if end <= 3 {
        let mut i: usize = 0;
        while i < end
            invariant
                i <= end <= text@.len(),
                out@ == old(out)@ + text@.subrange(0, i as int),
            decreases end - i,
        {
            out.push(text[i]);
            i += 1;
            assert(text@.subrange(0, i as int) =~= text@.subrange(0, i - 1).push(text@[i - 1]));
        }
    } else {
        push_grouped(text, end - 3, out);
        out.push(',');
        let ghost head = text@.subrange(0, end as int);
        assert(head.subrange(0, head.len() - 3) =~= text@.subrange(0, end - 3));
        let ghost before = out@;
        let mut i: usize = end - 3;
        while i < end
            invariant
                3 < end,
                end - 3 <= i <= end <= text@.len(),
                out@ == before + text@.subrange(end - 3, i as int),
            decreases end - i,
        {
            out.push(text[i]);
            i += 1;
            assert(text@.subrange(end - 3, i as int) =~= text@.subrange(end - 3, i - 1).push(
                text@[i - 1],
            ));
        }
        assert(head.subrange(head.len() - 3, head.len() as int) =~= text@.subrange(
            end - 3,
            end as int,
        ));
    }
}

/// The magnitude of `n`, which fits a `u64` for every `i64`.
fn magnitude(n: i64) -> (m: u64)
    ensures
        m == if n < 0 { -(n as int) } else { n as int },
{
    if n < 0 {
        ((-(n + 1)) as u64) + 1
    } else {
        n as u64
    }
}

/// Renders `n` in decimal with a comma before every group of three
/// characters counted from the right.
pub fn format_number(n: i64) -> (r: String)
    ensures
        r@ == grouped(int_text(n as int)),
{
    let mut text: Vec<char> = Vec::new();
    if n < 0 {
        text.push('-');
    }
    push_digits(magnitude(n), &mut text);
    assert(text@ =~= int_text(n as int));
    let mut out = String::new();
    push_grouped(&text, text.len(), &mut out);
    assert(text@.subrange(0, text@.len() as int) =~= text@);
    out
}

/// Renders `n` in plain decimal.
pub fn number_text(n: i64) -> (r: String)
    ensures
        r@ == int_text(n as int),
{
    let mut text: Vec<char> = Vec::new();
    if n < 0 {
        text.push('-');
    }
    push_digits(magnitude(n), &mut text);
    assert(text@ =~= int_text(n as int));
    let out = from_chars(&text, 0, text.len());
    assert(text@.subrange(0, text@.len() as int) =~= text@);
    out
}

/// Renders the unsigned `n` in plain decimal.
pub fn unsigned_text(n: u64) -> (r: String)
    ensures
        r@ == int_text(n as int),
{
    let mut text: Vec<char> = Vec::new();
    push_digits(n, &mut text);
    assert(text@ =~= int_text(n as int));
    let out = from_chars(&text, 0, text.len());
    assert(text@.subrange(0, text@.len() as int) =~= text@);
    out
}

/// Renders the count `n` in decimal with a comma before every group of
/// three digits counted from the right.
pub fn format_count(n: usize) -> (r: String)
    ensures
        r@ == grouped(int_text(n as int)),
{
    let mut text: Vec<char> = Vec::new();
    push_digits(n as u64, &mut text);
    assert(text@ =~= int_text(n as int));
    let mut out = String::new();
    push_grouped(&text, text.len(), &mut out);
    assert(text@.subrange(0, text@.len() as int) =~= text@);
    out
}

/// `format_number(n)` followed by the unit `" gp"`.
pub fn format_gp(n: i64) -> (r: String)
    ensures
        r@ == grouped(int_text(n as int)) + " gp"@,
{
    let mut out = format_number(n);
    out.append(" gp");
    out
}

/// `format_number(n)` followed by the unit `" points"`.
pub fn format_points(n: i64) -> (r: String)
    ensures
        r@ == grouped(int_text(n as int)) + " points"@,
{
    let mut out = format_number(n);
    out.append(" points");
    out
}

/// `c` with the letters `A` to `Z` turned into lower case and every other
/// character left as it is.
pub open spec fn fold_ascii(c: char) -> char {
    if 'A' <= c && c <= 'Z' {
        ((c as u8) + 32) as char
    } else {
        c
    }
}

/// The two handles are the same but for the case of the letters `A` to `Z`.
pub open spec fn same_handle(a: Seq<char>, b: Seq<char>) -> bool {
    &&& a.len() == b.len()
    &&& forall|i: int| 0 <= i < a.len() ==> fold_ascii(#[trigger] a[i]) == fold_ascii(b[i])
}

/// Folds one character as `fold_ascii` does.
pub fn fold_char(c: char) -> (r: char)
    ensures
        r == fold_ascii(c),
{
    if 'A' <= c && c <= 'Z' {
        ((c as u8) + 32) as char
    } else {
        c
    }
}

/// Compares two handles without regard to the case of `A` to `Z`.
pub fn handles_match(a: &str, b: &str) -> (r: bool)
    ensures
        r == same_handle(a@, b@),
{
    let n = a.unicode_len();
    if n != b.unicode_len() {
        return false;
    }
    let mut i: usize = 0;
    while i < n
        invariant
            n == a@.len(),
            n == b@.len(),
            i <= n,
            forall|k: int| 0 <= k < i ==> fold_ascii(#[trigger] a@[k]) == fold_ascii(b@[k]),
        decreases n - i,
    {
        if fold_char(a.get_char(i)) != fold_char(b.get_char(i)) {
            return false;
        }
        i += 1;
    }
    true
}

/// Being the same handle is symmetric and transitive.
pub proof fn lemma_same_handle_equivalence()
    ensures
        forall|a: Seq<char>, b: Seq<char>| #[trigger] same_handle(a, b) ==> same_handle(b, a),
        forall|a: Seq<char>, b: Seq<char>, c: Seq<char>|
            #[trigger] same_handle(a, b) && #[trigger] same_handle(c, b) ==> same_handle(a, c),
{
    assert forall|a: Seq<char>, b: Seq<char>| #[trigger] same_handle(a, b) implies same_handle(
        b,
        a,
    ) by {
        assert forall|i: int| 0 <= i < b.len() implies fold_ascii(#[trigger] b[i]) == fold_ascii(
            a[i],
        ) by {
            assert(fold_ascii(a[i]) == fold_ascii(b[i]));
        }
    }
    assert forall|a: Seq<char>, b: Seq<char>, c: Seq<char>| #[trigger]
        same_handle(a, b) && #[trigger] same_handle(c, b) implies same_handle(a, c) by {
        assert forall|i: int| 0 <= i < a.len() implies fold_ascii(#[trigger] a[i]) == fold_ascii(
            c[i],
        ) by {
            assert(fold_ascii(a[i]) == fold_ascii(b[i]));
            assert(fold_ascii(c[i]) == fold_ascii(b[i]));
        }
    }
}

/// `c` is white space: one of the characters that Unicode gives the
/// property `White_Space`.
pub open spec fn is_space(c: char) -> bool {
    let n = c as u32;
    ||| 0x09 <= n <= 0x0D
    ||| n == 0x20
    ||| n == 0x85
    ||| n == 0xA0
    ||| n == 0x1680
    ||| 0x2000 <= n <= 0x200A
    ||| n == 0x2028
    ||| n == 0x2029
    ||| n == 0x202F
    ||| n == 0x205F
    ||| n == 0x3000
}

/// How many characters at the front of `s` are white space.
pub open spec fn leading_spaces(s: Seq<char>) -> nat
    decreases s.len(),
{
    if s.len() > 0 && is_space(s[0]) {
        1 + leading_spaces(s.subrange(1, s.len() as int))
    } else {
        0
    }
}

/// How many characters at the back of `s` are white space.
pub open spec fn trailing_spaces(s: Seq<char>) -> nat
    decreases s.len(),
{
    if s.len() > 0 && is_space(s.last()) {
        1 + trailing_spaces(s.drop_last())
    } else {
        0
    }
}

/// `s` without the white space at its front and at its back.
pub open spec fn trimmed(s: Seq<char>) -> Seq<char> {
    let front = s.subrange(leading_spaces(s) as int, s.len() as int);
    front.subrange(0, front.len() - trailing_spaces(front))
}

/// `leading_spaces` counts a run of white space that ends before the first
/// other character.
pub proof fn lemma_leading_spaces(s: Seq<char>, n: int)
    requires
        0 <= n <= s.len(),
        forall|k: int| 0 <= k < n ==> is_space(#[trigger] s[k]),
        n < s.len() ==> !is_space(s[n]),
    ensures
        leading_spaces(s) == n,
    decreases n,
{
    if n > 0 {
        let rest = s.subrange(1, s.len() as int);
        assert forall|k: int| 0 <= k < n - 1 implies is_space(#[trigger] rest[k]) by {
            assert(rest[k] == s[k + 1]);
        }
        if n < s.len() {
            assert(rest[n - 1] == s[n]);
        }
        lemma_leading_spaces(rest, n - 1);
    }
}

/// `trailing_spaces` counts a run of white space that starts after the
/// last other character.
pub proof fn lemma_trailing_spaces(s: Seq<char>, n: int)
    requires
        0 <= n <= s.len(),
        forall|k: int| s.len() - n <= k < s.len() ==> is_space(#[trigger] s[k]),
        n < s.len() ==> !is_space(s[s.len() - n - 1]),
    ensures
        trailing_spaces(s) == n,
    decreases n,
{
    if n > 0 {
        let rest = s.drop_last();
        assert forall|k: int| rest.len() - (n - 1) <= k < rest.len() implies is_space(
            #[trigger] rest[k],
        ) by {
            assert(rest[k] == s[k]);
        }
        if n < s.len() {
            assert(rest[rest.len() - (n - 1) - 1] == s[s.len() - n - 1]);
        }
        lemma_trailing_spaces(rest, n - 1);
    }
}

/// Whether `c` is white space.
pub fn is_space_char(c: char) -> (r: bool)
    ensures
        r == is_space(c),
{
    let n = c as u32;
    (0x09 <= n && n <= 0x0D) || n == 0x20 || n == 0x85 || n == 0xA0 || n == 0x1680 || (0x2000 <= n
        && n <= 0x200A) || n == 0x2028 || n == 0x2029 || n == 0x202F || n == 0x205F || n == 0x3000
}

/// The characters of `s`.
pub fn to_chars(s: &str) -> (r: Vec<char>)
    ensures
        r@ == s@,
{
    let n = s.unicode_len();
    let mut out: Vec<char> = Vec::new();
    let mut i: usize = 0;
    while i < n
        invariant
            n == s@.len(),
            i <= n,
            out@ == s@.subrange(0, i as int),
        decreases n - i,
    {
        out.push(s.get_char(i));
        assert(s@.subrange(0, i + 1) =~= s@.subrange(0, i as int).push(s@[i as int]));
        i += 1;
    }
    assert(s@.subrange(0, n as int) =~= s@);
    out
}

/// The string made of the characters of `chars` from `from` up to `to`.
pub fn from_chars(chars: &Vec<char>, from: usize, to: usize) -> (r: String)
    requires
        from <= to <= chars@.len(),
    ensures
        r@ == chars@.subrange(from as int, to as int),
{
    let mut out = String::new();
    let mut i: usize = from;
    while i < to
        invariant
            from <= i <= to <= chars@.len(),
            out@ == chars@.subrange(from as int, i as int),
        decreases to - i,
    {
        out.push(chars[i]);
        assert(chars@.subrange(from as int, i + 1) =~= chars@.subrange(from as int, i as int).push(
            chars@[i as int],
        ));
        i += 1;
    }
    out
}

/// `s` without the white space at its front and at its back.
pub fn trim(s: &str) -> (r: String)
    ensures
        r@ == trimmed(s@),
{
    let chars = to_chars(s);
    let n = chars.len();
    let mut from: usize = 0;
    while from < n && is_space_char(chars[from])
        invariant
            n == chars@.len(),
            from <= n,
            forall|k: int| 0 <= k < from ==> is_space(#[trigger] chars@[k]),
        decreases n - from,
    {
        from += 1;
    }
    let mut to: usize = n;
    while to > from && is_space_char(chars[to - 1])
        invariant
            n == chars@.len(),
            from <= to <= n,
            forall|k: int| to <= k < n ==> is_space(#[trigger] chars@[k]),
        decreases to,
    {
        to -= 1;
    }
    proof {
        lemma_leading_spaces(chars@, from as int);
        let front = chars@.subrange(from as int, n as int);
        assert forall|k: int| front.len() - (n - to) <= k < front.len() implies is_space(
            #[trigger] front[k],
        ) by {
            assert(front[k] == chars@[k + from]);
        }
        if n - to < front.len() {
            assert(front[front.len() - (n - to) - 1] == chars@[to - 1]);
        }
        lemma_trailing_spaces(front, n - to);
        assert(front.subrange(0, front.len() - (n - to)) =~= chars@.subrange(
            from as int,
            to as int,
        ));
    }
    from_chars(&chars, from, to)
}

/// `c` is one of the digits `0` to `9`.
pub open spec fn is_digit(c: char) -> bool {
    '0' <= c && c <= '9'
}

/// Every character of `s` is a digit.
pub open spec fn all_digits(s: Seq<char>) -> bool {
    forall|i: int| 0 <= i < s.len() ==> is_digit(#[trigger] s[i])
}

/// The number that the digits of `s` write in decimal.
pub open spec fn digits_value(s: Seq<char>) -> nat
    decreases s.len(),
{
    if s.len() == 0 {
        0
    } else {
        digits_value(s.drop_last()) * 10 + ((s.last() as u32 - 48) as nat)
    }
}

/// The integer that `s` writes: an optional sign `+` or `-`, then one or
/// more digits and nothing else, and a value that fits 64 bits. `None` for
/// every other text.
pub open spec fn parsed_i64(s: Seq<char>) -> Option<i64> {
    let signed = s.len() > 0 && (s[0] == '-' || s[0] == '+');
    let digits = if signed {
        s.subrange(1, s.len() as int)
    } else {
        s
    };
    let value = if s.len() > 0 && s[0] == '-' {
        -(digits_value(digits) as int)
    } else {
        digits_value(digits) as int
    };
    if digits.len() > 0 && all_digits(digits) && i64::MIN <= value <= i64::MAX {
        Some(value as i64)
    } else {
        None
    }
}

/// Digits added at the end never lower the value.
pub proof fn lemma_digits_value_grows(s: Seq<char>, i: int)
    requires
        0 <= i <= s.len(),
        all_digits(s),
    ensures
        digits_value(s.subrange(0, i)) <= digits_value(s),
    decreases s.len() - i,
{
    if i < s.len() {
        let next = s.subrange(0, i + 1);
        assert(next.drop_last() =~= s.subrange(0, i));
        assert(is_digit(s[i]));
        assert(next.last() == s[i]);
        lemma_digits_value_grows(s, i + 1);
    } else {
        assert(s.subrange(0, i) =~= s);
    }
}

/// Reads a decimal integer as `parsed_i64` says.
pub fn parse_i64(s: &str) -> (r: Option<i64>)
    ensures
        r == parsed_i64(s@),
{
    let chars = to_chars(s);
    let n = chars.len();
    if n == 0 {
        return None;
    }
    let negative = chars[0] == '-';
    let start: usize = if chars[0] == '-' || chars[0] == '+' {
        1
    } else {
        0
    };
    if start == n {
        return None;
    }
    let ghost digits = chars@.subrange(start as int, n as int);
    let limit: u64 = 9_223_372_036_854_775_808;
    let mut acc: u64 = 0;
    let mut i: usize = start;
    assert(digits.subrange(0, 0) =~= Seq::<char>::empty());
    while i < n
        invariant
            n == chars@.len(),
            chars@ == s@,
            n > 0,
            negative == (chars@[0] == '-'),
            start == if chars@[0] == '-' || chars@[0] == '+' { 1int } else { 0int },
            start <= i <= n,
            digits == chars@.subrange(start as int, n as int),
            limit == 9_223_372_036_854_775_808,
            acc == digits_value(digits.subrange(0, i - start)),
            acc <= limit,
            forall|k: int| 0 <= k < i - start ==> is_digit(#[trigger] digits[k]),
        decreases n - i,
    {
        let c = chars[i];
        assert(c == digits[i - start]);
        if !('0' <= c && c <= '9') {
            assert(!is_digit(digits[i - start]));
            if start == 0 {
                assert(digits =~= s@);
            }
            return None;
        }
        let d = (c as u32 - 48) as u64;
        let ghost next = digits.subrange(0, i - start + 1);
        proof {
            assert(next.drop_last() =~= digits.subrange(0, i - start));
            assert(next.last() == c);
        }
        if acc > (limit - d) / 10 {
            proof {
                assert(digits_value(next) > limit);
                if all_digits(digits) {
                    lemma_digits_value_grows(digits, i - start + 1);
                }
                if start == 0 {
                    assert(digits =~= s@);
                }
            }
            return None;
        }
        acc = acc * 10 + d;
        i += 1;
    }
    proof {
        assert(digits.subrange(0, n - start) =~= digits);
        assert(all_digits(digits));
        if start == 0 {
            assert(digits =~= s@);
        }
    }
    if negative {
        if acc == limit {
            Some(i64::MIN)
        } else {
            Some(-(acc as i64))
        }
    } else {
        if acc == limit {
            None
        } else {
            Some(acc as i64)
        }
    }
}

/// `s` without its commas.
pub open spec fn without_commas(s: Seq<char>) -> Seq<char>
    decreases s.len(),
{
    if s.len() == 0 {
        s
    } else if s.last() == ',' {
        without_commas(s.drop_last())
    } else {
        without_commas(s.drop_last()).push(s.last())
    }
}

/// Takes the commas out of `s`.
pub fn strip_commas(s: &str) -> (r: String)
    ensures
        r@ == without_commas(s@),
{
    let chars = to_chars(s);
    let mut out = String::new();
    let mut i: usize = 0;
    assert(chars@.subrange(0, 0) =~= Seq::<char>::empty());
    while i < chars.len()
        invariant
            i <= chars@.len(),
            out@ == without_commas(chars@.subrange(0, i as int)),
        decreases chars@.len() - i,
    {
        proof {
            let head = chars@.subrange(0, i as int);
            assert(chars@.subrange(0, i + 1).drop_last() =~= head);
        }
        if chars[i] != ',' {
            out.push(chars[i]);
        }
        i += 1;
    }
    assert(chars@.subrange(0, i as int) =~= chars@);
    out
}

/// What `str::to_lowercase` of the standard library returns for `s`: its
/// characters mapped to lower case as Unicode defines it.
pub uninterp spec fn lowercased(s: Seq<char>) -> Seq<char>;

/// `str::to_lowercase` of the standard library. The contract gives the
/// result its name and claims nothing of the mapping itself.
#[verifier::external_body]
pub(crate) fn lowercase(s: &str) -> (r: String)
    ensures
        r@ == lowercased(s@),
{
    s.to_lowercase()
}

/// `needle` occurs in `hay` as a run of adjacent characters.
pub open spec fn has_substring(hay: Seq<char>, needle: Seq<char>) -> bool {
    exists|i: int|
        0 <= i <= hay.len() - needle.len() && #[trigger] hay.subrange(i, i + needle.len())
            == needle
}

fn occurs_at(hay: &Vec<char>, needle: &Vec<char>, at: usize) -> (r: bool)
    requires
        at + needle@.len() <= hay@.len(),
    ensures
        r == (hay@.subrange(at as int, at + needle@.len()) == needle@),
{
    let total = hay.len();
    let mut j: usize = 0;
    while j < needle.len()
        invariant
            j <= needle@.len(),
            at + needle@.len() <= hay@.len(),
            hay@.len() == total,
            forall|k: int| 0 <= k < j ==> hay@[at + k] == #[trigger] needle@[k],
        decreases needle@.len() - j,
    {
        if hay[at + j] != needle[j] {
            assert(hay@.subrange(at as int, at + needle@.len())[j as int] != needle@[j as int]);
            return false;
        }
        j += 1;
    }
    assert(hay@.subrange(at as int, at + needle@.len()) =~= needle@);
    true
}

/// Whether `needle` occurs in `hay`.
pub fn contains_chars(hay: &Vec<char>, needle: &Vec<char>) -> (r: bool)
    ensures
        r == has_substring(hay@, needle@),
{
    if needle.len() > hay.len() {
        return false;
    }
    let last = hay.len() - needle.len();
    let mut i: usize = 0;
    while i < last
        invariant
            i <= last,
            last == hay@.len() - needle@.len(),
            forall|k: int| 0 <= k < i ==> #[trigger] hay@.subrange(k, k + needle@.len()) != needle@,
        decreases last - i,
    {
        if occurs_at(hay, needle, i) {
            return true;
        }
        i += 1;
    }
    occurs_at(hay, needle, last)
}

/// The most names that one list of suggestions holds.
pub const MAX_SUGGESTIONS: usize = 25;

/// `name` is suggested for the typed text `partial`: letter case aside,
/// `partial` occurs in it.
pub open spec fn is_suggested(name: Seq<char>, partial: Seq<char>) -> bool {
    has_substring(lowercased(name), lowercased(partial))
}

/// The names of `names` suggested for `partial`, in their order.
pub open spec fn suggested(names: Seq<Seq<char>>, partial: Seq<char>) -> Seq<Seq<char>>
    decreases names.len(),
{
    if names.len() == 0 {
        Seq::empty()
    } else if is_suggested(names.last(), partial) {
        suggested(names.drop_last(), partial).push(names.last())
    } else {
        suggested(names.drop_last(), partial)
    }
}

/// The first `limit` elements of `s`, or all of them where there are fewer.
pub open spec fn first_of(s: Seq<Seq<char>>, limit: int) -> Seq<Seq<char>> {
    if s.len() <= limit {
        s
    } else {
        s.subrange(0, limit)
    }
}

/// The characters of an optional string.
pub open spec fn opt_view(o: Option<String>) -> Option<Seq<char>> {
    match o {
        Some(s) => Some(s@),
        None => None,
    }
}

/// The characters of each string of `v`.
pub open spec fn strings_view(v: Seq<String>) -> Seq<Seq<char>> {
    Seq::new(v.len(), |i: int| v[i]@)
}

/// The first 25 names of `names` in which `partial` occurs, letter case
/// aside.
pub fn suggest(names: &Vec<String>, partial: &str) -> (out: Vec<String>)
    ensures
        strings_view(out@) == first_of(suggested(strings_view(names@), partial@), 25),
{
    let wanted = to_chars(lowercase(partial).as_str());
    let ghost all = strings_view(names@);
    let mut out: Vec<String> = Vec::new();
    let mut i: usize = 0;
    assert(all.subrange(0, 0) =~= Seq::<Seq<char>>::empty());
    assert(strings_view(out@) =~= first_of(suggested(all.subrange(0, 0), partial@), 25));
    while i < names.len()
        invariant
            i <= names@.len(),
            all == strings_view(names@),
            wanted@ == lowercased(partial@),
            strings_view(out@) == first_of(suggested(all.subrange(0, i as int), partial@), 25),
        decreases names@.len() - i,
    {
        let ghost shown = strings_view(out@);
        let ghost found = suggested(all.subrange(0, i as int), partial@);
        proof {
            assert(all.subrange(0, i + 1).drop_last() =~= all.subrange(0, i as int));
            assert(all.subrange(0, i + 1).last() == names@[i as int]@);
        }
        if out.len() < MAX_SUGGESTIONS {
            let folded = to_chars(lowercase(names[i].as_str()).as_str());
            if contains_chars(&folded, &wanted) {
                out.push(names[i].clone());
                proof {
                    assert(strings_view(out@) =~= shown.push(names@[i as int]@));
                    assert(first_of(found.push(names@[i as int]@), 25) =~= found.push(
                        names@[i as int]@,
                    ));
                }
            }
        } else {
            proof {
                assert(first_of(found.push(names@[i as int]@), 25) =~= first_of(found, 25));
            }
        }
        i += 1;
    }
    assert(all.subrange(0, i as int) =~= all);
    out
}

/// The texts of `parts` with `separator` between each two.
pub open spec fn joined_with(parts: Seq<Seq<char>>, separator: Seq<char>) -> Seq<char>
    decreases parts.len(),
{
    if parts.len() == 0 {
        Seq::empty()
    } else if parts.len() == 1 {
        parts[0]
    } else {
        joined_with(parts.drop_last(), separator) + separator + parts.last()
    }
}

/// Joins `parts` with `separator` between each two.
pub fn join_with(parts: &Vec<String>, separator: &str) -> (r: String)
    ensures
        r@ == joined_with(strings_view(parts@), separator@),
{
    let ghost all = strings_view(parts@);
    let mut out = String::new();
    if parts.len() == 0 {
        return out;
    }
    out.append(parts[0].as_str());
    assert(out@ =~= parts@[0]@);
    assert(all.subrange(0, 1).len() == 1);
    let mut i: usize = 1;
    while i < parts.len()
        invariant
            all == strings_view(parts@),
            1 <= i <= parts@.len(),
            out@ == joined_with(all.subrange(0, i as int), separator@),
        decreases parts@.len() - i,
    {
        out.append(separator);
        out.append(parts[i].as_str());
        assert(all.subrange(0, i + 1).drop_last() =~= all.subrange(0, i as int));
        i += 1;
    }
    assert(all.subrange(0, i as int) =~= all);
    out
}

/// The unsigned integer that `s` writes: an optional sign `+`, then one or
/// more digits and nothing else, and a value that fits 64 bits. `None` for
/// every other text.
pub open spec fn parsed_u64(s: Seq<char>) -> Option<u64> {
    let digits = if s.len() > 0 && s[0] == '+' {
        s.subrange(1, s.len() as int)
    } else {
        s
    };
    if digits.len() > 0 && all_digits(digits) && digits_value(digits) <= u64::MAX {
        Some(digits_value(digits) as u64)
    } else {
        None
    }
}

/// Reads an unsigned decimal integer as `parsed_u64` says.
pub fn parse_u64(s: &str) -> (r: Option<u64>)
    ensures
        r == parsed_u64(s@),
{
    let chars = to_chars(s);
    let n = chars.len();
    if n == 0 {
        return None;
    }
    let start: usize = if chars[0] == '+' {
        1
    } else {
        0
    };
    if start == n {
        return None;
    }
    let ghost digits = chars@.subrange(start as int, n as int);
    let mut acc: u64 = 0;
    let mut i: usize = start;
    assert(digits.subrange(0, 0) =~= Seq::<char>::empty());
    while i < n
        invariant
            n == chars@.len(),
            chars@ == s@,
            n > 0,
            start == if chars@[0] == '+' { 1int } else { 0int },
            start <= i <= n,
            digits == chars@.subrange(start as int, n as int),
            acc == digits_value(digits.subrange(0, i - start)),
            forall|k: int| 0 <= k < i - start ==> is_digit(#[trigger] digits[k]),
        decreases n - i,
    {
        let c = chars[i];
        assert(c == digits[i - start]);
        if !('0' <= c && c <= '9') {
            assert(!is_digit(digits[i - start]));
            if start == 0 {
                assert(digits =~= s@);
            }
            return None;
        }
        let d = (c as u32 - 48) as u64;
        let ghost next = digits.subrange(0, i - start + 1);
        proof {
            assert(next.drop_last() =~= digits.subrange(0, i - start));
            assert(next.last() == c);
        }
        if acc > (u64::MAX - d) / 10 {
            proof {
                assert(digits_value(next) > u64::MAX);
                if all_digits(digits) {
                    lemma_digits_value_grows(digits, i - start + 1);
                }
                if start == 0 {
                    assert(digits =~= s@);
                }
            }
            return None;
        }
        acc = acc * 10 + d;
        i += 1;
    }
    proof {
        assert(digits.subrange(0, n - start) =~= digits);
        assert(all_digits(digits));
        if start == 0 {
            assert(digits =~= s@);
        }
    }
    Some(acc)
}

} // verus!
