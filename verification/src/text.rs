//! Text as sequences of characters: order, prefixes, trimming and zero-padded numbers.

use vstd::prelude::*;

verus! {

/// Whether `a` comes strictly before `b` in dictionary order of code points, which is the order
/// that `<` gives to string slices.
pub open spec fn comes_before(a: Seq<char>, b: Seq<char>) -> bool {
    exists|k: int| parts_at(a, b, k)
}

/// `a` and `b` share their first `k` characters, and there `a` ends or holds the smaller one.
pub open spec fn parts_at(a: Seq<char>, b: Seq<char>, k: int) -> bool {
    &&& 0 <= k <= a.len()
    &&& k < b.len()
    &&& forall|i: int| 0 <= i < k ==> a[i] == b[i]
    &&& k == a.len() || a[k] < b[k]
}

/// The characters that carry the Unicode property `White_Space`.
pub open spec fn is_white_space(c: char) -> bool {
    let n = c as int;
    ||| 0x9 <= n <= 0xd
    ||| n == 0x20 || n == 0x85 || n == 0xa0 || n == 0x1680
    ||| 0x2000 <= n <= 0x200a
    ||| n == 0x2028 || n == 0x2029 || n == 0x202f || n == 0x205f || n == 0x3000
}

/// `s` without its leading white space.
pub open spec fn trimmed_start(s: Seq<char>) -> Seq<char>
    decreases s.len(),
{
    if s.len() > 0 && is_white_space(s.first()) {
        trimmed_start(s.drop_first())
    } else {
        s
    }
}

/// `s` without its trailing white space.
pub open spec fn trimmed_end(s: Seq<char>) -> Seq<char>
    decreases s.len(),
{
    if s.len() > 0 && is_white_space(s.last()) {
        trimmed_end(s.drop_last())
    } else {
        s
    }
}

/// `s` without the white space at either end.
pub open spec fn trimmed(s: Seq<char>) -> Seq<char> {
    trimmed_end(trimmed_start(s))
}

/// The character that stands for the digit `d`.
pub open spec fn digit(d: int) -> char {
    ('0' as int + d) as char
}

/// `n` in base ten, without leading zeros; this is how `{}` prints an unsigned integer.
pub open spec fn decimal(n: nat) -> Seq<char>
    decreases n,
{
    if n < 10 {
        seq![digit(n as int)]
    } else {
        decimal(n / 10).push(digit((n % 10) as int))
    }
}

/// `count` times the character `0`.
pub open spec fn zeros(count: nat) -> Seq<char> {
    Seq::new(count, |i: int| '0')
}

/// `n` in base ten with zeros in front up to `width` characters, as in `{:02}`.
pub open spec fn zero_padded(n: nat, width: nat) -> Seq<char> {
    let digits = decimal(n);
    if digits.len() < width {
        zeros((width - digits.len()) as nat) + digits
    } else {
        digits
    }
}

/// A signed number padded with zeros after its sign; the sign counts towards `width`.
pub open spec fn signed_zero_padded(n: int, width: nat) -> Seq<char> {
    if n < 0 {
        seq!['-'] + zero_padded((-n) as nat, if width > 0 { (width - 1) as nat } else { 0 })
    } else {
        zero_padded(n as nat, width)
    }
}

/// The number that a sequence of digits denotes.
pub open spec fn number_of(digits: Seq<char>) -> int
    decreases digits.len(),
{
    if digits.len() == 0 {
        0
    } else {
        number_of(digits.drop_last()) * 10 + (digits.last() as int - '0' as int)
    }
}

/// Whether every character is one of `0` to `9`.
pub open spec fn all_digits(s: Seq<char>) -> bool {
    forall|i: int| 0 <= i < s.len() ==> '0' <= #[trigger] s[i] <= '9'
}

/// The characters of an optional text.
pub open spec fn optional(s: Option<String>) -> Option<Seq<char>> {
    match s {
        Some(s) => Some(s@),
        None => None,
    }
}

/// `str::trim` removes exactly the white space at both ends, where white space is what has the
/// Unicode property `White_Space`.
pub assume_specification[ str::trim ](s: &str) -> (inner: &str)
    ensures
        inner@ == trimmed(s@),
;

/// The characters of `s`, in order.
pub(crate) fn chars_of(s: &str) -> (chars: Vec<char>)
    ensures
        chars@ == s@,
{
    let mut chars: Vec<char> = Vec::new();
    for c in it: s.chars()
        invariant
            it.seq() == s@,
            chars@ == s@.take(it.index() as int),
    {
        chars.push(c);
    }
    chars
}

/// Whether the two texts hold the same characters.
pub(crate) fn same_text(a: &str, b: &str) -> (same: bool)
    ensures
        same == (a@ == b@),
{
    a.to_owned() == b.to_owned()
}

/// Whether `s` begins with `prefix`.
pub(crate) fn starts_with(s: &str, prefix: &str) -> (found: bool)
    ensures
        found == prefix@.is_prefix_of(s@),
{
    let s_chars = chars_of(s);
    let p_chars = chars_of(prefix);
    if p_chars.len() > s_chars.len() {
        return false;
    }
    for i in 0..p_chars.len()
        invariant
            s_chars@ == s@,
            p_chars@ == prefix@,
            p_chars.len() <= s_chars.len(),
            forall|j: int| 0 <= j < i ==> p_chars[j] == s_chars[j],
    {
        if p_chars[i] != s_chars[i] {
            proof {
                assert(s@.subrange(0, prefix@.len() as int)[i as int] == s@[i as int]);
            }
            return false;
        }
    }
    proof {
        assert(prefix@ =~= s@.subrange(0, prefix@.len() as int));
    }
    true
}

/// Whether `s` ends with `suffix`.
pub(crate) fn ends_with(s: &str, suffix: &str) -> (found: bool)
    ensures
        found == suffix@.is_suffix_of(s@),
{
    let s_chars = chars_of(s);
    let x_chars = chars_of(suffix);
    if x_chars.len() > s_chars.len() {
        return false;
    }
    let start: usize = s_chars.len() - x_chars.len();
    for i in 0..x_chars.len()
        invariant
            s_chars@ == s@,
            x_chars@ == suffix@,
            start + x_chars.len() == s_chars.len(),
            forall|j: int| 0 <= j < i ==> x_chars[j] == s_chars[start + j],
    {
        if x_chars[i] != s_chars[start + i] {
            proof {
                assert(s@.subrange(start as int, s@.len() as int)[i as int] == s@[start + i]);
            }
            return false;
        }
    }
    proof {
        assert(suffix@ =~= s@.subrange(start as int, s@.len() as int));
    }
    true
}

/// Whether `a` comes strictly before `b` in dictionary order.
pub(crate) fn is_before(a: &str, b: &str) -> (before: bool)
    ensures
        before == comes_before(a@, b@),
{
    let a_chars = chars_of(a);
    let b_chars = chars_of(b);
    let mut i: usize = 0;
    while i < a_chars.len() && i < b_chars.len() && a_chars[i] == b_chars[i]
        invariant
            a_chars@ == a@,
            b_chars@ == b@,
            i <= a_chars.len(),
            i <= b_chars.len(),
            forall|j: int| 0 <= j < i ==> a_chars[j] == b_chars[j],
        decreases a_chars.len() - i,
    {
        i += 1;
    }
    let before = i < b_chars.len() && (i == a_chars.len() || a_chars[i] < b_chars[i]);
    proof {
        if before {
            assert(parts_at(a@, b@, i as int));
        } else if comes_before(a@, b@) {
            let k = choose|k: int| parts_at(a@, b@, k);
            if k > i {
                assert(a@[i as int] == b@[i as int]);
            }
        }
    }
    before
}

/// The text of the digit `d`.
fn digit_text(d: u32) -> (text: &'static str)
    requires
        d < 10,
    ensures
        text@ == seq![digit(d as int)],
{
    proof {
        reveal_strlit("0");
        reveal_strlit("1");
        reveal_strlit("2");
        reveal_strlit("3");
        reveal_strlit("4");
        reveal_strlit("5");
        reveal_strlit("6");
        reveal_strlit("7");
        reveal_strlit("8");
        reveal_strlit("9");
    }
    match d {
        0 => "0",
        1 => "1",
        2 => "2",
        3 => "3",
        4 => "4",
        5 => "5",
        6 => "6",
        7 => "7",
        8 => "8",
        _ => "9",
    }
}

/// `n` in base ten.
pub(crate) fn decimal_text(n: u32) -> (text: String)
    ensures
        text@ == decimal(n as nat),
    decreases n,
{
    if n < 10 {
        digit_text(n).to_owned()
    } else {
        let mut text = decimal_text(n / 10);
        text.append(digit_text(n % 10));
        proof {
            assert(decimal(n as nat) =~= decimal((n / 10) as nat) + seq![digit((n % 10) as int)]);
        }
        text
    }
}

/// `n` in base ten, with zeros in front up to `width` characters.
pub(crate) fn zero_padded_text(n: u32, width: usize) -> (text: String)
    ensures
        text@ == zero_padded(n as nat, width as nat),
{
    let digits = decimal_text(n);
    let len: usize = digits.as_str().unicode_len();
    let mut text = String::new();
    let mut filled: usize = len;
    while filled < width
        invariant
            len <= filled,
            len < width ==> filled <= width,
            len >= width ==> filled == len,
            text@ == zeros((filled - len) as nat),
        decreases width - filled,
    {
        proof {
            reveal_strlit("0");
            assert(zeros((filled - len) as nat) + "0"@ =~= zeros((filled + 1 - len) as nat));
        }
        text.append("0");
        filled += 1;
    }
    proof {
        assert(zeros(0) + digits@ =~= digits@);
    }
    text.append(digits.as_str());
    text
}

/// A signed number padded with zeros after its sign up to `width` characters.
pub(crate) fn signed_zero_padded_text(n: i32, width: usize) -> (text: String)
    ensures
        text@ == signed_zero_padded(n as int, width as nat),
{
    if n < 0 {
        proof {
            reveal_strlit("-");
        }
        let mut text = "-".to_owned();
        let magnitude: u32 = (0i64 - n as i64) as u32;
        let inner: usize = if width > 0 { width - 1 } else { 0 };
        text.append(zero_padded_text(magnitude, inner).as_str());
        proof {
            assert("-"@ =~= seq!['-']);
        }
        text
    } else {
        zero_padded_text(n as u32, width)
    }
}

/// Dictionary order never puts a text before itself.
pub proof fn lemma_order_is_irreflexive(a: Seq<char>)
    ensures
        !comes_before(a, a),
{
}

/// Dictionary order is transitive.
pub proof fn lemma_order_is_transitive(a: Seq<char>, b: Seq<char>, c: Seq<char>)
    requires
        comes_before(a, b),
        comes_before(b, c),
    ensures
        comes_before(a, c),
{
    let j = choose|j: int| parts_at(a, b, j);
    let k = choose|k: int| parts_at(b, c, k);
    if j < k {
        assert(b[j] == c[j]);
        assert(parts_at(a, c, j));
    } else {
        assert(parts_at(a, c, k));
    }
}

/// Of two different texts, one comes before the other.
pub proof fn lemma_order_is_total(a: Seq<char>, b: Seq<char>)
    ensures
        comes_before(a, b) || a == b || comes_before(b, a),
{
    lemma_order_from(a, b, 0);
}

/// Texts that agree below `from` are equal, or part somewhere.
proof fn lemma_order_from(a: Seq<char>, b: Seq<char>, from: int)
    requires
        0 <= from <= a.len(),
        from <= b.len(),
        forall|i: int| 0 <= i < from ==> a[i] == b[i],
    ensures
        comes_before(a, b) || a == b || comes_before(b, a),
    decreases a.len() - from,
{
    if from == a.len() && from == b.len() {
        assert(a =~= b);
    } else if from == a.len() {
        assert(parts_at(a, b, from));
    } else if from == b.len() {
        assert(parts_at(b, a, from));
    } else if a[from] < b[from] {
        assert(parts_at(a, b, from));
    } else if b[from] < a[from] {
        assert(parts_at(b, a, from));
    } else {
        lemma_order_from(a, b, from + 1);
    }
}

/// A decimal expansion is made of digits, is not empty, has no superfluous zero in front, and
/// denotes its number.
pub proof fn lemma_decimal(n: nat)
    ensures
        decimal(n).len() > 0,
        all_digits(decimal(n)),
        forall|i: int| 0 <= i < decimal(n).len() ==> 48 <= #[trigger] decimal(n)[i] as int <= 57,
        decimal(n).len() > 1 <==> n >= 10,
        n > 0 ==> decimal(n)[0] as int != 48,
        number_of(decimal(n)) == n,
    decreases n,
{
    let s = decimal(n);
    if n < 10 {
        assert(s.drop_last() =~= Seq::<char>::empty());
        assert(number_of(s.drop_last()) == 0);
    } else {
        lemma_decimal(n / 10);
        assert(s.drop_last() =~= decimal(n / 10));
        if n / 10 < 10 {
            assert(s[0] == digit((n / 10) as int));
        } else {
            assert(s[0] == decimal(n / 10)[0]);
        }
        assert forall|i: int| 0 <= i < s.len() implies 48 <= #[trigger] s[i] as int <= 57 by {
            if i < s.len() - 1 {
                assert(s[i] == decimal(n / 10)[i]);
            }
        }
    }
}

/// Digits denote their number in base ten: nothing denotes 0, and a digit more multiplies by ten
/// and adds its value.
pub proof fn lemma_digits_denote_in_base_ten(digits: Seq<char>, d: int)
    requires
        0 <= d < 10,
    ensures
        digit(d) as int == 48 + d,
        number_of(Seq::empty()) == 0,
        number_of(digits.push(digit(d))) == 10 * number_of(digits) + d,
{
    assert(digits.push(digit(d)).drop_last() =~= digits);
}

/// Zeros in front do not change the number that digits denote.
proof fn lemma_leading_zeros(count: nat, digits: Seq<char>)
    ensures
        number_of(zeros(count) + digits) == number_of(digits),
    decreases count + digits.len(),
{
    let s = zeros(count) + digits;
    if digits.len() > 0 {
        assert(s.drop_last() =~= zeros(count) + digits.drop_last());
        lemma_leading_zeros(count, digits.drop_last());
    } else if count > 0 {
        assert(s.drop_last() =~= zeros((count - 1) as nat) + digits);
        lemma_leading_zeros((count - 1) as nat, digits);
    } else {
        assert(s =~= digits);
    }
}

/// Padding keeps the number: the result is made of digits, is at least `width` long and no longer
/// than it has to be, and denotes `n`, so different numbers give different texts.
pub proof fn lemma_zero_padded(n: nat, width: nat)
    ensures
        zero_padded(n, width).len() >= width,
        zero_padded(n, width).len() > 0,
        zero_padded(n, width).len() > width && zero_padded(n, width).len() > 1 ==> zero_padded(
            n,
            width,
        )[0] as int != 48,
        all_digits(zero_padded(n, width)),
        forall|i: int|
            0 <= i < zero_padded(n, width).len() ==> 48 <= (#[trigger] zero_padded(n, width)[i])
                as int <= 57,
        number_of(zero_padded(n, width)) == n,
{
    lemma_decimal(n);
    let digits = decimal(n);
    if digits.len() < width {
        lemma_leading_zeros((width - digits.len()) as nat, digits);
    }
}

/// A number below a hundred fills two digits.
pub proof fn lemma_two_digits(n: nat)
    requires
        n < 100,
    ensures
        zero_padded(n, 2) == seq![digit((n / 10) as int), digit((n % 10) as int)],
{
    reveal_with_fuel(decimal, 2);
    assert(zero_padded(n, 2) =~= seq![digit((n / 10) as int), digit((n % 10) as int)]);
}

/// A number below ten thousand fills four digits.
pub proof fn lemma_four_digits(n: nat)
    requires
        n < 10000,
    ensures
        zero_padded(n, 4) == seq![
            digit((n / 1000) as int),
            digit((n / 100 % 10) as int),
            digit((n / 10 % 10) as int),
            digit((n % 10) as int),
        ],
{
    reveal_with_fuel(decimal, 4);
    assert(zero_padded(n, 4) =~= seq![
        digit((n / 1000) as int),
        digit((n / 100 % 10) as int),
        digit((n / 10 % 10) as int),
        digit((n % 10) as int),
    ]);
}

/// A number that is not negative is padded as it is; a negative one is a minus sign followed by
/// its magnitude, padded to what is left of the width.
pub proof fn lemma_signed_zero_padded(n: int, width: nat)
    requires
        width > 0,
    ensures
        n >= 0 ==> signed_zero_padded(n, width) == zero_padded(n as nat, width),
        n < 0 ==> signed_zero_padded(n, width).len() > 0 && signed_zero_padded(n, width)[0] == '-'
            && signed_zero_padded(n, width).subrange(
            1,
            signed_zero_padded(n, width).len() as int,
        ) == zero_padded((-n) as nat, (width - 1) as nat),
{
    if n < 0 {
        let s = signed_zero_padded(n, width);
        assert(s.subrange(1, s.len() as int) =~= zero_padded((-n) as nat, (width - 1) as nat));
    }
}

/// The first characters that differ decide the order: the text with the smaller one comes first.
pub proof fn lemma_first_difference_decides(a: Seq<char>, b: Seq<char>, k: int)
    requires
        0 <= k < a.len(),
        k < b.len(),
        forall|i: int| 0 <= i < k ==> a[i] == b[i],
        a[k] != b[k],
    ensures
        comes_before(a, b) <==> (a[k] as int) < (b[k] as int),
{
    if (a[k] as int) < (b[k] as int) {
        assert(parts_at(a, b, k));
    } else if comes_before(a, b) {
        let j = choose|j: int| parts_at(a, b, j);
        if j > k {
            assert(a[k] == b[k]);
        }
    }
}

/// A text comes before its proper extensions, and none of them before it.
pub proof fn lemma_prefix_comes_first(a: Seq<char>, rest: Seq<char>)
    ensures
        comes_before(a, a + rest) <==> rest.len() > 0,
        !comes_before(a + rest, a),
{
    let b = a + rest;
    if rest.len() > 0 {
        assert(parts_at(a, b, a.len() as int));
    } else {
        assert(b =~= a);
    }
}

/// Trimming takes white space off both ends and nothing else: what is left lies between two runs
/// of white space, and neither begins nor ends with any.
pub proof fn lemma_trimming(s: Seq<char>)
    ensures
        exists|i: int, j: int|
            0 <= i <= j <= s.len() && #[trigger] s.subrange(i, j) == trimmed(s) && (forall|k: int|
                0 <= k < i || j <= k < s.len() ==> is_white_space(#[trigger] s[k])),
        trimmed(s).len() > 0 ==> !is_white_space(trimmed(s)[0]) && !is_white_space(
            trimmed(s)[trimmed(s).len() - 1],
        ),
{
    let i = lemma_trimming_start(s);
    let rest = trimmed_start(s);
    let j = lemma_trimming_end(rest);
    assert(trimmed(s) =~= s.subrange(i, i + j));
    assert forall|k: int| 0 <= k < i || i + j <= k < s.len() implies is_white_space(
        #[trigger] s[k],
    ) by {
        if k >= i + j {
            assert(s[k] == rest[k - i]);
        }
    }
    assert(s.subrange(i, i + j) == trimmed(s));
    if trimmed(s).len() > 0 {
        assert(trimmed(s)[0] == rest[0]);
    }
}

proof fn lemma_trimming_start(s: Seq<char>) -> (i: int)
    ensures
        0 <= i <= s.len(),
        trimmed_start(s) == s.subrange(i, s.len() as int),
        forall|k: int| 0 <= k < i ==> is_white_space(#[trigger] s[k]),
        i < s.len() ==> !is_white_space(s[i]),
    decreases s.len(),
{
    if s.len() > 0 && is_white_space(s.first()) {
        let rest = s.drop_first();
        let i = lemma_trimming_start(rest);
        assert(trimmed_start(s) =~= s.subrange(i + 1, s.len() as int));
        assert forall|k: int| 0 <= k < i + 1 implies is_white_space(#[trigger] s[k]) by {
            if k > 0 {
                assert(s[k] == rest[k - 1]);
            }
        }
        if i + 1 < s.len() {
            assert(s[i + 1] == rest[i]);
        }
        i + 1
    } else {
        assert(s =~= s.subrange(0, s.len() as int));
        0
    }
}

proof fn lemma_trimming_end(s: Seq<char>) -> (j: int)
    ensures
        0 <= j <= s.len(),
        trimmed_end(s) == s.subrange(0, j),
        forall|k: int| j <= k < s.len() ==> is_white_space(#[trigger] s[k]),
        j > 0 ==> !is_white_space(s[j - 1]),
    decreases s.len(),
{
    if s.len() > 0 && is_white_space(s.last()) {
        let rest = s.drop_last();
        let j = lemma_trimming_end(rest);
        assert(trimmed_end(s) =~= s.subrange(0, j));
        assert forall|k: int| j <= k < s.len() implies is_white_space(#[trigger] s[k]) by {
            if k < s.len() - 1 {
                assert(s[k] == rest[k]);
            }
        }
        if j > 0 {
            assert(s[j - 1] == rest[j - 1]);
        }
        j
    } else {
        assert(s =~= s.subrange(0, s.len() as int));
        s.len() as int
    }
}

/// What stands for an optional text is there exactly when the text is, with its characters.
pub proof fn lemma_optional(s: Option<String>)
    ensures
        optional(s) is None <==> s is None,
        s matches Some(t) ==> optional(s) == Some(t@),
{
}

/// White space is the tab, the line and page breaks, the space, the no-break space and the other
/// spaces and separators of Unicode: twenty-five characters in all.
pub proof fn lemma_white_space_characters(c: char)
    ensures
        is_white_space(c) <==> seq![
            0x9int, 0xa, 0xb, 0xc, 0xd, 0x20, 0x85, 0xa0, 0x1680, 0x2000, 0x2001, 0x2002, 0x2003,
            0x2004, 0x2005, 0x2006, 0x2007, 0x2008, 0x2009, 0x200a, 0x2028, 0x2029, 0x202f, 0x205f,
            0x3000,
        ].contains(c as int),
{
    let codes = seq![
        0x9int, 0xa, 0xb, 0xc, 0xd, 0x20, 0x85, 0xa0, 0x1680, 0x2000, 0x2001, 0x2002, 0x2003,
        0x2004, 0x2005, 0x2006, 0x2007, 0x2008, 0x2009, 0x200a, 0x2028, 0x2029, 0x202f, 0x205f,
        0x3000,
    ];
    let n = c as int;
    if 0x9 <= n <= 0xd {
        assert(codes[n - 0x9] == n);
    } else if 0x2000 <= n <= 0x200a {
        assert(codes[n - 0x2000 + 9] == n);
    } else if is_white_space(c) {
        assert(codes[5] == 0x20 && codes[6] == 0x85 && codes[7] == 0xa0 && codes[8] == 0x1680);
        assert(codes[20] == 0x2028 && codes[21] == 0x2029 && codes[22] == 0x202f);
        assert(codes[23] == 0x205f && codes[24] == 0x3000);
    }
}

}
