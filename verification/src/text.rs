//! Text: splitting, numbers, and quoting.

use vstd::prelude::*;

verus! {

/// How `std` writes a string for debugging: in double quotes, with escapes.
pub uninterp spec fn debug_form(s: Seq<char>) -> Seq<char>;

/// A character with Unicode's property `White_Space`.
pub open spec fn is_white_space(c: char) -> bool {
    ||| '\u{9}' <= c <= '\u{d}'
    ||| c == ' '
    ||| c == '\u{85}'
    ||| c == '\u{a0}'
    ||| c == '\u{1680}'
    ||| '\u{2000}' <= c <= '\u{200a}'
    ||| '\u{2028}' <= c <= '\u{2029}'
    ||| c == '\u{202f}'
    ||| c == '\u{205f}'
    ||| c == '\u{3000}'
}

/// What is left of a string when white space is taken off both its ends.
pub open spec fn trimmed(s: Seq<char>) -> Seq<char>
    decreases s.len(),
{
    if s.len() > 0 && is_white_space(s[0]) {
        trimmed(s.skip(1))
    } else if s.len() > 0 && is_white_space(s.last()) {
        trimmed(s.drop_last())
    } else {
        s
    }
}

/// Formats through `<str as std::fmt::Debug>::fmt`.  The text is a function of
/// the string alone; which characters are escaped, and how, is left to `std`.
#[verifier::external_body]
pub(crate) fn quoted(s: &str) -> (q: String)
    ensures
        q@ == debug_form(s@),
{
    format!("{:?}", s)
}

/// Calls `str::trim`, which takes leading and trailing white space off: the
/// characters with Unicode's property `White_Space`.
#[verifier::external_body]
pub(crate) fn trim(s: &str) -> (t: &str)
    ensures
        t@ == trimmed(s@),
{
    s.trim()
}

/// Just the white space at the ends is taken off: what stands between begins
/// and ends with other characters, or is empty, and stays as it is.
pub proof fn law_white_space_is_taken_off(before: Seq<char>, core: Seq<char>, after: Seq<char>)
    requires
        forall|i: int| 0 <= i < before.len() ==> is_white_space(#[trigger] before[i]),
        forall|i: int| 0 <= i < after.len() ==> is_white_space(#[trigger] after[i]),
        core.len() > 0 ==> !is_white_space(core[0]) && !is_white_space(core.last()),
    ensures
        trimmed(before + core + after) == core,
    decreases before.len() + after.len(),
{
    let s = before + core + after;
    if before.len() > 0 {
        assert(s[0] == before[0]);
        assert(s.skip(1) =~= before.skip(1) + core + after);
        law_white_space_is_taken_off(before.skip(1), core, after);
    } else if after.len() > 0 {
        if core.len() > 0 {
            assert(s[0] == core[0]);
            assert(s.last() == after.last());
            assert(s.drop_last() =~= before + core + after.drop_last());
            law_white_space_is_taken_off(before, core, after.drop_last());
        } else {
            assert(s[0] == after[0]);
            assert(s.skip(1) =~= before + core + after.skip(1));
            law_white_space_is_taken_off(before, core, after.skip(1));
        }
    } else {
        assert(s =~= core);
    }
}

/// Whether two strings are equal.
pub fn same_text(a: &str, b: &str) -> (same: bool)
    ensures
        same == (a@ == b@),
{
    a.to_owned() == b.to_owned()
}

/// The position of the first `sep`, or the length where there is none.
pub open spec fn first_of(s: Seq<char>, sep: char) -> int
    decreases s.len(),
{
    if s.len() == 0 || s[0] == sep {
        0
    } else {
        1 + first_of(s.skip(1), sep)
    }
}

proof fn lemma_first_of(s: Seq<char>, sep: char, n: int)
    requires
        0 <= n <= s.len(),
        forall|i: int| 0 <= i < n ==> s[i] != sep,
        n < s.len() ==> s[n] == sep,
    ensures
        first_of(s, sep) == n,
    decreases s.len(),
{
    if n > 0 {
        lemma_first_of(s.skip(1), sep, n - 1);
    }
}

/// The pieces of a string between separators, one more than there are
/// separators.
pub open spec fn pieces(s: Seq<char>, sep: char) -> Seq<Seq<char>>
    decreases s.len(),
{
    let n = first_of(s, sep);
    if 0 <= n < s.len() {
        seq![s.take(n)] + pieces(s.skip(n + 1), sep)
    } else {
        seq![s]
    }
}

/// The string holds no `sep`.
pub open spec fn is_whole(s: Seq<char>, sep: char) -> bool {
    forall|i: int| 0 <= i < s.len() ==> #[trigger] s[i] != sep
}

/// What is joined by a separator is split at it.
pub proof fn law_split_undoes_join(a: Seq<char>, sep: char, b: Seq<char>)
    requires
        is_whole(a, sep),
    ensures
        pieces(a + seq![sep] + b, sep) == seq![a] + pieces(b, sep),
        pieces(a, sep) == seq![a],
{
    let s = a + seq![sep] + b;
    let n = a.len() as int;
    lemma_first_of(s, sep, n);
    assert(s.take(n) =~= a);
    assert(s.skip(n + 1) =~= b);
    lemma_first_of(a, sep, n);
}

/// The values of a list of strings.
pub open spec fn texts(list: Seq<&str>) -> Seq<Seq<char>> {
    Seq::new(list.len(), |i: int| list[i]@)
}

/// Split a string at every `sep`.
pub fn split<'a>(s: &'a str, sep: char) -> (list: Vec<&'a str>)
    ensures
        texts(list@) == pieces(s@, sep),
        list@.len() >= 1,
{
    let len: usize = s.unicode_len();
    let mut list: Vec<&'a str> = Vec::new();
    let mut start: usize = 0;
    let mut i: usize = 0;
    proof {
        assert(s@.skip(0) =~= s@);
        assert(texts(list@) + pieces(s@, sep) =~= pieces(s@, sep));
    }
    while i < len
        invariant
            len == s@.len(),
            start <= i <= len,
            forall|k: int| start <= k < i ==> s@[k] != sep,
            texts(list@) + pieces(s@.skip(start as int), sep) == pieces(s@, sep),
        decreases len - i,
    {
        if s.get_char(i) == sep {
            let piece: &'a str = s.substring_char(start, i);
            let ghost before = texts(list@);
            let ghost rest = s@.skip(start as int);
            list.push(piece);
            proof {
                let n = i - start;
                lemma_first_of(rest, sep, n);
                assert(rest.take(n) =~= piece@);
                assert(rest.skip(n + 1) =~= s@.skip(i + 1));
                assert(texts(list@) =~= before.push(piece@));
                assert(before + pieces(rest, sep) =~= before.push(piece@) + pieces(
                    rest.skip(n + 1),
                    sep,
                ));
            }
            start = i + 1;
        }
        i += 1;
    }
    let last: &'a str = s.substring_char(start, len);
    let ghost before = texts(list@);
    list.push(last);
    proof {
        let rest = s@.skip(start as int);
        lemma_first_of(rest, sep, rest.len() as int);
        assert(rest =~= last@);
        assert(texts(list@) =~= before + seq![rest]);
    }
    list
}

/// A decimal digit.
pub open spec fn is_digit(c: char) -> bool {
    '0' <= c <= '9'
}

/// The number that digits spell.
pub open spec fn digits_value(s: Seq<char>) -> nat
    decreases s.len(),
{
    if s.len() == 0 {
        0
    } else {
        digits_value(s.drop_last()) * 10 + (s.last() as nat - '0' as nat) as nat
    }
}

/// The string without a leading plus sign.
pub open spec fn unsigned_part(s: Seq<char>) -> Seq<char> {
    if s.len() > 0 && s[0] == '+' {
        s.skip(1)
    } else {
        s
    }
}

/// A string of decimal digits, at least one.
pub open spec fn is_decimal(s: Seq<char>) -> bool {
    s.len() > 0 && (forall|i: int| 0 <= i < s.len() ==> is_digit(#[trigger] s[i]))
}

/// Whether a string is made of decimal digits.
pub fn is_decimal_text(s: &str) -> (yes: bool)
    ensures
        yes == is_decimal(s@),
{
    let len: usize = s.unicode_len();
    if len == 0 {
        return false;
    }
    let mut i: usize = 0;
    while i < len
        invariant
            len == s@.len(),
            i <= len,
            forall|k: int| 0 <= k < i ==> is_digit(#[trigger] s@[k]),
        decreases len - i,
    {
        let c: char = s.get_char(i);
        if !(c >= '0' && c <= '9') {
            assert(!is_digit(s@[i as int]));
            return false;
        }
        i += 1;
    }
    true
}

/// The number that digits spell without the last `left` of them.
spec fn leading_value(s: Seq<char>, left: nat) -> nat {
    if left < s.len() {
        digits_value(s.take(s.len() - left))
    } else {
        0
    }
}

/// The digit with `left` digits behind it, zero in front of the first.
spec fn digit_before(s: Seq<char>, left: nat) -> nat {
    if left < s.len() {
        (s[s.len() - 1 - left] as nat - '0' as nat) as nat
    } else {
        0
    }
}

proof fn lemma_leading_value(s: Seq<char>, left: nat)
    ensures
        leading_value(s, left) == 10 * leading_value(s, left + 1) + digit_before(s, left),
{
    if left < s.len() {
        let t = s.take(s.len() - left);
        assert(t.drop_last() =~= s.take(s.len() - left - 1));
        if left + 1 == s.len() {
            assert(digits_value(t.drop_last()) == 0);
        }
    }
}

proof fn lemma_leading_decides(a: Seq<char>, b: Seq<char>, left: nat)
    requires
        is_decimal(a),
        leading_value(a, left) < leading_value(b, left),
    ensures
        digits_value(a) < digits_value(b),
    decreases left,
{
    if left == 0 {
        assert(a.take(a.len() as int) =~= a);
        assert(b.take(b.len() as int) =~= b);
    } else {
        lemma_leading_value(a, (left - 1) as nat);
        lemma_leading_value(b, (left - 1) as nat);
        assert(digit_before(a, (left - 1) as nat) <= 9) by {
            if left - 1 < a.len() {
                assert(is_digit(a[a.len() - left]));
            }
        }
        lemma_leading_decides(a, b, (left - 1) as nat);
    }
}

fn digit_value_before(s: &str, left: usize) -> (d: u32)
    requires
        is_decimal(s@),
    ensures
        d == digit_before(s@, left as nat),
{
    let len: usize = s.unicode_len();
    if left < len {
        assert(is_digit(s@[len - 1 - left]));
        s.get_char(len - 1 - left) as u32 - '0' as u32
    } else {
        0
    }
}

/// Which of two strings of digits spells the smaller number: the first, the
/// second, or neither.
pub fn smaller_decimal(a: &str, b: &str) -> (first: Option<bool>)
    requires
        is_decimal(a@),
        is_decimal(b@),
    ensures
        match first {
            Some(true) => digits_value(a@) < digits_value(b@),
            Some(false) => digits_value(a@) > digits_value(b@),
            None => digits_value(a@) == digits_value(b@),
        },
{
    let na: usize = a.unicode_len();
    let nb: usize = b.unicode_len();
    let mut left: usize = if na > nb {
        na
    } else {
        nb
    };
    while left > 0
        invariant
            is_decimal(a@),
            is_decimal(b@),
            leading_value(a@, left as nat) == leading_value(b@, left as nat),
        decreases left,
    {
        left -= 1;
        let da: u32 = digit_value_before(a, left);
        let db: u32 = digit_value_before(b, left);
        proof {
            lemma_leading_value(a@, left as nat);
            lemma_leading_value(b@, left as nat);
        }
        if da < db {
            proof {
                lemma_leading_decides(a@, b@, left as nat);
            }
            return Some(true);
        }
        if db < da {
            proof {
                lemma_leading_decides(b@, a@, left as nat);
            }
            return Some(false);
        }
    }
    assert(a@.take(a@.len() as int) =~= a@);
    assert(b@.take(b@.len() as int) =~= b@);
    None
}

/// The number up to `max` that a string spells: digits, at least one, with or
/// without a plus sign in front.
pub open spec fn number(s: Seq<char>, max: nat) -> Option<nat> {
    let d = unsigned_part(s);
    if is_decimal(d) && digits_value(d) <= max {
        Some(digits_value(d))
    } else {
        None
    }
}

proof fn lemma_digits_grow(s: Seq<char>, n: int)
    requires
        0 <= n <= s.len(),
    ensures
        digits_value(s.take(n)) <= digits_value(s),
    decreases s.len() - n,
{
    if n == s.len() {
        assert(s.take(n) =~= s);
    } else {
        lemma_digits_grow(s, n + 1);
        assert(s.take(n + 1).drop_last() =~= s.take(n));
    }
}

/// Read a number up to `max`.
pub fn parse_number(s: &str, max: u32) -> (n: Option<u32>)
    ensures
        match n {
            Some(v) => number(s@, max as nat) == Some(v as nat),
            None => number(s@, max as nat) is None,
        },
{
    let len: usize = s.unicode_len();
    let start: usize = if len > 0 && s.get_char(0) == '+' {
        1
    } else {
        0
    };
    let ghost d = unsigned_part(s@);
    assert(d == s@.skip(start as int)) by {
        assert(s@.skip(0) =~= s@);
    }
    if start == len {
        return None;
    }
    let mut value: u64 = 0;
    let mut i: usize = start;
    assert(d.take(0) =~= Seq::empty());
    while i < len
        invariant
            len == s@.len(),
            start <= i <= len,
            d == s@.skip(start as int),
            d == unsigned_part(s@),
            value == digits_value(d.take(i - start)),
            value <= max,
            forall|k: int| 0 <= k < i - start ==> is_digit(#[trigger] d[k]),
        decreases len - i,
    {
        let c: char = s.get_char(i);
        assert(c == d[i - start]);
        if !(c >= '0' && c <= '9') {
            return None;
        }
        proof {
            assert(d.take(i - start + 1).drop_last() =~= d.take(i - start));
            lemma_digits_grow(d, i - start + 1);
        }
        value = value * 10 + (c as u32 - '0' as u32) as u64;
        if value > max as u64 {
            return None;
        }
        i += 1;
    }
    assert(d.take(d.len() as int) =~= d);
    Some(value as u32)
}

/// A digit as a character.
pub open spec fn digit_char(d: nat) -> char {
    ('0' as nat + d) as char
}

/// A number in decimal.
pub open spec fn decimal(n: nat) -> Seq<char>
    decreases n,
{
    if n < 10 {
        seq![digit_char(n)]
    } else {
        decimal(n / 10).push(digit_char(n % 10))
    }
}

fn digit_text(d: u64) -> (t: &'static str)
    requires
        d < 10,
    ensures
        t@ == seq![digit_char(d as nat)],
{
    proof {
        reveal_strlit("0123456789");
    }
    let t: &'static str = "0123456789".substring_char(d as usize, d as usize + 1);
    assert(t@ =~= seq![digit_char(d as nat)]);
    t
}

/// Write a number in decimal.
pub fn render_number(n: u64) -> (t: String)
    ensures
        t@ == decimal(n as nat),
    decreases n,
{
    if n < 10 {
        return digit_text(n).to_owned();
    }
    let mut t: String = render_number(n / 10);
    t.append(digit_text(n % 10));
    assert(t@ =~= decimal(n as nat));
    t
}

/// A number that was written is read back as it was.
pub proof fn law_number_roundtrip(n: nat, max: nat)
    requires
        n <= max,
    ensures
        number(decimal(n), max) == Some(n),
{
    lemma_decimal(n);
    let s = decimal(n);
    assert(is_digit(s[0]));
    assert(unsigned_part(s) == s);
}

/// A number in decimal holds no colon.
pub proof fn lemma_decimal_is_whole(n: nat)
    ensures
        is_whole(decimal(n), ':'),
{
    lemma_decimal(n);
    assert forall|i: int| 0 <= i < decimal(n).len() implies #[trigger] decimal(n)[i] != ':' by {
        assert(is_digit(decimal(n)[i]));
    }
}

/// A number in decimal is made of digits, which spell it.
pub proof fn lemma_decimal(n: nat)
    ensures
        is_decimal(decimal(n)),
        digits_value(decimal(n)) == n,
    decreases n,
{
    let s = decimal(n);
    if n < 10 {
        assert(s.drop_last() =~= Seq::empty());
        assert(digits_value(s.drop_last()) == 0);
    } else {
        lemma_decimal(n / 10);
        assert(s.drop_last() =~= decimal(n / 10));
    }
}

/// A hexadecimal digit.
pub open spec fn is_hex_digit(c: char) -> bool {
    is_digit(c) || 'a' <= c <= 'f' || 'A' <= c <= 'F'
}

/// A string of hexadecimal digits, at least one.
pub open spec fn is_hex(s: Seq<char>) -> bool {
    s.len() > 0 && (forall|i: int| 0 <= i < s.len() ==> is_hex_digit(#[trigger] s[i]))
}

/// A hexadecimal digit in lower case.
pub open spec fn lower_digit(c: char) -> char {
    if 'A' <= c <= 'F' {
        (c as nat + 32) as char
    } else {
        c
    }
}

/// A string of hexadecimal digits in lower case.
pub open spec fn lower_hex(s: Seq<char>) -> Seq<char> {
    Seq::new(s.len(), |i: int| lower_digit(s[i]))
}

/// Whether a string is made of hexadecimal digits.
pub fn is_hex_text(s: &str) -> (yes: bool)
    ensures
        yes == is_hex(s@),
{
    let len: usize = s.unicode_len();
    if len == 0 {
        return false;
    }
    let mut i: usize = 0;
    while i < len
        invariant
            len == s@.len(),
            i <= len,
            forall|k: int| 0 <= k < i ==> is_hex_digit(#[trigger] s@[k]),
        decreases len - i,
    {
        let c: char = s.get_char(i);
        if !((c >= '0' && c <= '9') || (c >= 'a' && c <= 'f') || (c >= 'A' && c <= 'F')) {
            assert(!is_hex_digit(s@[i as int]));
            return false;
        }
        i += 1;
    }
    true
}

/// A string of hexadecimal digits in lower case.
pub fn lower_hex_text(s: &str) -> (t: String)
    requires
        is_hex(s@),
    ensures
        t@ == lower_hex(s@),
{
    let len: usize = s.unicode_len();
    let mut t: String = String::new();
    let mut i: usize = 0;
    while i < len
        invariant
            len == s@.len(),
            i <= len,
            is_hex(s@),
            t@ =~= lower_hex(s@).take(i as int),
        decreases len - i,
    {
        let c: char = s.get_char(i);
        assert(is_hex_digit(s@[i as int]));
        proof {
            reveal_strlit("abcdef");
        }
        if c >= 'A' && c <= 'F' {
            let d: usize = (c as u32 - 'A' as u32) as usize;
            let piece: &str = "abcdef".substring_char(d, d + 1);
            assert(piece@[0] == lower_digit(c));
            t.append(piece);
        } else {
            t.append(s.substring_char(i, i + 1));
        }
        i += 1;
    }
    t
}

/// The string starts with a prefix.
pub open spec fn has_prefix(s: Seq<char>, prefix: Seq<char>) -> bool {
    prefix.len() <= s.len() && s.take(prefix.len() as int) == prefix
}

/// Whether a string starts with a prefix.
pub fn starts_with(s: &str, prefix: &str) -> (yes: bool)
    ensures
        yes == has_prefix(s@, prefix@),
{
    let n: usize = prefix.unicode_len();
    if s.unicode_len() < n {
        return false;
    }
    let front: &str = s.substring_char(0, n);
    assert(front@ =~= s@.take(n as int));
    same_text(front, prefix)
}

/// The order of strings: by the first character in which they differ, a
/// prefix first.
pub open spec fn precedes(a: Seq<char>, b: Seq<char>) -> bool
    decreases a.len(),
{
    if a.len() == 0 {
        b.len() > 0
    } else if b.len() == 0 {
        false
    } else if a[0] != b[0] {
        a[0] < b[0]
    } else {
        precedes(a.skip(1), b.skip(1))
    }
}

/// No string comes before itself.
pub proof fn lemma_precedes_irreflexive(a: Seq<char>)
    ensures
        !precedes(a, a),
    decreases a.len(),
{
    if a.len() > 0 {
        lemma_precedes_irreflexive(a.skip(1));
    }
}

/// What comes before a string comes before all that it comes before.
pub proof fn lemma_precedes_trans(a: Seq<char>, b: Seq<char>, c: Seq<char>)
    requires
        precedes(a, b),
        precedes(b, c),
    ensures
        precedes(a, c),
    decreases a.len(),
{
    if a.len() > 0 && a[0] == b[0] && b[0] == c[0] {
        lemma_precedes_trans(a.skip(1), b.skip(1), c.skip(1));
    }
}

/// Of two strings that differ one comes before the other.
pub proof fn lemma_precedes_total(a: Seq<char>, b: Seq<char>)
    requires
        a != b,
    ensures
        precedes(a, b) || precedes(b, a),
    decreases a.len(),
{
    if a.len() == 0 {
        assert(b.len() > 0) by {
            if b.len() == 0 {
                assert(a =~= b);
            }
        }
    } else if b.len() > 0 && a[0] == b[0] {
        assert(a.skip(1) != b.skip(1)) by {
            if a.skip(1) == b.skip(1) {
                assert(a =~= seq![a[0]] + a.skip(1));
                assert(b =~= seq![b[0]] + b.skip(1));
            }
        }
        lemma_precedes_total(a.skip(1), b.skip(1));
    }
}

/// Whether a string comes before another.
pub fn comes_before(a: &str, b: &str) -> (yes: bool)
    ensures
        yes == precedes(a@, b@),
{
    let na: usize = a.unicode_len();
    let nb: usize = b.unicode_len();
    let mut i: usize = 0;
    assert(a@.skip(0) =~= a@);
    assert(b@.skip(0) =~= b@);
    while i < na && i < nb
        invariant
            na == a@.len(),
            nb == b@.len(),
            i <= na,
            i <= nb,
            precedes(a@.skip(i as int), b@.skip(i as int)) == precedes(a@, b@),
        decreases na - i,
    {
        let ca: char = a.get_char(i);
        let cb: char = b.get_char(i);
        if ca != cb {
            return ca < cb;
        }
        proof {
            assert(a@.skip(i as int).skip(1) =~= a@.skip(i + 1));
            assert(b@.skip(i as int).skip(1) =~= b@.skip(i + 1));
        }
        i += 1;
    }
    nb > na
}

/// A network address and a port, as one string.
pub open spec fn address_text(addr: Seq<char>, port: u16) -> Seq<char> {
    addr + ":"@ + decimal(port as nat)
}

/// Join a network address and a port.
pub fn socket_address(addr: &str, port: u16) -> (t: String)
    ensures
        t@ == address_text(addr@, port),
{
    let mut t: String = addr.to_owned();
    t.append(":");
    t.append(render_number(port as u64).as_str());
    t
}

/// Digits are read from the left: one more digit makes ten times the number
/// and the digit.
pub proof fn law_digits_are_read_from_the_left(s: Seq<char>, d: nat)
    requires
        d < 10,
    ensures
        digits_value(Seq::<char>::empty()) == 0,
        digits_value(s.push(digit_char(d))) == 10 * digits_value(s) + d,
        digit_char(d) as nat == 48 + d,
{
    assert(s.push(digit_char(d)).drop_last() =~= s);
}

/// A number in decimal has no needless zeros: each further digit is written
/// behind those of a tenth of the number, and only zero begins with a zero.
pub proof fn law_decimal_has_no_leading_zero(n: nat, d: nat)
    requires
        d < 10,
    ensures
        decimal(d) == seq![digit_char(d)],
        n > 0 ==> decimal(10 * n + d) == decimal(n).push(digit_char(d)),
        n > 0 ==> decimal(n)[0] != '0',
    decreases n,
{
    lemma_decimal(n);
    if n > 0 {
        assert((10 * n + d) / 10 == n);
        assert((10 * n + d) % 10 == d);
        if n >= 10 {
            law_decimal_has_no_leading_zero(n / 10, n % 10);
            lemma_decimal(n / 10);
            assert(decimal(n)[0] == decimal(n / 10)[0]);
        }
    }
}

/// Only digits spell numbers: a string with any other character in it, but for
/// one plus sign in front, spells none, and nor does one without a digit.
pub proof fn law_only_digits_spell_numbers(s: Seq<char>, i: int, max: nat)
    requires
        0 <= i < s.len(),
        !('0' <= s[i] <= '9'),
        i > 0 || s[0] != '+' || s.len() == 1,
    ensures
        number(s, max) is None,
        number(Seq::empty(), max) is None,
{
    let d = unsigned_part(s);
    if s[0] == '+' {
        if s.len() > 1 {
            assert(d[i - 1] == s[i]);
        }
    } else {
        assert(!is_digit(d[i]));
    }
}

/// What digits spell is the number up to the limit, with or without a plus sign
/// in front.
pub proof fn law_numbers_are_limited(s: Seq<char>, max: nat)
    requires
        s.len() > 0,
        forall|i: int| 0 <= i < s.len() ==> '0' <= #[trigger] s[i] <= '9',
    ensures
        number(s, max) == (if digits_value(s) <= max {
            Some(digits_value(s))
        } else {
            None
        }),
        number(seq!['+'] + s, max) == number(s, max),
{
    assert forall|i: int| 0 <= i < s.len() implies is_digit(#[trigger] s[i]) by {}
    assert(is_digit(s[0]));
    assert(unsigned_part(s) == s);
    assert(unsigned_part(seq!['+'] + s) =~= s);
}

/// Hexadecimal digits are those from 0 to 9 and from a to f, large or small;
/// lower case makes the large ones small and leaves the others.
pub proof fn law_lower_case(s: Seq<char>, i: int)
    requires
        0 <= i < s.len(),
    ensures
        is_hex_digit(s[i]) <==> '0' <= s[i] <= '9' || 'a' <= s[i] <= 'f' || 'A' <= s[i] <= 'F',
        lower_hex(s).len() == s.len(),
        'A' <= s[i] <= 'F' ==> lower_hex(s)[i] as nat == s[i] as nat + 32,
        !('A' <= s[i] <= 'F') ==> lower_hex(s)[i] == s[i],
        lower_hex(lower_hex(s)) == lower_hex(s),
        is_hex(s) ==> is_hex(lower_hex(s)),
{
    assert(lower_hex(lower_hex(s)) =~= lower_hex(s));
    if is_hex(s) {
        assert forall|k: int| 0 <= k < s.len() implies is_hex_digit(#[trigger] lower_hex(s)[k]) by {
            assert(is_hex_digit(s[k]));
        }
    }
}

/// One character that is no hexadecimal digit, or none at all, makes a string
/// no hexadecimal number.
pub proof fn law_only_hex_digits_are_hex(s: Seq<char>, i: int)
    requires
        0 <= i < s.len(),
        !is_hex_digit(s[i]),
    ensures
        !is_hex(s),
        !is_hex(Seq::empty()),
{
}

/// A string starts with what was put in front of it, and with nothing else of
/// that length.
pub proof fn law_prefix_is_what_stands_in_front(a: Seq<char>, b: Seq<char>, other: Seq<char>)
    requires
        other.len() == a.len(),
    ensures
        has_prefix(a + b, a),
        has_prefix(a + b, other) ==> other == a,
        b.len() > 0 ==> !has_prefix(a, a + b),
{
    assert((a + b).take(a.len() as int) =~= a);
}

/// The first character in which strings differ orders them, and a string comes
/// before its continuations.
pub proof fn law_first_difference_orders(
    front: Seq<char>,
    x: char,
    a: Seq<char>,
    y: char,
    b: Seq<char>,
)
    requires
        x != y,
    ensures
        precedes(front + seq![x] + a, front + seq![y] + b) <==> x < y,
        precedes(front, front + seq![y] + b),
        !precedes(front + seq![y] + b, front),
    decreases front.len(),
{
    let s = front + seq![x] + a;
    let t = front + seq![y] + b;
    if front.len() > 0 {
        let rest = front.skip(1);
        law_first_difference_orders(rest, x, a, y, b);
        assert(s.skip(1) =~= rest + seq![x] + a);
        assert(t.skip(1) =~= rest + seq![y] + b);
    }
}

/// A string is split at every separator: no piece holds one.
pub proof fn law_pieces_hold_no_separator(s: Seq<char>, sep: char, i: int)
    requires
        0 <= i < pieces(s, sep).len(),
    ensures
        is_whole(pieces(s, sep)[i], sep),
    decreases s.len(),
{
    lemma_first_of_bounds(s, sep);
    let n = first_of(s, sep);
    if n < s.len() {
        if i > 0 {
            law_pieces_hold_no_separator(s.skip(n + 1), sep, i - 1);
        } else {
            assert(pieces(s, sep)[0] == s.take(n));
        }
    }
}

proof fn lemma_first_of_bounds(s: Seq<char>, sep: char)
    ensures
        0 <= first_of(s, sep) <= s.len(),
        forall|i: int| 0 <= i < first_of(s, sep) ==> #[trigger] s[i] != sep,
        first_of(s, sep) < s.len() ==> s[first_of(s, sep)] == sep,
    decreases s.len(),
{
    if s.len() > 0 && s[0] != sep {
        lemma_first_of_bounds(s.skip(1), sep);
        assert forall|i: int| 0 <= i < first_of(s, sep) implies #[trigger] s[i] != sep by {
            if i > 0 {
                assert(s[i] == s.skip(1)[i - 1]);
            }
        }
    }
}

/// The position of a separator is that of the first one.
pub proof fn law_first_separator_is_found(a: Seq<char>, sep: char, b: Seq<char>)
    requires
        is_whole(a, sep),
    ensures
        first_of(a + seq![sep] + b, sep) == a.len(),
        first_of(a, sep) == a.len(),
{
    lemma_first_of(a + seq![sep] + b, sep, a.len() as int);
    lemma_first_of(a, sep, a.len() as int);
}

/// A network address and a port are joined by a colon.
pub proof fn law_address_and_port(addr: Seq<char>, port: u16)
    ensures
        address_text(addr, port) == addr + seq![':'] + decimal(port as nat),
{
    reveal_strlit(":");
    assert(":"@ =~= seq![':']);
}

} // verus!
