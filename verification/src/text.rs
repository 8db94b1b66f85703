//! Character-level helpers on strings.
use vstd::prelude::*;

verus! {

/// `String::push` appends the character to the end of the string.
pub assume_specification[ String::push ](s: &mut String, c: char)
    ensures
        final(s)@ == old(s)@.push(c),
;

/// `==` on `str`: whether two strings hold the same characters.
#[verifier::external_body]
pub(crate) fn same(a: &str, b: &str) -> (r: bool)
    ensures
        r == (a@ == b@),
{
    a == b
}

/// `<` on `str`: strings are ordered lexicographically by the positions of their characters in the
/// code charts.
#[verifier::external_body]
pub(crate) fn before(a: &str, b: &str) -> (r: bool)
    ensures
        r == lex_less(a@, b@),
{
    a < b
}

/// Lexicographic order of character sequences; a proper prefix comes first.
pub open spec fn lex_less(a: Seq<char>, b: Seq<char>) -> bool
    decreases a.len(),
{
    if b.len() == 0 {
        false
    } else if a.len() == 0 {
        true
    } else {
        a[0] < b[0] || (a[0] == b[0] && lex_less(a.drop_first(), b.drop_first()))
    }
}

/// No sequence comes before itself.
pub proof fn lemma_lex_irreflexive(a: Seq<char>)
    ensures
        !lex_less(a, a),
    decreases a.len(),
{
    if a.len() > 0 {
        lemma_lex_irreflexive(a.drop_first());
    }
}

/// The lexicographic order is transitive.
pub proof fn lemma_lex_transitive(a: Seq<char>, b: Seq<char>, c: Seq<char>)
    requires
        lex_less(a, b),
        lex_less(b, c),
    ensures
        lex_less(a, c),
    decreases a.len(),
{
    if a.len() > 0 && a[0] == b[0] && b[0] == c[0] {
        lemma_lex_transitive(a.drop_first(), b.drop_first(), c.drop_first());
    }
}

/// Of two different sequences one comes before the other.
pub proof fn lemma_lex_total(a: Seq<char>, b: Seq<char>)
    requires
        a != b,
    ensures
        lex_less(a, b) || lex_less(b, a),
    decreases a.len(),
{
    if a.len() > 0 && b.len() > 0 && a[0] == b[0] {
        if a.drop_first() == b.drop_first() {
            assert(a == seq![a[0]] + a.drop_first());
            assert(b == seq![b[0]] + b.drop_first());
        }
        lemma_lex_total(a.drop_first(), b.drop_first());
    } else if a.len() == 0 && b.len() == 0 {
        assert(a =~= b);
    }
}

/// The contents of a list of strings.
pub open spec fn texts(s: Seq<String>) -> Seq<Seq<char>> {
    Seq::new(s.len(), |i: int| s[i]@)
}

/// What an optional string holds.
pub open spec fn text_opt(s: Option<String>) -> Option<Seq<char>> {
    match s {
        Some(t) => Some(t@),
        None => None,
    }
}

/// The characters of a string.
pub fn chars_of(s: &str) -> (v: Vec<char>)
    ensures
        v@ == s@,
{
    let mut v: Vec<char> = Vec::new();
    for c in it: s.chars()
        invariant
            it.seq() == s@,
            v@ == s@.take(it.index() as int),
    {
        v.push(c);
    }
    assert(s@.take(s@.len() as int) == s@);
    v
}

/// The string made of the characters from `from` up to, and not including, `to`.
pub fn string_of(chars: &Vec<char>, from: usize, to: usize) -> (s: String)
    requires
        from <= to <= chars@.len(),
    ensures
        s@ == chars@.subrange(from as int, to as int),
{
    let mut s: String = String::new();
    let mut i: usize = from;
    while i < to
        invariant
            from <= i <= to <= chars@.len(),
            s@ == chars@.subrange(from as int, i as int),
        decreases to - i,
    {
        s.push(chars[i]);
        i += 1;
    }
    s
}

/// The two strings one after the other.
pub fn joined(a: &str, b: &str) -> (s: String)
    ensures
        s@ == a@ + b@,
{
    let mut s: String = a.to_owned();
    s.append(b);
    s
}

/// A copy of a list of strings.
pub fn copy_texts(list: &Vec<String>) -> (copy: Vec<String>)
    ensures
        texts(copy@) == texts(list@),
{
    let mut copy: Vec<String> = Vec::new();
    for i in 0..list.len()
        invariant
            copy@.len() == i,
            forall|j: int| 0 <= j < i ==> (#[trigger] copy@[j])@ == list@[j]@,
    {
        copy.push(list[i].clone());
    }
    assert(texts(copy@) =~= texts(list@));
    copy
}

/// A copy of an optional string.
pub fn copy_opt(s: &Option<String>) -> (copy: Option<String>)
    ensures
        text_opt(copy) == text_opt(*s),
{
    match s {
        Some(t) => Some(t.clone()),
        None => None,
    }
}

/// Whether a list of strings holds a given one.
pub fn holds(list: &Vec<String>, wanted: &str) -> (r: bool)
    ensures
        r == texts(list@).contains(wanted@),
{
    for i in 0..list.len()
        invariant
            forall|j: int| 0 <= j < i ==> (#[trigger] texts(list@)[j]) != wanted@,
    {
        if same(list[i].as_str(), wanted) {
            assert(texts(list@)[i as int] == wanted@);
            return true;
        }
    }
    false
}

/// Whether a separator stands at a position and nowhere before it.
pub open spec fn splits_at(s: Seq<char>, separator: char, at: int) -> bool {
    0 <= at < s.len() && s[at] == separator && forall|i: int|
        0 <= i < at ==> #[trigger] s[i] != separator
}

/// What stands before and after the first separator, if there is one.
pub open spec fn first_split(s: Seq<char>, separator: char) -> Option<(Seq<char>, Seq<char>)> {
    if s.contains(separator) {
        let at = choose|at: int| splits_at(s, separator, at);
        Some((s.take(at), s.skip(at + 1)))
    } else {
        None
    }
}

/// The first separator is found where it stands.
pub proof fn lemma_first_split(s: Seq<char>, separator: char, at: int)
    requires
        splits_at(s, separator, at),
    ensures
        first_split(s, separator) == Some((s.take(at), s.skip(at + 1))),
{
    assert(s.contains(separator));
    let other = choose|other: int| splits_at(s, separator, other);
    assert(splits_at(s, separator, other));
    assert(other == at);
}

/// A sequence that holds a separator is made of what stands before it, the separator and what
/// stands after it.
pub proof fn lemma_split_joins(s: Seq<char>, separator: char)
    requires
        s.contains(separator),
    ensures
        first_split(s, separator) is Some,
        s == (first_split(s, separator)->0).0 + seq![separator] + (first_split(s, separator)->0).1,
        !(first_split(s, separator)->0).0.contains(separator),
{
    let at = first_at(s, separator);
    lemma_first_at(s, separator);
    lemma_first_split(s, separator, at);
    assert(s =~= s.take(at) + seq![separator] + s.skip(at + 1));
}

spec fn first_at(s: Seq<char>, separator: char) -> int
    decreases s.len(),
{
    if s.len() == 0 || s[0] == separator {
        0
    } else {
        1 + first_at(s.drop_first(), separator)
    }
}

proof fn lemma_first_at(s: Seq<char>, separator: char)
    requires
        s.contains(separator),
    ensures
        splits_at(s, separator, first_at(s, separator)),
    decreases s.len(),
{
    if s[0] != separator {
        let i = choose|i: int| 0 <= i < s.len() && s[i] == separator;
        assert(s.drop_first()[i - 1] == separator);
        lemma_first_at(s.drop_first(), separator);
        let at = first_at(s.drop_first(), separator);
        assert forall|j: int| 0 <= j < at + 1 implies #[trigger] s[j] != separator by {
            if j > 0 {
                assert(s.drop_first()[j - 1] == s[j]);
            }
        }
    }
}

/// What stands before and after the first separator, if there is one.
pub fn split_once(s: &str, separator: char) -> (r: Option<(String, String)>)
    ensures
        match r {
            Some((before, after)) => first_split(s@, separator) == Some((before@, after@)),
            None => first_split(s@, separator) is None,
        },
        r is Some == s@.contains(separator),
{
    let chars = chars_of(s);
    for i in 0..chars.len()
        invariant
            chars@ == s@,
            forall|j: int| 0 <= j < i ==> #[trigger] s@[j] != separator,
    {
        if chars[i] == separator {
            proof {
                lemma_first_split(s@, separator, i as int);
                assert(s@.subrange(0, i as int) =~= s@.take(i as int));
                assert(s@.subrange(i + 1, s@.len() as int) =~= s@.skip(i + 1));
            }
            return Some((string_of(&chars, 0, i), string_of(&chars, i + 1, chars.len())));
        }
    }
    None
}

/// Whether a text begins with another.
pub open spec fn begins(s: Seq<char>, prefix: Seq<char>) -> bool {
    prefix.len() <= s.len() && s.take(prefix.len() as int) == prefix
}

/// A text without all that it begins with of a prefix that is repeated.
pub open spec fn trimmed(s: Seq<char>, prefix: Seq<char>) -> Seq<char>
    decreases s.len(),
{
    if prefix.len() > 0 && begins(s, prefix) {
        trimmed(s.skip(prefix.len() as int), prefix)
    } else {
        s
    }
}

/// The parts of a text between the separators.
pub open spec fn parts(s: Seq<char>, separator: char) -> Seq<Seq<char>>
    decreases s.len(),
{
    if s.contains(separator) {
        proof {
            lemma_split_joins(s, separator);
        }
        let split = first_split(s, separator)->0;
        seq![split.0] + parts(split.1, separator)
    } else {
        seq![s]
    }
}

/// The first of some texts that begins with a prefix.
pub open spec fn first_with(list: Seq<Seq<char>>, prefix: Seq<char>) -> Option<Seq<char>>
    decreases list.len(),
{
    if list.len() == 0 {
        None
    } else if begins(list[0], prefix) {
        Some(list[0])
    } else {
        first_with(list.drop_first(), prefix)
    }
}

/// Whether a text begins with another.
pub fn starts_with(s: &str, prefix: &str) -> (r: bool)
    ensures
        r == begins(s@, prefix@),
{
    let chars = chars_of(s);
    let wanted = chars_of(prefix);
    if wanted.len() > chars.len() {
        return false;
    }
    let mut i: usize = 0;
    while i < wanted.len()
        invariant
            i <= wanted@.len() <= chars@.len(),
            chars@ == s@,
            wanted@ == prefix@,
            forall|j: int| 0 <= j < i ==> s@[j] == #[trigger] prefix@[j],
        decreases wanted@.len() - i,
    {
        if chars[i] != wanted[i] {
            proof {
                if begins(s@, prefix@) {
                    assert(s@.take(prefix@.len() as int)[i as int] == s@[i as int]);
                }
            }
            return false;
        }
        i += 1;
    }
    assert(s@.take(prefix@.len() as int) =~= prefix@);
    true
}

/// A text without all that it begins with of a prefix that is repeated.
pub fn trim_start_matches(s: &str, prefix: &str) -> (r: String)
    ensures
        r@ == trimmed(s@, prefix@),
{
    let n: usize = chars_of(prefix).len();
    let mut rest: String = s.to_owned();
    if n == 0 {
        return rest;
    }
    while starts_with(rest.as_str(), prefix)
        invariant
            n == prefix@.len(),
            n > 0,
            trimmed(rest@, prefix@) == trimmed(s@, prefix@),
        decreases rest@.len(),
    {
        let chars = chars_of(rest.as_str());
        let shorter = string_of(&chars, n, chars.len());
        assert(shorter@ =~= rest@.skip(n as int));
        rest = shorter;
    }
    rest
}

/// The first part of a text, between separators, that begins with a prefix.
pub fn find_part(s: &str, separator: char, prefix: &str) -> (r: Option<String>)
    ensures
        text_opt(r) == first_with(parts(s@, separator), prefix@),
{
    let mut rest: String = s.to_owned();
    loop
        invariant
            first_with(parts(rest@, separator), prefix@) == first_with(
                parts(s@, separator),
                prefix@,
            ),
        decreases rest@.len(),
    {
        let ghost list = parts(rest@, separator);
        match split_once(rest.as_str(), separator) {
            Some((part, more)) => {
                proof {
                    lemma_split_joins(rest@, separator);
                    assert(list[0] == part@);
                    assert(list.drop_first() =~= parts(more@, separator));
                }
                if starts_with(part.as_str(), prefix) {
                    return Some(part);
                }
                rest = more;
            },
            None => {
                assert(list.drop_first() =~= Seq::<Seq<char>>::empty());
                assert(first_with(list.drop_first(), prefix@) is None);
                return if starts_with(rest.as_str(), prefix) {
                    Some(rest)
                } else {
                    None
                };
            },
        }
    }
}

/// The hexadecimal digit for a number under sixteen.
pub open spec fn hex_digit(d: int, upper: bool) -> char {
    if d < 10 {
        (48 + d) as char
    } else if upper {
        (55 + d) as char
    } else {
        (87 + d) as char
    }
}

/// The last `width` hexadecimal digits of a number, most significant first.
pub open spec fn hex_padded(n: nat, width: nat, upper: bool) -> Seq<char>
    decreases width,
{
    if width == 0 {
        Seq::empty()
    } else {
        hex_padded(n / 16, (width - 1) as nat, upper).push(hex_digit((n % 16) as int, upper))
    }
}

/// The hexadecimal digits of a number, without leading zeroes.
pub open spec fn hex(n: nat, upper: bool) -> Seq<char>
    decreases n,
{
    if n < 16 {
        seq![hex_digit(n as int, upper)]
    } else {
        hex(n / 16, upper).push(hex_digit((n % 16) as int, upper))
    }
}

/// Padded hexadecimal text takes one byte for each digit.
pub proof fn lemma_hex_bytes(n: nat, width: nat, upper: bool)
    ensures
        hex_padded(n, width, upper).len() == width,
        vstd::utf8::encode_utf8(hex_padded(n, width, upper)).len() == width,
{
    lemma_hex_ascii(n, width, upper);
    vstd::utf8::is_ascii_chars_encode_utf8(hex_padded(n, width, upper));
}

proof fn lemma_hex_ascii(n: nat, width: nat, upper: bool)
    ensures
        hex_padded(n, width, upper).len() == width,
        vstd::utf8::is_ascii_chars(hex_padded(n, width, upper)),
    decreases width,
{
    if width > 0 {
        lemma_hex_ascii(n / 16, (width - 1) as nat, upper);
    }
}

fn hex_char(d: u64, upper: bool) -> (c: char)
    requires
        d < 16,
    ensures
        c == hex_digit(d as int, upper),
{
    let code: u8 = if d < 10 {
        48 + d as u8
    } else if upper {
        55 + d as u8
    } else {
        87 + d as u8
    };
    code as char
}

/// The last `width` hexadecimal digits of a number, most significant first.
pub fn to_hex_padded(n: u64, width: usize, upper: bool) -> (s: String)
    ensures
        s@ == hex_padded(n as nat, width as nat, upper),
    decreases width,
{
    if width == 0 {
        String::new()
    } else {
        let mut s: String = to_hex_padded(n / 16, width - 1, upper);
        s.push(hex_char(n % 16, upper));
        s
    }
}

/// The hexadecimal digits of a number, without leading zeroes.
pub fn to_hex(n: u64, upper: bool) -> (s: String)
    ensures
        s@ == hex(n as nat, upper),
    decreases n,
{
    if n < 16 {
        let mut s: String = String::new();
        s.push(hex_char(n, upper));
        assert(s@ =~= seq![hex_digit(n as int, upper)]);
        s
    } else {
        let mut s: String = to_hex(n / 16, upper);
        s.push(hex_char(n % 16, upper));
        s
    }
}

/// The number that decimal digits stand for.
pub open spec fn decimal(digits: Seq<char>) -> nat
    decreases digits.len(),
{
    if digits.len() == 0 {
        0
    } else {
        (decimal(digits.drop_last()) * 10 + (digits.last() as int - 48)) as nat
    }
}

/// Whether a text is made of decimal digits.
pub open spec fn is_decimal(s: Seq<char>) -> bool {
    s.len() > 0 && forall|i: int| 0 <= i < s.len() ==> '0' <= #[trigger] s[i] <= '9'
}

/// The number of 32 bits that a text stands for: decimal digits, which may follow a plus sign.
pub open spec fn number_of(s: Seq<char>) -> Option<u32> {
    let digits = if s.len() > 0 && s[0] == '+' {
        s.skip(1)
    } else {
        s
    };
    if is_decimal(digits) && decimal(digits) <= u32::MAX {
        Some(decimal(digits) as u32)
    } else {
        None
    }
}

/// More digits stand for no smaller number.
proof fn lemma_decimal_grows(digits: Seq<char>, n: int)
    requires
        is_decimal(digits),
        0 <= n <= digits.len(),
    ensures
        decimal(digits.take(n)) <= decimal(digits),
    decreases digits.len(),
{
    if n == digits.len() {
        assert(digits.take(n) =~= digits);
    } else {
        let rest = digits.drop_last();
        assert('0' <= digits[digits.len() - 1] <= '9');
        assert(digits.take(n) =~= rest.take(n));
        if rest.len() > 0 {
            assert forall|i: int| 0 <= i < rest.len() implies '0' <= #[trigger] rest[i] <= '9' by {
                assert(rest[i] == digits[i]);
            }
            lemma_decimal_grows(rest, n);
        } else {
            assert(rest.take(n) =~= rest);
        }
    }
}

/// Reads a number of 32 bits; `None` where the text stands for none.
pub fn read_number(s: &str) -> (r: Option<u32>)
    ensures
        r == number_of(s@),
{
    let chars = chars_of(s);
    let start: usize = if chars.len() > 0 && chars[0] == '+' {
        1
    } else {
        0
    };
    let ghost digits = if s@.len() > 0 && s@[0] == '+' {
        s@.skip(1)
    } else {
        s@
    };
    assert(digits =~= s@.skip(start as int));
    if start == chars.len() {
        return None;
    }
    let mut value: u64 = 0;
    let mut i: usize = start;
    while i < chars.len()
        invariant
            start <= i <= chars@.len(),
            chars@ == s@,
            digits == s@.skip(start as int),
            digits == (if s@.len() > 0 && s@[0] == '+' {
                s@.skip(1)
            } else {
                s@
            }),
            digits.len() > 0,
            forall|j: int| 0 <= j < i - start ==> '0' <= #[trigger] digits[j] <= '9',
            value == decimal(digits.take(i - start)),
            value <= u32::MAX,
        decreases chars@.len() - i,
    {
        let c = chars[i];
        let ghost n = i - start;
        assert(digits[n] == c);
        if c < '0' || c > '9' {
            assert(!is_decimal(digits));
            return None;
        }
        value = value * 10 + (c as u64 - 48);
        proof {
            assert(digits.take(n + 1).drop_last() =~= digits.take(n));
            assert(digits.take(n + 1).last() == c);
        }
        if value > 0xffff_ffff {
            proof {
                if is_decimal(digits) {
                    lemma_decimal_grows(digits, n + 1);
                }
            }
            return None;
        }
        i += 1;
    }
    assert(digits.take(i - start) =~= digits);
    Some(value as u32)
}

/// Which digit stands for a number.
pub proof fn law_hex_digits(d: int, upper: bool)
    requires
        0 <= d < 16,
    ensures
        d < 10 ==> hex_digit(d, upper) as int == '0' as int + d,
        d >= 10 && upper ==> hex_digit(d, upper) as int == 'A' as int + d - 10,
        d >= 10 && !upper ==> hex_digit(d, upper) as int == 'a' as int + d - 10,
{
}

/// Two numbers of as many digits have different digits.
pub proof fn law_hex_apart(a: nat, b: nat, width: nat, upper: bool)
    requires
        hex_padded(a, width, upper) == hex_padded(b, width, upper),
        a < vstd::arithmetic::power::pow(16, width),
        b < vstd::arithmetic::power::pow(16, width),
    ensures
        a == b,
    decreases width,
{
    reveal(vstd::arithmetic::power::pow);
    if width > 0 {
        let x = hex_padded(a, width, upper);
        let y = hex_padded(b, width, upper);
        assert(x.last() == y.last());
        assert(x.drop_last() =~= hex_padded(a / 16, (width - 1) as nat, upper));
        assert(y.drop_last() =~= hex_padded(b / 16, (width - 1) as nat, upper));
        assert(a % 16 == b % 16) by {
            law_hex_digits((a % 16) as int, upper);
            law_hex_digits((b % 16) as int, upper);
        }
        law_hex_apart(a / 16, b / 16, (width - 1) as nat, upper);
    }
}

/// Two numbers have different digits, and none begins with a zero but 0 itself.
pub proof fn law_hex_names(a: nat, b: nat, upper: bool)
    ensures
        hex(a, upper) == hex(b, upper) ==> a == b,
        hex(a, upper).len() > 0,
        a > 0 ==> hex(a, upper)[0] != '0',
        a < 16 ==> hex(a, upper) == seq![hex_digit(a as int, upper)],
    decreases a,
{
    law_hex_digits((a % 16) as int, upper);
    law_hex_digits((b % 16) as int, upper);
    if a >= 16 {
        law_hex_names(a / 16, b / 16, upper);
        let x = hex(a, upper);
        assert(x.drop_last() =~= hex(a / 16, upper));
        assert(x.last() == hex_digit((a % 16) as int, upper));
        if x == hex(b, upper) {
            if b < 16 {
                assert(x.len() >= 2);
            } else {
                assert(hex(b, upper).drop_last() =~= hex(b / 16, upper));
                assert(hex(b, upper).last() == hex_digit((b % 16) as int, upper));
            }
        }
    } else if hex(a, upper) == hex(b, upper) {
        if b >= 16 {
            law_hex_names(b / 16, 0, upper);
            assert(hex(b, upper).len() >= 2);
        } else {
            assert(hex(a, upper)[0] == hex(b, upper)[0]);
        }
    }
}

/// Of two texts that first differ at a place, the one with the lesser character there comes before the other,
/// and a text comes before all that it is the beginning of.
pub proof fn law_lexicographic(a: Seq<char>, b: Seq<char>, at: int)
    requires
        0 <= at <= a.len() && at <= b.len(),
        a.take(at) == b.take(at),
    ensures
        at < a.len() && at < b.len() && a[at] < b[at] ==> lex_less(a, b) && !lex_less(b, a),
        at == a.len() && at < b.len() ==> lex_less(a, b) && !lex_less(b, a),
        at == a.len() && at == b.len() ==> !lex_less(a, b),
    decreases at,
{
    if at > 0 {
        let x = a.drop_first();
        let y = b.drop_first();
        assert(a[0] == a.take(at)[0] && b[0] == b.take(at)[0]);
        assert(x.take(at - 1) =~= a.take(at).drop_first());
        assert(y.take(at - 1) =~= b.take(at).drop_first());
        law_lexicographic(x, y, at - 1);
    }
}

/// A text is taken apart into parts without separators, and is made of them with a separator between each
/// two.
pub proof fn law_parts(s: Seq<char>, separator: char)
    ensures
        parts(s, separator).len() > 0,
        forall|i: int|
            0 <= i < parts(s, separator).len() ==> !(#[trigger] parts(s, separator)[i]).contains(
                separator,
            ),
        woven(parts(s, separator), separator) == s,
    decreases s.len(),
{
    if s.contains(separator) {
        lemma_split_joins(s, separator);
        let (first, rest) = first_split(s, separator)->0;
        lemma_first_at(s, separator);
        lemma_first_split(s, separator, first_at(s, separator));
        law_parts(rest, separator);
        let all = parts(s, separator);
        assert(all =~= seq![first] + parts(rest, separator));
        assert(!first.contains(separator)) by {
            if first.contains(separator) {
                let i = choose|i: int| 0 <= i < first.len() && first[i] == separator;
                assert(s[i] == separator);
            }
        }
        assert forall|i: int| 0 <= i < all.len() implies !(#[trigger] all[i]).contains(
            separator,
        ) by {
            if i > 0 {
                assert(all[i] == parts(rest, separator)[i - 1]);
            }
        }
        assert(all.drop_first() =~= parts(rest, separator));
        assert(woven(all, separator) == first + seq![separator] + rest);
        assert(s =~= first + seq![separator] + rest);
    } else {
        assert(parts(s, separator).drop_first() =~= Seq::<Seq<char>>::empty());
    }
}

/// Texts with a separator between each two.
pub open spec fn woven(list: Seq<Seq<char>>, separator: char) -> Seq<char>
    decreases list.len(),
{
    if list.len() == 0 {
        Seq::empty()
    } else if list.len() == 1 {
        list[0]
    } else {
        list[0] + seq![separator] + woven(list.drop_first(), separator)
    }
}

/// What stands before the first separator has none, and with the separator and what stands after it makes up
/// the text. Without a separator there is no such split.
pub proof fn law_first_split(s: Seq<char>, separator: char)
    ensures
        first_split(s, separator) is Some == s.contains(separator),
        first_split(s, separator) matches Some((a, b)) ==> s == a + seq![separator] + b
            && !a.contains(separator),
{
    if s.contains(separator) {
        lemma_split_joins(s, separator);
        lemma_first_at(s, separator);
        lemma_first_split(s, separator, first_at(s, separator));
        let (a, b) = first_split(s, separator)->0;
        assert(s =~= a + seq![separator] + b);
        if a.contains(separator) {
            let i = choose|i: int| 0 <= i < a.len() && a[i] == separator;
            assert(s[i] == separator);
        }
    }
}

/// The first part that begins with a prefix is found.
pub proof fn law_first_with(list: Seq<Seq<char>>, prefix: Seq<char>)
    ensures
        match first_with(list, prefix) {
            Some(found) => exists|i: int|
                0 <= i < list.len() && #[trigger] list[i] == found && prefix.is_prefix_of(list[i])
                    && forall|j: int| 0 <= j < i ==> !prefix.is_prefix_of(#[trigger] list[j]),
            None => forall|j: int| 0 <= j < list.len() ==> !prefix.is_prefix_of(#[trigger] list[j]),
        },
    decreases list.len(),
{
    if list.len() > 0 {
        let rest = list.drop_first();
        law_first_with(rest, prefix);
        assert(begins(list[0], prefix) == prefix.is_prefix_of(list[0])) by {
            if begins(list[0], prefix) {
                assert(list[0].take(prefix.len() as int) =~= list[0].subrange(
                    0,
                    prefix.len() as int,
                ));
            }
            if prefix.is_prefix_of(list[0]) {
                assert(list[0].take(prefix.len() as int) =~= prefix);
            }
        }
        if begins(list[0], prefix) {
            assert(list[0] == first_with(list, prefix)->0);
        } else {
            match first_with(rest, prefix) {
                Some(found) => {
                    let i = choose|i: int|
                        0 <= i < rest.len() && #[trigger] rest[i] == found && prefix.is_prefix_of(
                            rest[i],
                        ) && forall|j: int|
                            0 <= j < i ==> !prefix.is_prefix_of(#[trigger] rest[j]);
                    assert(list[i + 1] == found);
                    assert forall|j: int| 0 <= j < i + 1 implies !prefix.is_prefix_of(
                        #[trigger] list[j],
                    ) by {
                        if j > 0 {
                            assert(rest[j - 1] == list[j]);
                        }
                    }
                },
                None => {
                    assert forall|j: int| 0 <= j < list.len() implies !prefix.is_prefix_of(
                        #[trigger] list[j],
                    ) by {
                        if j > 0 {
                            assert(rest[j - 1] == list[j]);
                        }
                    }
                },
            }
        }
    }
}

/// A prefix is taken away as often as it is repeated at the start.
pub proof fn law_trimmed(s: Seq<char>, prefix: Seq<char>)
    ensures
        prefix.len() > 0 ==> trimmed(prefix + s, prefix) == trimmed(s, prefix),
        prefix.len() == 0 ==> trimmed(s, prefix) == s,
        !prefix.is_prefix_of(s) ==> trimmed(s, prefix) == s,
{
    let whole = prefix + s;
    assert(whole.take(prefix.len() as int) =~= prefix);
    assert(whole.skip(prefix.len() as int) =~= s);
    if begins(s, prefix) {
        assert(prefix =~= s.subrange(0, prefix.len() as int));
        assert(prefix.is_prefix_of(s));
    }
}

/// A number is read from its decimal digits, the last of which counts once and each further one ten times as
/// much as the one behind it.
pub proof fn law_number_read(s: &str, r: Option<u32>, d: char, more: Seq<char>)
    requires
        call_ensures(read_number, (s,), r),
    ensures
        '0' <= d <= '9' && s@ == more.push(d) && is_decimal(more) ==> ({
            let whole = decimal(more) * 10 + (d as int - '0' as int);
            r == (if whole <= u32::MAX {
                Some(whole as u32)
            } else {
                None
            })
        }),
        '0' <= d <= '9' && s@ == seq![d] ==> r == Some((d as int - '0' as int) as u32),
        s@.len() == 0 ==> r is None,
        (exists|i: int| 0 < i < s@.len() && !('0' <= #[trigger] s@[i] <= '9')) ==> r is None,
{
    if '0' <= d <= '9' && s@ == more.push(d) && is_decimal(more) {
        assert(s@.drop_last() =~= more);
        assert(s@.last() == d);
        assert(s@[0] == more[0]);
        assert('0' <= more[0] <= '9');
        assert forall|i: int| 0 <= i < s@.len() implies '0' <= #[trigger] s@[i] <= '9' by {
            if i < more.len() {
                assert(s@[i] == more[i]);
            }
        }
    }
    if '0' <= d <= '9' && s@ == seq![d] {
        assert(s@.drop_last() =~= Seq::<char>::empty());
        assert(decimal(s@.drop_last()) == 0);
        assert(s@[0] == d);
    }
    if exists|i: int| 0 < i < s@.len() && !('0' <= #[trigger] s@[i] <= '9') {
        let i = choose|i: int| 0 < i < s@.len() && !('0' <= #[trigger] s@[i] <= '9');
        assert(s@.skip(1)[i - 1] == s@[i]);
    }
}

} // verus!
