//! Text: decimal and hexadecimal numbers, searching, joining, and the order
//! that keys are kept in.

use vstd::prelude::*;
use vstd::string::*;
use vstd::utf8::*;

verus! {

broadcast use vstd::string::group_string_axioms;

// ---------------------------------------------------------------------------
// Bytes

/// The text `String::from_utf8_lossy` makes of bytes.
pub uninterp spec fn lossy_text(bytes: Seq<u8>) -> Seq<char>;

/// Whether bytes are UTF-8, by `std::str::from_utf8`, which takes exactly
/// those that are.
#[verifier::external_body]
pub(crate) fn is_utf8(bytes: &[u8]) -> (r: bool)
    ensures
        r == valid_utf8(bytes@),
{
    std::str::from_utf8(bytes).is_ok()
}

/// The text of bytes by `String::from_utf8_lossy`. It is the one that
/// `lossy_text` names: the text that valid UTF-8 stands for, and otherwise
/// one with replacement characters.
#[verifier::external_body]
pub(crate) fn lossy(bytes: &[u8]) -> (r: String)
    ensures
        r@ == lossy_text(bytes@),
        valid_utf8(bytes@) ==> r@ == decode_utf8(bytes@),
{
    String::from_utf8_lossy(bytes).into_owned()
}

// ---------------------------------------------------------------------------
// Building

/// `String::push` appends one character, as the standard library documents it.
pub assume_specification[ String::push ](s: &mut String, c: char)
    ensures
        final(s)@ == old(s)@.push(c),
;

/// The characters of a text, one by one.
pub fn chars_of(s: &str) -> (r: Vec<char>)
    ensures
        r@ == s@,
{
    let mut r: Vec<char> = Vec::new();
    for c in it: s.chars()
        invariant
            r@ =~= s@.take(it.index() as int),
            it.seq() == s@,
    {
        r.push(c);
    }
    assert(s@.take(s@.len() as int) =~= s@);
    r
}

/// The text of `chars[from..to]`.
pub fn text_of(chars: &Vec<char>, from: usize, to: usize) -> (r: String)
    requires
        from <= to <= chars@.len(),
    ensures
        r@ == chars@.subrange(from as int, to as int),
{
    let mut r = String::new();
    for i in from..to
        invariant
            from <= i <= to <= chars@.len(),
            r@ =~= chars@.subrange(from as int, i as int),
    {
        r.push(chars[i]);
    }
    r
}

/// Whether two texts are the same.
pub fn text_eq(a: &str, b: &str) -> (r: bool)
    ensures
        r == (a@ == b@),
{
    let x = a.as_bytes();
    let y = b.as_bytes();
    let r = bytes_eq(x, y);
    proof {
        encode_utf8_decode_utf8(a@);
        encode_utf8_decode_utf8(b@);
    }
    r
}

/// Whether two byte strings are the same.
pub fn bytes_eq(x: &[u8], y: &[u8]) -> (r: bool)
    ensures
        r == (x@ == y@),
{
    if x.len() != y.len() {
        return false;
    }
    let mut i: usize = 0;
    while i < x.len()
        invariant
            x@.len() == y@.len(),
            i <= x@.len(),
            forall|j: int| 0 <= j < i ==> x@[j] == y@[j],
        decreases x@.len() - i,
    {
        if x[i] != y[i] {
            return false;
        }
        i = i + 1;
    }
    assert(x@ =~= y@);
    true
}

// ---------------------------------------------------------------------------
// Order

/// Lexicographic order of byte strings.
pub open spec fn bytes_before(a: Seq<u8>, b: Seq<u8>) -> bool
    decreases a.len(),
{
    if b.len() == 0 {
        false
    } else if a.len() == 0 {
        true
    } else if a[0] != b[0] {
        a[0] < b[0]
    } else {
        bytes_before(a.drop_first(), b.drop_first())
    }
}

/// The order of texts: that of their UTF-8 bytes.
pub open spec fn text_before(a: Seq<char>, b: Seq<char>) -> bool {
    bytes_before(encode_utf8(a), encode_utf8(b))
}

/// No byte string comes before itself.
pub proof fn lemma_bytes_before_irreflexive(a: Seq<u8>)
    ensures
        !bytes_before(a, a),
    decreases a.len(),
{
    if a.len() > 0 {
        lemma_bytes_before_irreflexive(a.drop_first());
    }
}

/// What comes before something comes before what follows it.
pub proof fn lemma_bytes_before_transitive(a: Seq<u8>, b: Seq<u8>, c: Seq<u8>)
    requires
        bytes_before(a, b),
        bytes_before(b, c),
    ensures
        bytes_before(a, c),
    decreases a.len(),
{
    if a.len() > 0 && a[0] == b[0] && b[0] == c[0] {
        lemma_bytes_before_transitive(a.drop_first(), b.drop_first(), c.drop_first());
    }
}

/// Of two different byte strings one comes first.
pub proof fn lemma_bytes_before_total(a: Seq<u8>, b: Seq<u8>)
    requires
        a != b,
    ensures
        bytes_before(a, b) || bytes_before(b, a),
    decreases a.len(),
{
    if a.len() == 0 || b.len() == 0 {
        if a.len() == 0 && b.len() == 0 {
            assert(a =~= b);
        }
    } else if a[0] == b[0] {
        if a.drop_first() == b.drop_first() {
            assert(a =~= seq![a[0]] + a.drop_first());
            assert(b =~= seq![b[0]] + b.drop_first());
        }
        lemma_bytes_before_total(a.drop_first(), b.drop_first());
    }
}

/// Of two different texts one comes first.
pub proof fn lemma_text_before_total(a: Seq<char>, b: Seq<char>)
    requires
        a != b,
    ensures
        text_before(a, b) || text_before(b, a),
{
    encode_utf8_decode_utf8(a);
    encode_utf8_decode_utf8(b);
    lemma_bytes_before_total(encode_utf8(a), encode_utf8(b));
}

/// Whether the text `a` comes before the text `b`.
pub fn text_precedes(a: &str, b: &str) -> (r: bool)
    ensures
        r == text_before(a@, b@),
{
    let x = a.as_bytes();
    let y = b.as_bytes();
    let mut i: usize = 0;
    assert(x@.skip(0) =~= x@);
    assert(y@.skip(0) =~= y@);
    while i < x.len() && i < y.len()
        invariant
            i <= x@.len(),
            i <= y@.len(),
            x@ == encode_utf8(a@),
            y@ == encode_utf8(b@),
            bytes_before(x@, y@) == bytes_before(x@.skip(i as int), y@.skip(i as int)),
        decreases x@.len() - i,
    {
        if x[i] != y[i] {
            return x[i] < y[i];
        }
        assert(x@.skip(i as int).drop_first() =~= x@.skip(i + 1));
        assert(y@.skip(i as int).drop_first() =~= y@.skip(i + 1));
        i = i + 1;
    }
    i < y.len()
}

// ---------------------------------------------------------------------------
// Numbers

/// The character of a decimal digit.
pub open spec fn digit(d: int) -> char {
    (48 + d) as char
}

/// The decimal digits of a number, without leading zeros.
pub open spec fn decimal(n: nat) -> Seq<char>
    decreases n,
{
    if n < 10 {
        seq![digit(n as int)]
    } else {
        decimal(n / 10).push(digit(n as int % 10))
    }
}

/// The decimal digits of a number, behind a minus sign when it is negative.
pub open spec fn signed_decimal(n: int) -> Seq<char> {
    if n < 0 {
        seq!['-'] + decimal((-n) as nat)
    } else {
        decimal(n as nat)
    }
}

fn digit_char(d: u64) -> (c: char)
    requires
        d < 10,
    ensures
        c == digit(d as int),
{
    match d {
        0 => '0',
        1 => '1',
        2 => '2',
        3 => '3',
        4 => '4',
        5 => '5',
        6 => '6',
        7 => '7',
        8 => '8',
        _ => '9',
    }
}

/// A number in decimal digits.
pub fn decimal_text(n: u64) -> (r: String)
    ensures
        r@ == decimal(n as nat),
    decreases n,
{
    if n < 10 {
        let mut r = String::new();
        r.push(digit_char(n));
        assert(r@ =~= decimal(n as nat));
        r
    } else {
        let mut r = decimal_text(n / 10);
        r.push(digit_char(n % 10));
        r
    }
}

/// A signed number in decimal digits.
pub fn signed_decimal_text(n: i64) -> (r: String)
    ensures
        r@ == signed_decimal(n as int),
{
    if n < 0 {
        let size: u64 = if n == i64::MIN {
            0x8000_0000_0000_0000
        } else {
            (-n) as u64
        };
        let mut r = String::new();
        r.push('-');
        let digits = decimal_text(size);
        r.append(digits.as_str());
        assert(r@ =~= signed_decimal(n as int));
        r
    } else {
        decimal_text(n as u64)
    }
}

/// Whether a character is a decimal digit.
pub open spec fn is_digit(c: char) -> bool {
    48 <= c as u32 <= 57
}

/// The number that a row of decimal digits writes.
pub open spec fn digits_value(s: Seq<char>) -> nat
    decreases s.len(),
{
    if s.len() == 0 {
        0
    } else {
        digits_value(s.drop_last()) * 10 + (s.last() as u32 - 48) as nat
    }
}

/// A row of digits, after one optional plus sign.
pub open spec fn unsigned_part(s: Seq<char>) -> Seq<char> {
    if s.len() > 0 && s[0] == '+' {
        s.drop_first()
    } else {
        s
    }
}

/// The number a text writes: at least one decimal digit, nothing but digits,
/// after one optional plus sign.
pub open spec fn number_of(s: Seq<char>) -> Option<nat> {
    let digits = unsigned_part(s);
    if digits.len() > 0 && (forall|i: int| 0 <= i < digits.len() ==> is_digit(digits[i])) {
        Some(digits_value(digits))
    } else {
        None
    }
}

/// The number a text writes, where it fits a `usize`.
pub open spec fn usize_of(s: Seq<char>) -> Option<usize> {
    match number_of(s) {
        Some(n) if n <= usize::MAX => Some(n as usize),
        _ => None,
    }
}

/// Parses a `usize` as the standard library does.
pub fn parse_usize(s: &str) -> (r: Option<usize>)
    ensures
        r == usize_of(s@),
{
    let chars = chars_of(s);
    let start: usize = if chars.len() > 0 && chars[0] == '+' {
        1
    } else {
        0
    };
    let ghost digits = unsigned_part(s@);
    assert(digits =~= chars@.skip(start as int));
    if chars.len() == start {
        return None;
    }
    let mut value: usize = 0;
    let mut full: bool = false;
    let mut i: usize = start;
    while i < chars.len()
        invariant
            start <= i <= chars@.len(),
            digits == chars@.skip(start as int),
            digits == unsigned_part(s@),
            forall|j: int| 0 <= j < i - start ==> is_digit(digits[j]),
            !full ==> value == digits_value(digits.take(i - start)),
            full ==> digits_value(digits.take(i - start)) > usize::MAX,
        decreases chars@.len() - i,
    {
        let c = chars[i];
        assert(c == digits[i - start]);
        let code: u32 = c as u32;
        if code < 48 || code > 57 {
            assert(!is_digit(digits[i - start]));
            return None;
        }
        let ghost before = digits.take(i - start);
        let ghost after = digits.take(i - start + 1);
        assert(after.drop_last() =~= before);
        assert(after.last() == c);
        let d: usize = (code - 48) as usize;
        if !full {
            match value.checked_mul(10) {
                Some(ten) => match ten.checked_add(d) {
                    Some(next) => {
                        value = next;
                    },
                    None => {
                        full = true;
                    },
                },
                None => {
                    full = true;
                },
            }
        }
        i = i + 1;
    }
    assert(digits.take(chars@.len() - start) =~= digits);
    if full {
        None
    } else {
        Some(value)
    }
}

/// The decimal digits of a number are digits, and write it.
pub proof fn lemma_decimal_digits(n: nat)
    ensures
        decimal(n).len() > 0,
        forall|i: int| 0 <= i < decimal(n).len() ==> is_digit(decimal(n)[i]),
        digits_value(decimal(n)) == n,
    decreases n,
{
    reveal_with_fuel(digits_value, 2);
    if n >= 10 {
        lemma_decimal_digits(n / 10);
        assert(decimal(n).drop_last() =~= decimal(n / 10));
    } else {
        assert(decimal(n).drop_last() =~= Seq::<char>::empty());
    }
}

/// Different numbers have different decimal digits.
pub proof fn decimal_is_injective(a: nat, b: nat)
    ensures
        decimal(a) == decimal(b) ==> a == b,
{
    lemma_decimal_digits(a);
    lemma_decimal_digits(b);
}

/// What `decimal_text` writes, `parse_usize` reads back.
pub proof fn decimal_reads_back(n: usize)
    ensures
        usize_of(decimal(n as nat)) == Some(n),
{
    lemma_decimal_digits(n as nat);
    assert(is_digit(decimal(n as nat)[0]));
    assert(unsigned_part(decimal(n as nat)) == decimal(n as nat));
}

/// The character of a lower-case hexadecimal digit.
pub open spec fn hex_digit(d: int) -> char {
    if d < 10 {
        (48 + d) as char
    } else {
        (87 + d) as char
    }
}

/// The last `width` hexadecimal digits of a number.
pub open spec fn hex(n: nat, width: nat) -> Seq<char>
    decreases width,
{
    if width == 0 {
        Seq::empty()
    } else {
        hex(n / 16, (width - 1) as nat).push(hex_digit(n as int % 16))
    }
}

fn hex_char(d: u64) -> (c: char)
    requires
        d < 16,
    ensures
        c == hex_digit(d as int),
{
    match d {
        10 => 'a',
        11 => 'b',
        12 => 'c',
        13 => 'd',
        14 => 'e',
        15 => 'f',
        _ => digit_char(d),
    }
}

/// The last `width` hexadecimal digits of a number, leading zeros included.
pub fn hex_text(n: u64, width: u8) -> (r: String)
    ensures
        r@ == hex(n as nat, width as nat),
    decreases width,
{
    if width == 0 {
        let r = String::new();
        assert(r@ =~= hex(n as nat, 0));
        r
    } else {
        let mut r = hex_text(n / 16, (width - 1) as u8);
        r.push(hex_char(n % 16));
        r
    }
}

/// `true` or `false`.
pub open spec fn bool_word(b: bool) -> Seq<char> {
    if b {
        "true"@
    } else {
        "false"@
    }
}

/// `true` or `false`.
pub fn bool_text(b: bool) -> (r: String)
    ensures
        r@ == bool_word(b),
{
    if b {
        "true".to_owned()
    } else {
        "false".to_owned()
    }
}

// ---------------------------------------------------------------------------
// Searching and cutting

/// Whether `needle` stands in `s` at position `i`.
pub open spec fn stands_at(s: Seq<char>, needle: Seq<char>, i: int) -> bool {
    0 <= i && i + needle.len() <= s.len() && s.subrange(i, i + needle.len() as int) == needle
}

/// Whether `needle` stands anywhere in `s`.
pub open spec fn contains_text(s: Seq<char>, needle: Seq<char>) -> bool {
    exists|i: int| stands_at(s, needle, i)
}

/// Where `needle` first stands in `s`.
pub open spec fn first_place(s: Seq<char>, needle: Seq<char>, i: int) -> bool {
    stands_at(s, needle, i) && forall|j: int| 0 <= j < i ==> !stands_at(s, needle, j)
}

fn stands_here(s: &Vec<char>, needle: &Vec<char>, i: usize) -> (r: bool)
    ensures
        r == stands_at(s@, needle@, i as int),
{
    if i > s.len() || needle.len() > s.len() - i {
        return false;
    }
    let len: usize = s.len();
    let mut j: usize = 0;
    while j < needle.len()
        invariant
            len == s@.len(),
            i + needle@.len() <= s@.len(),
            j <= needle@.len(),
            forall|k: int| 0 <= k < j ==> s@[i + k] == needle@[k],
        decreases needle@.len() - j,
    {
        if s[i + j] != needle[j] {
            assert(s@.subrange(i as int, i + needle@.len() as int)[j as int] != needle@[j as int]);
            return false;
        }
        j = j + 1;
    }
    assert(s@.subrange(i as int, i + needle@.len() as int) =~= needle@);
    true
}

fn find_chars(s: &Vec<char>, needle: &Vec<char>) -> (r: Option<usize>)
    ensures
        match r {
            Some(i) => first_place(s@, needle@, i as int),
            None => !contains_text(s@, needle@),
        },
{
    if needle.len() > s.len() {
        return None;
    }
    let last: usize = s.len() - needle.len();
    let mut i: usize = 0;
    while i <= last
        invariant
            i <= last + 1,
            last == s@.len() - needle@.len(),
            forall|j: int| 0 <= j < i ==> !stands_at(s@, needle@, j),
        decreases last + 1 - i,
    {
        if stands_here(s, needle, i) {
            return Some(i);
        }
        if i == last {
            return None;
        }
        i = i + 1;
    }
    None
}

/// Where `needle` first stands in `s`, counted in characters.
pub fn find_text(s: &str, needle: &str) -> (r: Option<usize>)
    ensures
        match r {
            Some(i) => first_place(s@, needle@, i as int),
            None => !contains_text(s@, needle@),
        },
{
    let a = chars_of(s);
    let b = chars_of(needle);
    find_chars(&a, &b)
}

/// Whether `needle` stands anywhere in `s`.
pub fn has_text(s: &str, needle: &str) -> (r: bool)
    ensures
        r == contains_text(s@, needle@),
{
    find_text(s, needle).is_some()
}

/// Whether `s` starts with `prefix`.
pub fn starts_with_text(s: &str, prefix: &str) -> (r: bool)
    ensures
        r == stands_at(s@, prefix@, 0),
{
    let a = chars_of(s);
    let b = chars_of(prefix);
    stands_here(&a, &b, 0)
}

/// `s` with the first `from` in it turned into `to`.
pub open spec fn replaced_first(s: Seq<char>, from: Seq<char>, to: Seq<char>) -> Seq<char> {
    if contains_text(s, from) {
        let i = choose|i: int| first_place(s, from, i);
        s.take(i) + to + s.skip(i + from.len() as int)
    } else {
        s
    }
}

/// There is one first place.
pub proof fn lemma_first_place_unique(s: Seq<char>, needle: Seq<char>, i: int, j: int)
    requires
        first_place(s, needle, i),
        first_place(s, needle, j),
    ensures
        i == j,
{
}

/// `s` with the first `from` in it turned into `to`.
pub fn replace_first(s: &str, from: &str, to: &str) -> (r: String)
    ensures
        r@ == replaced_first(s@, from@, to@),
{
    let a = chars_of(s);
    let b = chars_of(from);
    match find_chars(&a, &b) {
        Some(i) => {
            let len: usize = a.len();
            let mut r = text_of(&a, 0, i);
            r.append(to);
            let rest = text_of(&a, i + b.len(), len);
            r.append(rest.as_str());
            proof {
                let k = choose|k: int| first_place(s@, from@, k);
                assert(first_place(s@, from@, i as int));
                lemma_first_place_unique(s@, from@, i as int, k);
                assert(r@ =~= replaced_first(s@, from@, to@));
            }
            r
        },
        None => s.to_owned(),
    }
}

/// `s` with every `from` in it turned into `to`, from the left on.
pub open spec fn replaced_all(s: Seq<char>, from: Seq<char>, to: Seq<char>) -> Seq<char>
    decreases s.len(),
{
    if from.len() > 0 && contains_text(s, from) {
        let i = choose|i: int| first_place(s, from, i);
        proof {
            lemma_found_somewhere(s, from);
        }
        s.take(i) + to + replaced_all(s.skip(i + from.len() as int), from, to)
    } else {
        s
    }
}

/// What stands in a text has a first place there.
pub proof fn lemma_found_somewhere(s: Seq<char>, needle: Seq<char>)
    requires
        contains_text(s, needle),
    ensures
        exists|i: int| first_place(s, needle, i),
{
    let i = choose|i: int| stands_at(s, needle, i);
    lemma_found_by(s, needle, i);
}

proof fn lemma_found_by(s: Seq<char>, needle: Seq<char>, i: int)
    requires
        stands_at(s, needle, i),
    ensures
        exists|j: int| first_place(s, needle, j),
    decreases i,
{
    if exists|j: int| 0 <= j < i && stands_at(s, needle, j) {
        let j = choose|j: int| 0 <= j < i && stands_at(s, needle, j);
        lemma_found_by(s, needle, j);
    } else {
        assert(first_place(s, needle, i));
    }
}

/// `s` with every `from` in it turned into `to`, from the left on.
pub fn replace_all(s: &str, from: &str, to: &str) -> (r: String)
    requires
        from@.len() > 0,
    ensures
        r@ == replaced_all(s@, from@, to@),
{
    let b = chars_of(from);
    let mut rest = chars_of(s);
    let mut r = String::new();
    loop
        invariant_except_break
            b@ == from@,
            b@.len() > 0,
            r@ + replaced_all(rest@, from@, to@) == replaced_all(s@, from@, to@),
        ensures
            r@ == replaced_all(s@, from@, to@),
        decreases rest@.len(),
    {
        match find_chars(&rest, &b) {
            Some(i) => {
                let before = text_of(&rest, 0, i);
                let ghost old_r = r@;
                let ghost old_rest = rest@;
                r.append(before.as_str());
                r.append(to);
                let len: usize = rest.len();
                let after = text_of(&rest, i + b.len(), len);
                rest = chars_of(after.as_str());
                proof {
                    assert(contains_text(old_rest, from@));
                    let j = choose|j: int| first_place(old_rest, from@, j);
                    lemma_first_place_unique(old_rest, from@, i as int, j);
                    assert(rest@ =~= old_rest.skip(i + from@.len() as int));
                    assert(before@ =~= old_rest.take(i as int));
                    assert(r@ + replaced_all(rest@, from@, to@) =~= old_r + replaced_all(
                        old_rest,
                        from@,
                        to@,
                    ));
                }
            },
            None => {
                let len: usize = rest.len();
                let tail = text_of(&rest, 0, len);
                assert(tail@ =~= rest@);
                r.append(tail.as_str());
                break;
            },
        }
    }
    r
}

/// The part of a text before the first `c`, or all of it.
pub open spec fn before_char(s: Seq<char>, c: char) -> Seq<char>
    decreases s.len(),
{
    if s.len() == 0 || s[0] == c {
        Seq::empty()
    } else {
        seq![s[0]] + before_char(s.drop_first(), c)
    }
}

/// The part of a text before the first `c`, or all of it.
pub fn part_before(s: &str, c: char) -> (r: String)
    ensures
        r@ == before_char(s@, c),
{
    let a = chars_of(s);
    let mut i: usize = 0;
    assert(a@.skip(0) =~= a@);
    while i < a.len() && a[i] != c
        invariant
            a@ == s@,
            i <= a@.len(),
            before_char(a@, c) =~= a@.take(i as int) + before_char(a@.skip(i as int), c),
        decreases a@.len() - i,
    {
        assert(a@.skip(i as int).drop_first() =~= a@.skip(i + 1));
        assert(a@.take(i + 1) =~= a@.take(i as int).push(a@[i as int]));
        i = i + 1;
    }
    let r = text_of(&a, 0, i);
    assert(r@ =~= before_char(a@, c));
    r
}

/// Texts in a row, with `sep` between neighbours.
pub open spec fn joined(parts: Seq<Seq<char>>, sep: Seq<char>) -> Seq<char>
    decreases parts.len(),
{
    if parts.len() == 0 {
        Seq::empty()
    } else if parts.len() == 1 {
        parts[0]
    } else {
        joined(parts.drop_last(), sep) + sep + parts.last()
    }
}

/// The texts of a row of strings.
pub open spec fn texts(v: Seq<String>) -> Seq<Seq<char>> {
    v.map_values(|s: String| s@)
}

/// Texts in a row, with `sep` between neighbours.
pub fn join_texts(parts: &Vec<String>, sep: &str) -> (r: String)
    ensures
        r@ == joined(texts(parts@), sep@),
{
    let mut r = String::new();
    let mut i: usize = 0;
    while i < parts.len()
        invariant
            i <= parts@.len(),
            r@ =~= joined(texts(parts@).take(i as int), sep@),
        decreases parts@.len() - i,
    {
        if i > 0 {
            r.append(sep);
        }
        r.append(parts[i].as_str());
        assert(texts(parts@).take(i + 1).drop_last() =~= texts(parts@).take(i as int));
        assert(texts(parts@).take(i + 1).last() == parts@[i as int]@);
        i = i + 1;
    }
    assert(texts(parts@).take(parts@.len() as int) =~= texts(parts@));
    r
}

/// The first `n` characters of a text, or all of it.
pub open spec fn head(s: Seq<char>, n: int) -> Seq<char> {
    if s.len() <= n {
        s
    } else {
        s.take(n)
    }
}

/// The first `n` characters of a text, or all of it.
pub fn head_text(s: &str, n: usize) -> (r: String)
    ensures
        r@ == head(s@, n as int),
{
    let a = chars_of(s);
    let to: usize = if a.len() <= n {
        a.len()
    } else {
        n
    };
    let r = text_of(&a, 0, to);
    assert(r@ =~= head(s@, n as int));
    r
}

/// A text without the carriage return at its end.
pub open spec fn without_return(s: Seq<char>) -> Seq<char> {
    if s.len() > 0 && s.last() == '\r' {
        s.drop_last()
    } else {
        s
    }
}

/// The lines of a text: what stands between line feeds, each without the
/// carriage return before its line feed. Nothing behind the last line feed is
/// no line.
pub open spec fn lines_of(s: Seq<char>) -> Seq<Seq<char>>
    decreases s.len(),
{
    if s.len() == 0 {
        Seq::empty()
    } else if s.contains('\n') {
        let i = s.index_of_first('\n')->0;
        proof {
            s.index_of_first_ensures('\n');
        }
        seq![without_return(s.take(i))] + lines_of(s.skip(i + 1))
    } else {
        seq![s]
    }
}

/// The lines of a text.
pub fn split_lines(s: &str) -> (r: Vec<String>)
    ensures
        texts(r@) == lines_of(s@),
{
    let a = chars_of(s);
    let mut r: Vec<String> = Vec::new();
    let mut start: usize = 0;
    let mut i: usize = 0;
    assert(a@.skip(0) =~= a@);
    while i < a.len()
        invariant
            a@ == s@,
            start <= i <= a@.len(),
            forall|j: int| start <= j < i ==> a@[j] != '\n',
            lines_of(s@) =~= texts(r@) + lines_of(a@.skip(start as int)),
        decreases a@.len() - i,
    {
        if a[i] == '\n' {
            let end: usize = if i > start && a[i - 1] == '\r' {
                i - 1
            } else {
                i
            };
            let line = text_of(&a, start, end);
            proof {
                let rest = a@.skip(start as int);
                let k = i - start;
                assert(rest[k] == '\n');
                rest.index_of_first_ensures('\n');
                let f = rest.index_of_first('\n')->0;
                assert(f == k) by {
                    if f < k {
                        assert(rest[f] == a@[start + f]);
                    }
                }
                assert(line@ =~= without_return(rest.take(k)));
                assert(rest.skip(k + 1) =~= a@.skip(i + 1));
                assert(texts(r@.push(line)) =~= texts(r@).push(line@));
            }
            r.push(line);
            start = i + 1;
        }
        i = i + 1;
    }
    let ghost rest = a@.skip(start as int);
    if start < a.len() {
        let line = text_of(&a, start, a.len());
        proof {
            assert(!rest.contains('\n')) by {
                if rest.contains('\n') {
                    let k = choose|k: int| 0 <= k < rest.len() && rest[k] == '\n';
                    assert(a@[start + k] == '\n');
                }
            }
            assert(line@ =~= rest);
            assert(texts(r@.push(line)) =~= texts(r@).push(line@));
        }
        r.push(line);
    }
    r
}

// ---------------------------------------------------------------------------
// Laws

/// What stands before the first mark is the part before it: all of a text
/// that has no mark, and of any other the front without one.
pub proof fn a_part_ends_before_its_mark(front: Seq<char>, mark: char, rest: Seq<char>)
    requires
        !front.contains(mark),
        rest.len() > 0 ==> rest[0] == mark,
    ensures
        before_char(front + rest, mark) == front,
    decreases front.len(),
{
    let s = front + rest;
    if front.len() == 0 {
        assert(s =~= rest);
    } else {
        let tail = front.drop_first();
        assert forall|i: int| 0 <= i < tail.len() implies tail[i] != mark by {
            assert(front[i + 1] != mark) by {
                if front[i + 1] == mark {
                    assert(front.contains(mark));
                }
            }
        }
        assert(front[0] != mark) by {
            if front[0] == mark {
                assert(front.contains(mark));
            }
        }
        a_part_ends_before_its_mark(tail, mark, rest);
        assert(s.drop_first() =~= tail + rest);
        assert(seq![s[0]] + tail =~= front);
    }
}

/// A row of digits starts with no zero, unless it writes zero.
pub proof fn no_number_starts_with_zero(n: nat)
    ensures
        n > 0 ==> decimal(n)[0] != '0',
        decimal(0) == seq!['0'],
    decreases n,
{
    if n >= 10 {
        no_number_starts_with_zero(n / 10);
        lemma_decimal_digits(n / 10);
    }
}

/// A number below zero is written with a minus sign and then as the number it
/// is below zero by.
pub proof fn a_minus_stands_before_what_is_below_zero(n: int)
    ensures
        n >= 0 ==> signed_decimal(n) == decimal(n as nat),
        n < 0 ==> signed_decimal(n).len() == decimal((-n) as nat).len() + 1 && signed_decimal(n)[0]
            == '-' && signed_decimal(n).skip(1) == decimal((-n) as nat),
{
    if n < 0 {
        assert(signed_decimal(n).skip(1) =~= decimal((-n) as nat));
    }
}

/// Whether a character is no digit, and no plus sign at the start either.
pub open spec fn no_part_of_a_number(c: char, at: int) -> bool {
    !('0' as u32 <= c as u32 <= '9' as u32) && !(at == 0 && c == '+')
}

/// A text writes a number where it is digits behind one plus sign or none,
/// and writes none where it is empty or holds anything else.
pub proof fn only_digits_write_a_number(s: Seq<char>, n: nat)
    ensures
        number_of(decimal(n)) == Some(n),
        number_of(seq!['+'] + decimal(n)) == Some(n),
        s.len() == 0 ==> number_of(s) is None,
        (exists|i: int| 0 <= i < s.len() && no_part_of_a_number(#[trigger] s[i], i))
            ==> number_of(s) is None,
{
    lemma_decimal_digits(n);
    let d = decimal(n);
    assert(is_digit(d[0]));
    let p = seq!['+'] + d;
    assert(p.drop_first() =~= d);
    if exists|i: int| 0 <= i < s.len() && no_part_of_a_number(#[trigger] s[i], i) {
        let i = choose|i: int| 0 <= i < s.len() && no_part_of_a_number(#[trigger] s[i], i);
        let digits = unsigned_part(s);
        let j = if s[0] == '+' {
            i - 1
        } else {
            i
        };
        assert(digits[j] == s[i]);
        assert('0' as u32 == 48 && '9' as u32 == 57);
        assert(!is_digit(digits[j]));
    }
}

/// The value of a lower-case hexadecimal digit.
pub open spec fn hex_digit_value(c: char) -> int {
    if '0' <= c <= '9' {
        c as int - '0' as int
    } else {
        c as int - 'a' as int + 10
    }
}

/// The number that a row of hexadecimal digits writes.
pub open spec fn hex_value(s: Seq<char>) -> int
    decreases s.len(),
{
    if s.len() == 0 {
        0
    } else {
        hex_value(s.drop_last()) * 16 + hex_digit_value(s.last())
    }
}

/// The hexadecimal digits of a number are as many as asked for, from `0` to
/// `9` and from `a` to `f`, and write the number where it has no more.
pub proof fn hex_reads_back(n: nat, width: nat)
    ensures
        hex(n, width).len() == width,
        forall|i: int|
            0 <= i < width ==> '0' <= #[trigger] hex(n, width)[i] <= '9' || 'a' <= hex(n, width)[i]
                <= 'f',
        hex_value(hex(n, width)) == n as int % vstd::arithmetic::power::pow(16, width),
    decreases width,
{
    vstd::arithmetic::power::lemma_pow_positive(16, width);
    if width == 0 {
        vstd::arithmetic::power::lemma_pow0(16);
    } else {
        let w = (width - 1) as nat;
        hex_reads_back(n / 16, w);
        let front = hex(n / 16, w);
        let all = hex(n, width);
        assert(all.drop_last() =~= front);
        let p = vstd::arithmetic::power::pow(16, w);
        vstd::arithmetic::power::lemma_pow_positive(16, w);
        vstd::arithmetic::power::lemma_pow_adds(16, 1, w);
        vstd::arithmetic::power::lemma_pow1(16);
        assert(vstd::arithmetic::power::pow(16, width) == 16 * p);
        vstd::arithmetic::div_mod::lemma_mod_breakdown(n as int, 16, p);
        assert(hex_digit_value(all.last()) == n as int % 16);
    }
}

/// The front of a text is the start of it, no longer than asked for, and all
/// of it where it is no longer.
pub proof fn a_head_is_the_start(s: Seq<char>, n: int)
    requires
        n >= 0,
    ensures
        head(s, n).len() == if s.len() <= n {
            s.len() as int
        } else {
            n
        },
        forall|i: int| 0 <= i < head(s, n).len() ==> head(s, n)[i] == s[i],
{
}

/// The first line of a text ends at its first line feed, and a carriage
/// return before that is no part of it; the other lines are those of what
/// follows. What has no line feed is one line, and nothing is none.
pub proof fn a_line_ends_at_its_line_feed(line: Seq<char>, rest: Seq<char>)
    requires
        !line.contains('\n'),
    ensures
        lines_of(line + seq!['\n'] + rest) == seq![
            if line.len() > 0 && line.last() == '\r' {
                line.drop_last()
            } else {
                line
            },
        ] + lines_of(rest),
        line.len() > 0 ==> lines_of(line) == seq![line],
        lines_of(Seq::empty()) == Seq::<Seq<char>>::empty(),
{
    let s = line + seq!['\n'] + rest;
    let i = line.len() as int;
    assert(s[i] == '\n');
    assert(s.contains('\n'));
    s.index_of_first_ensures('\n');
    let f = s.index_of_first('\n')->0;
    if f < i {
        assert(line[f] == '\n');
        assert(line.contains('\n'));
    }
    assert(f == i);
    assert(s.take(i) =~= line);
    assert(s.skip(i + 1) =~= rest);
}

/// Where a text is found for the first time, it is put in place of, and
/// what stands around it stays; a text that it is not found in stays as it
/// is.
pub proof fn the_first_is_replaced(
    front: Seq<char>,
    from: Seq<char>,
    rest: Seq<char>,
    to: Seq<char>,
)
    requires
        first_place(front + from + rest, from, front.len() as int),
    ensures
        replaced_first(front + from + rest, from, to) == front + to + rest,
        from.len() > 0 ==> replaced_all(front + from + rest, from, to) == front + to
            + replaced_all(rest, from, to),
{
    let s = front + from + rest;
    let i = choose|i: int| first_place(s, from, i);
    lemma_first_place_unique(s, from, i, front.len() as int);
    assert(stands_at(s, from, i));
    assert(contains_text(s, from));
    assert(s.take(i) =~= front);
    assert(s.skip(i + from.len() as int) =~= rest);
}

/// What is not found is not replaced.
pub proof fn what_is_not_found_stays(s: Seq<char>, from: Seq<char>, to: Seq<char>)
    requires
        !contains_text(s, from),
    ensures
        replaced_first(s, from, to) == s,
        replaced_all(s, from, to) == s,
{
}

/// Of two byte strings that differ somewhere, the one with the lesser byte at
/// the first difference comes first; of two that do not, the shorter.
pub proof fn the_first_difference_decides(front: Seq<u8>, a: Seq<u8>, b: Seq<u8>)
    requires
        b.len() > 0,
        a.len() == 0 || a[0] < b[0],
    ensures
        bytes_before(front + a, front + b),
        !bytes_before(front + b, front + a),
    decreases front.len(),
{
    if front.len() == 0 {
        assert(front + a =~= a);
        assert(front + b =~= b);
    } else {
        the_first_difference_decides(front.drop_first(), a, b);
        assert((front + a).drop_first() =~= front.drop_first() + a);
        assert((front + b).drop_first() =~= front.drop_first() + b);
    }
}

/// Texts in a row stand behind one another with the separator between each
/// two of them, and none before the first.
pub proof fn a_separator_stands_between(parts: Seq<Seq<char>>, part: Seq<char>, sep: Seq<char>)
    ensures
        joined(seq![part], sep) == part,
        parts.len() > 0 ==> joined(parts.push(part), sep) == joined(parts, sep) + sep + part,
{
    if parts.len() > 0 {
        assert(parts.push(part).drop_last() =~= parts);
    }
}

} // verus!
