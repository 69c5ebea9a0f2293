//! Building blocks for rendering text: decimal numbers, thousands grouping,
//! ASCII case folding, comparison and joining of strings.

use vstd::prelude::*;
use vstd::utf8::{encode_scalar, encode_utf8};

verus! {

/// The character of a decimal digit `d` (0 to 9).
pub open spec fn digit_char(d: int) -> char {
    ((48 + d) as u32) as char
}

/// The decimal digits of a natural number, most significant first, without
/// leading zeros (`0` is written `"0"`).
pub open spec fn digits_of(n: nat) -> Seq<char>
    decreases n,
{
    if n < 10 {
        seq![digit_char(n as int)]
    } else {
        digits_of(n / 10).push(digit_char((n % 10) as int))
    }
}

/// The decimal writing of an integer, as `to_string` gives it: a `-` before
/// the digits of a negative number.
pub open spec fn decimal(n: int) -> Seq<char> {
    if n < 0 {
        seq!['-'] + digits_of((-n) as nat)
    } else {
        digits_of(n as nat)
    }
}

/// The narrow no-break space that separates groups of three digits.
pub const THIN_SPACE: char = '\u{202f}';

/// Exactly three digits of `r` (below 1000), with leading zeros.
pub open spec fn three_digits(r: nat) -> Seq<char> {
    seq![digit_char((r / 100) as int), digit_char((r / 10 % 10) as int), digit_char((r % 10) as int)]
}

/// The digits of `n` cut by a thin space into groups of three, counted from
/// the right.
pub open spec fn grouped_digits(n: nat) -> Seq<char>
    decreases n,
{
    if n < 1000 {
        digits_of(n)
    } else {
        grouped_digits(n / 1000) + seq![THIN_SPACE] + three_digits(n % 1000)
    }
}

/// The magnitude of an integer.
pub open spec fn magnitude(n: int) -> nat {
    if n < 0 { (-n) as nat } else { n as nat }
}

/// An integer written with its digits grouped by three: a `-` before a negative
/// number, then the grouped digits of its magnitude.
pub open spec fn grouped_decimal(n: int) -> Seq<char> {
    if n < 0 {
        seq!['-'] + grouped_digits(magnitude(n))
    } else {
        grouped_digits(magnitude(n))
    }
}

/// Calls `String::push`; the contract states what std documents of it: the
/// character is added at the end of the string.
#[verifier::external_body]
pub(crate) fn push_char(s: &mut String, c: char)
    ensures
        final(s)@ == old(s)@.push(c),
{
    s.push(c);
}

fn digit(d: u64) -> (c: char)
    requires
        d < 10,
    ensures
        c == digit_char(d as int),
{
    ((48 + d) as u8) as char
}

/// Appends the decimal digits of `n`.
pub fn push_digits(out: &mut String, n: u64)
    ensures
        final(out)@ == old(out)@ + digits_of(n as nat),
    decreases n,
{
    if n >= 10 {
        push_digits(out, n / 10);
    }
    push_char(out, digit(n % 10));
    assert(old(out)@ + digits_of(n as nat) =~= out@);
}

/// The magnitude of an `i64`, which always fits in a `u64`.
pub fn magnitude_u64(n: i64) -> (m: u64)
    ensures
        m as nat == magnitude(n as int),
{
    if n < 0 {
        ((-(n + 1)) as u64) + 1
    } else {
        n as u64
    }
}

/// Appends the decimal writing of `n` (as `to_string` writes it).
pub fn push_decimal(out: &mut String, n: i64)
    ensures
        final(out)@ == old(out)@ + decimal(n as int),
{
    if n < 0 {
        push_char(out, '-');
    }
    let m = magnitude_u64(n);
    push_digits(out, m);
    assert(out@ =~= old(out)@ + decimal(n as int));
}

/// The decimal writing of `n`.
pub fn decimal_string(n: i64) -> (s: String)
    ensures
        s@ == decimal(n as int),
{
    let mut s = String::new();
    push_decimal(&mut s, n);
    assert(s@ =~= decimal(n as int));
    s
}

/// Appends the decimal writing of an unsigned number.
pub fn push_unsigned(out: &mut String, n: u64)
    ensures
        final(out)@ == old(out)@ + decimal(n as int),
{
    push_digits(out, n);
}

/// Appends the decimal digits of a 128-bit number.
pub fn push_wide_digits(out: &mut String, n: u128)
    ensures
        final(out)@ == old(out)@ + digits_of(n as nat),
    decreases n,
{
    if n >= 10 {
        push_wide_digits(out, n / 10);
    }
    push_char(out, digit((n % 10) as u64));
    assert(old(out)@ + digits_of(n as nat) =~= out@);
}

fn push_three_digits(out: &mut String, r: u64)
    requires
        r < 1000,
    ensures
        final(out)@ == old(out)@ + three_digits(r as nat),
{
    push_char(out, digit(r / 100));
    push_char(out, digit(r / 10 % 10));
    push_char(out, digit(r % 10));
    assert(out@ =~= old(out)@ + three_digits(r as nat));
}

/// Appends the digits of `n` grouped by three.
pub fn push_grouped(out: &mut String, n: u64)
    ensures
        final(out)@ == old(out)@ + grouped_digits(n as nat),
    decreases n,
{
    if n < 1000 {
        push_digits(out, n);
    } else {
        push_grouped(out, n / 1000);
        push_char(out, THIN_SPACE);
        push_three_digits(out, n % 1000);
        assert(out@ =~= old(out)@ + grouped_digits(n as nat));
    }
}

/// Appends `n` written with its digits grouped by three.
pub fn push_grouped_decimal(out: &mut String, n: i64)
    ensures
        final(out)@ == old(out)@ + grouped_decimal(n as int),
{
    if n < 0 {
        push_char(out, '-');
    }
    push_grouped(out, magnitude_u64(n));
    assert(out@ =~= old(out)@ + grouped_decimal(n as int));
}

/// `c` is an ASCII decimal digit.
pub open spec fn is_digit_char(c: char) -> bool {
    '0' <= c <= '9'
}

proof fn lemma_digits_are_digits(n: nat)
    ensures
        forall|i: int| 0 <= i < digits_of(n).len() ==> is_digit_char(#[trigger] digits_of(n)[i]),
        digits_of(n).len() >= 1,
    decreases n,
{
    if n >= 10 {
        lemma_digits_are_digits(n / 10);
    }
}

proof fn lemma_digits_split_three(n: nat)
    requires
        n >= 1000,
    ensures
        digits_of(n) == digits_of(n / 1000) + three_digits(n % 1000),
{
    let a = n / 10;
    let b = n / 100;
    let c = n / 1000;
    assert(a / 10 == b) by (nonlinear_arith)
        requires a == n / 10, b == n / 100, n >= 0;
    assert(b / 10 == c) by (nonlinear_arith)
        requires b == n / 100, c == n / 1000, n >= 0;
    assert((n % 1000) / 100 == b % 10) by (nonlinear_arith)
        requires b == n / 100, n >= 0;
    assert((n % 1000) / 10 % 10 == a % 10) by (nonlinear_arith)
        requires a == n / 10, n >= 0;
    assert((n % 1000) % 10 == n % 10) by (nonlinear_arith)
        requires n >= 0;
    assert(a >= 100 && b >= 10);
    assert(digits_of(n) == digits_of(a).push(digit_char((n % 10) as int)));
    assert(digits_of(a) == digits_of(b).push(digit_char((a % 10) as int)));
    assert(digits_of(b) == digits_of(c).push(digit_char((b % 10) as int)));
    assert(digits_of(n) =~= digits_of(n / 1000) + three_digits(n % 1000));
}

/// The characters of `s` other than thin spaces.
pub open spec fn without_thin_spaces(s: Seq<char>) -> Seq<char> {
    s.filter(|c: char| c != THIN_SPACE)
}

proof fn lemma_no_thin_space_in_digits(s: Seq<char>)
    requires
        forall|i: int| 0 <= i < s.len() ==> is_digit_char(#[trigger] s[i]),
    ensures
        without_thin_spaces(s) == s,
    decreases s.len(),
{
    reveal(Seq::filter);
    if s.len() > 0 {
        lemma_no_thin_space_in_digits(s.drop_last());
        assert(s.drop_last().push(s.last()) =~= s);
    }
}

/// Grouping only inserts thin spaces: taking them out gives the plain digits
/// back.
pub proof fn lemma_grouping_keeps_digits(n: nat)
    ensures
        without_thin_spaces(grouped_digits(n)) == digits_of(n),
    decreases n,
{
    broadcast use Seq::filter_distributes_over_add;
    reveal(Seq::filter);
    if n < 1000 {
        lemma_digits_are_digits(n);
        lemma_no_thin_space_in_digits(digits_of(n));
    } else {
        lemma_grouping_keeps_digits(n / 1000);
        lemma_digits_split_three(n);
        let r = n % 1000;
        let t = three_digits(r);
        assert(forall|i: int| 0 <= i < t.len() ==> is_digit_char(#[trigger] t[i])) by {
            assert(r / 100 < 10) by (nonlinear_arith) requires r < 1000;
        }
        lemma_no_thin_space_in_digits(t);
        let sp: Seq<char> = seq![THIN_SPACE];
        assert(without_thin_spaces(sp) =~= Seq::<char>::empty()) by {
            reveal_with_fuel(Seq::filter, 2);
            assert(sp.drop_last() =~= Seq::<char>::empty());
        }
        Seq::filter_distributes_over_add(grouped_digits(n / 1000) + sp, t, |c: char| c != THIN_SPACE);
        Seq::filter_distributes_over_add(grouped_digits(n / 1000), sp, |c: char| c != THIN_SPACE);
        assert(without_thin_spaces(grouped_digits(n)) =~= digits_of(n / 1000) + t);
    }
}

/// Thousands grouping changes the writing of a number only by thin spaces:
/// without them it is the decimal writing.
pub proof fn lemma_grouped_decimal_is_decimal(n: int)
    ensures
        without_thin_spaces(grouped_decimal(n)) == decimal(n),
{
    broadcast use Seq::filter_distributes_over_add;
    reveal(Seq::filter);
    lemma_grouping_keeps_digits(magnitude(n));
    if n < 0 {
        let m: Seq<char> = seq!['-'];
        assert(without_thin_spaces(m) =~= m) by {
            reveal_with_fuel(Seq::filter, 2);
            assert(m.drop_last() =~= Seq::<char>::empty());
        }
        Seq::filter_distributes_over_add(m, grouped_digits(magnitude(n)), |c: char| c != THIN_SPACE);
    }
}


/// ASCII lower-casing of one character (`char::to_ascii_lowercase`).
pub open spec fn lower_char(c: char) -> char {
    if 'A' <= c <= 'Z' {
        ((c as u32) + 32) as char
    } else {
        c
    }
}

/// ASCII upper-casing of one character (`char::to_ascii_uppercase`).
pub open spec fn upper_char(c: char) -> char {
    if 'a' <= c <= 'z' {
        ((c as u32) - 32) as char
    } else {
        c
    }
}

/// ASCII lower-casing of a text: `A`..`Z` become `a`..`z`, every other
/// character stays.
pub open spec fn lower_ascii(s: Seq<char>) -> Seq<char> {
    Seq::new(s.len(), |i: int| lower_char(s[i]))
}

fn lower_char_exec(c: char) -> (r: char)
    ensures
        r == lower_char(c),
{
    let u = c as u32;
    if 65 <= u && u <= 90 {
        ((u + 32) as u8) as char
    } else {
        c
    }
}

/// The characters of a string slice, one by one.
pub fn chars_of(s: &str) -> (v: Vec<char>)
    ensures
        v@ == s@,
{
    let n = s.unicode_len();
    let mut v: Vec<char> = Vec::new();
    let mut i: usize = 0;
    while i < n
        invariant
            n == s@.len(),
            i <= n,
            v@ == s@.take(i as int),
        decreases n - i,
    {
        v.push(s.get_char(i));
        i = i + 1;
        assert(v@ =~= s@.take(i as int));
    }
    assert(s@.take(n as int) =~= s@);
    v
}

/// A string holding the given characters.
pub fn string_of(v: &Vec<char>) -> (s: String)
    ensures
        s@ == v@,
{
    let mut s = String::new();
    let mut i: usize = 0;
    while i < v.len()
        invariant
            i <= v.len(),
            s@ == v@.take(i as int),
        decreases v.len() - i,
    {
        push_char(&mut s, v[i]);
        i = i + 1;
        assert(s@ =~= v@.take(i as int));
    }
    assert(v@.take(v.len() as int) =~= v@);
    s
}

/// ASCII lower-casing of a string slice (`str::to_ascii_lowercase`).
pub fn ascii_lowercase(s: &str) -> (r: String)
    ensures
        r@ == lower_ascii(s@),
{
    let v = chars_of(s);
    let mut r = String::new();
    let mut i: usize = 0;
    while i < v.len()
        invariant
            v@ == s@,
            i <= v.len(),
            r@ == lower_ascii(s@).take(i as int),
        decreases v.len() - i,
    {
        push_char(&mut r, lower_char_exec(v[i]));
        i = i + 1;
        assert(r@ =~= lower_ascii(s@).take(i as int));
    }
    assert(lower_ascii(s@).take(v.len() as int) =~= lower_ascii(s@));
    r
}

/// Whether two string slices hold the same characters.
pub fn str_eq(a: &str, b: &str) -> (r: bool)
    ensures
        r == (a@ == b@),
{
    let n = a.unicode_len();
    if n != b.unicode_len() {
        return false;
    }
    let mut i: usize = 0;
    while i < n
        invariant
            n == a@.len(),
            n == b@.len(),
            i <= n,
            a@.take(i as int) == b@.take(i as int),
        decreases n - i,
    {
        if a.get_char(i) != b.get_char(i) {
            assert(a@[i as int] != b@[i as int]);
            return false;
        }
        i = i + 1;
        assert(a@.take(i as int) =~= b@.take(i as int)) by {
            assert(a@.take(i as int) =~= a@.take(i - 1).push(a@[i - 1]));
            assert(b@.take(i as int) =~= b@.take(i - 1).push(b@[i - 1]));
        }
    }
    assert(a@ =~= a@.take(n as int));
    assert(b@ =~= b@.take(n as int));
    true
}

/// The views of a sequence of strings.
pub open spec fn views(s: Seq<String>) -> Seq<Seq<char>> {
    Seq::new(s.len(), |i: int| s[i]@)
}

/// The parts, in order, with `sep` between each two of them (`join`).
pub open spec fn join(parts: Seq<Seq<char>>, sep: Seq<char>) -> Seq<char>
    decreases parts.len(),
{
    if parts.len() == 0 {
        Seq::empty()
    } else if parts.len() == 1 {
        parts[0]
    } else {
        join(parts.drop_last(), sep) + sep + parts.last()
    }
}

/// Joins strings with a separator (`[String]::join`).
pub fn join_strings(parts: &Vec<String>, sep: &str) -> (r: String)
    ensures
        r@ == join(views(parts@), sep@),
{
    let mut r = String::new();
    let mut i: usize = 0;
    while i < parts.len()
        invariant
            i <= parts.len(),
            r@ == join(views(parts@).take(i as int), sep@),
        decreases parts.len() - i,
    {
        let ghost before = views(parts@).take(i as int);
        if i > 0 {
            r.append(sep);
        }
        r.append(parts[i].as_str());
        i = i + 1;
        assert(views(parts@).take(i as int).drop_last() =~= before);
        assert(r@ =~= join(views(parts@).take(i as int), sep@));
    }
    assert(views(parts@).take(parts.len() as int) =~= views(parts@));
    r
}

/// At most the first `n` characters of a text (`chars().take(n)`).
pub open spec fn take_chars(s: Seq<char>, n: nat) -> Seq<char> {
    if s.len() <= n { s } else { s.take(n as int) }
}

/// The first `n` characters of a string, or all of it if it is shorter.
pub fn first_chars(s: &str, n: usize) -> (r: String)
    ensures
        r@ == take_chars(s@, n as nat),
{
    let v = chars_of(s);
    let mut r = String::new();
    let mut i: usize = 0;
    while i < v.len() && i < n
        invariant
            v@ == s@,
            i <= v.len(),
            i <= n,
            r@ == s@.take(i as int),
        decreases v.len() - i,
    {
        push_char(&mut r, v[i]);
        i = i + 1;
        assert(r@ =~= s@.take(i as int));
    }
    assert(s@.take(v.len() as int) =~= s@);
    r
}

/// Strict lexicographic order of texts by code point, which is the order of
/// `String`'s `Ord` (UTF-8 keeps the code point order).
pub open spec fn text_lt(a: Seq<char>, b: Seq<char>) -> bool
    decreases a.len(),
{
    if a.len() == 0 {
        b.len() > 0
    } else if b.len() == 0 {
        false
    } else if (a[0] as u32) < (b[0] as u32) {
        true
    } else if a[0] == b[0] {
        text_lt(a.drop_first(), b.drop_first())
    } else {
        false
    }
}

/// Whether `a` sorts strictly before `b`.
pub fn str_lt(a: &str, b: &str) -> (r: bool)
    ensures
        r == text_lt(a@, b@),
{
    let va = chars_of(a);
    let vb = chars_of(b);
    let mut i: usize = 0;
    assert(a@.skip(0) =~= a@ && b@.skip(0) =~= b@);
    while i < va.len() && i < vb.len() && va[i] == vb[i]
        invariant
            va@ == a@,
            vb@ == b@,
            i <= va.len(),
            i <= vb.len(),
            text_lt(a@, b@) == text_lt(a@.skip(i as int), b@.skip(i as int)),
        decreases va.len() - i,
    {
        let ghost sa = a@.skip(i as int);
        let ghost sb = b@.skip(i as int);
        assert(sa.drop_first() =~= a@.skip(i + 1));
        assert(sb.drop_first() =~= b@.skip(i + 1));
        i = i + 1;
    }
    let ghost sa = a@.skip(i as int);
    let ghost sb = b@.skip(i as int);
    if i == va.len() {
        assert(sa.len() == 0);
        i < vb.len()
    } else if i == vb.len() {
        assert(sb.len() == 0);
        false
    } else {
        assert(sa[0] == va@[i as int] && sb[0] == vb@[i as int]);
        (va[i] as u32) < (vb[i] as u32)
    }
}

/// The keys of key–value entries.
pub open spec fn entry_keys<T>(es: Seq<(String, T)>) -> Seq<Seq<char>> {
    Seq::new(es.len(), |i: int| es[i].0@)
}

/// Keys in strictly increasing order, as a `BTreeMap` yields its entries.
pub open spec fn keys_ascending(keys: Seq<Seq<char>>) -> bool {
    forall|i: int, j: int| 0 <= i < j < keys.len() ==> text_lt(#[trigger] keys[i], #[trigger] keys[j])
}

/// Keys in strictly increasing order are pairwise distinct: entries listed
/// in key order hold each key once, as a map does.
pub proof fn lemma_ascending_keys_unique(keys: Seq<Seq<char>>)
    requires
        keys_ascending(keys),
    ensures
        forall|i: int, j: int| 0 <= i < keys.len() && 0 <= j < keys.len() && i != j ==> #[trigger] keys[i] != #[trigger] keys[j],
{
    assert forall|i: int, j: int| 0 <= i < keys.len() && 0 <= j < keys.len() && i != j implies #[trigger] keys[i]
        != #[trigger] keys[j] by {
        if i < j {
            assert(text_lt(keys[i], keys[j]));
            lemma_text_lt_irreflexive(keys[i]);
        } else {
            assert(text_lt(keys[j], keys[i]));
            lemma_text_lt_irreflexive(keys[j]);
        }
    }
}

/// Whether the entries come in strictly increasing key order.
pub fn entries_in_key_order<T>(es: &Vec<(String, T)>) -> (r: bool)
    ensures
        r == keys_ascending(entry_keys(es@)),
{
    let ghost ks = entry_keys(es@);
    let mut i: usize = 1;
    if es.len() == 0 {
        return true;
    }
    while i < es.len()
        invariant
            1 <= i <= es@.len(),
            ks == entry_keys(es@),
            keys_ascending(ks.take(i as int)),
        decreases es.len() - i,
    {
        if !str_lt(es[i - 1].0.as_str(), es[i].0.as_str()) {
            assert(ks[i - 1] == es@[i - 1].0@ && ks[i as int] == es@[i as int].0@);
            return false;
        }
        proof {
            let t = ks.take(i + 1);
            assert forall|a: int, b: int| 0 <= a < b < t.len() implies text_lt(#[trigger] t[a], #[trigger] t[b]) by {
                assert(t[a] == ks[a] && t[b] == ks[b]);
                if b < i {
                    assert(ks.take(i as int)[a] == ks[a] && ks.take(i as int)[b] == ks[b]);
                } else if a < i - 1 {
                    assert(ks.take(i as int)[a] == ks[a] && ks.take(i as int)[i - 1] == ks[i - 1]);
                    lemma_text_lt_transitive(ks[a], ks[i - 1], ks[b]);
                }
            }
        }
        i = i + 1;
    }
    assert(ks.take(es.len() as int) =~= ks);
    true
}

/// The value of a string of decimal digits.
pub open spec fn digits_value(s: Seq<char>) -> int
    decreases s.len(),
{
    if s.len() == 0 {
        0
    } else {
        digits_value(s.drop_last()) * 10 + (s.last() as u32 - 48)
    }
}

/// Every character of `s` is an ASCII digit.
pub open spec fn all_digits(s: Seq<char>) -> bool {
    forall|i: int| 0 <= i < s.len() ==> is_digit_char(#[trigger] s[i])
}

/// What `str::parse::<u32>` gives: an optional `+` followed by at least one
/// ASCII digit and nothing else, whose value fits in a `u32`.
pub open spec fn parsed_u32(s: Seq<char>) -> Option<u32> {
    let d = if s.len() > 0 && s[0] == '+' { s.drop_first() } else { s };
    if d.len() > 0 && all_digits(d) && digits_value(d) <= u32::MAX {
        Some(digits_value(d) as u32)
    } else {
        None
    }
}

proof fn lemma_digits_value_grows(d: Seq<char>, i: int)
    requires
        0 <= i <= d.len(),
        all_digits(d),
    ensures
        digits_value(d.take(i)) <= digits_value(d),
        0 <= digits_value(d.take(i)),
    decreases d.len() - i,
{
    if i < d.len() {
        lemma_digits_value_grows(d, i + 1);
        assert(d.take(i + 1).drop_last() =~= d.take(i));
        assert(is_digit_char(d[i]));
    } else {
        assert(d.take(i) =~= d);
        lemma_digits_value_nonneg(d);
    }
}

proof fn lemma_digits_value_nonneg(d: Seq<char>)
    requires
        all_digits(d),
    ensures
        0 <= digits_value(d),
    decreases d.len(),
{
    if d.len() > 0 {
        assert(is_digit_char(d.last()));
        lemma_digits_value_nonneg(d.drop_last());
    }
}

/// Parses a `u32` as `str::parse::<u32>` does.
pub fn parse_u32(s: &str) -> (r: Option<u32>)
    ensures
        r == parsed_u32(s@),
{
    let v = chars_of(s);
    let start: usize = if v.len() > 0 && v[0] == '+' { 1 } else { 0 };
    let ghost d = if s@.len() > 0 && s@[0] == '+' { s@.drop_first() } else { s@ };
    assert(d =~= s@.skip(start as int));
    if start == v.len() {
        return None;
    }
    let mut acc: u64 = 0;
    let mut i: usize = start;
    while i < v.len()
        invariant
            v@ == s@,
            d == s@.skip(start as int),
            d == (if s@.len() > 0 && s@[0] == '+' { s@.drop_first() } else { s@ }),
            start <= i <= v.len(),
            acc as int == digits_value(d.take(i - start)),
            all_digits(d.take(i - start)),
            acc <= u32::MAX,
        decreases v.len() - i,
    {
        let c = v[i];
        let ghost k = (i - start) as int;
        assert(d[k] == c);
        if !('0' <= c && c <= '9') {
            assert(!all_digits(d));
            return None;
        }
        assert(d.take(k + 1).drop_last() =~= d.take(k));
        assert(d.take(k + 1).last() == c);
        acc = acc * 10 + (c as u32 - 48) as u64;
        i = i + 1;
        assert(acc as int == digits_value(d.take(i - start)));
        assert(all_digits(d.take(i - start)));
        if acc > u32::MAX as u64 {
            proof {
                if all_digits(d) {
                    lemma_digits_value_grows(d, i - start);
                }
            }
            return None;
        }
    }
    assert(d.take(v.len() - start) =~= d);
    Some(acc as u32)
}


/// What `str::parse::<u64>` gives: an optional `+` followed by at least one
/// ASCII digit and nothing else, whose value fits in a `u64`.
pub open spec fn parsed_u64(s: Seq<char>) -> Option<u64> {
    let d = if s.len() > 0 && s[0] == '+' { s.drop_first() } else { s };
    if d.len() > 0 && all_digits(d) && digits_value(d) <= u64::MAX {
        Some(digits_value(d) as u64)
    } else {
        None
    }
}

/// Parses a `u64` as `str::parse::<u64>` does.
pub fn parse_u64(s: &str) -> (r: Option<u64>)
    ensures
        r == parsed_u64(s@),
{
    let v = chars_of(s);
    let start: usize = if v.len() > 0 && v[0] == '+' { 1 } else { 0 };
    let ghost d = if s@.len() > 0 && s@[0] == '+' { s@.drop_first() } else { s@ };
    assert(d =~= s@.skip(start as int));
    if start == v.len() {
        return None;
    }
    let mut acc: u128 = 0;
    let mut i: usize = start;
    while i < v.len()
        invariant
            v@ == s@,
            d == s@.skip(start as int),
            d == (if s@.len() > 0 && s@[0] == '+' { s@.drop_first() } else { s@ }),
            start <= i <= v.len(),
            acc as int == digits_value(d.take(i - start)),
            all_digits(d.take(i - start)),
            acc <= u64::MAX,
        decreases v.len() - i,
    {
        let c = v[i];
        let ghost k = (i - start) as int;
        assert(d[k] == c);
        if !('0' <= c && c <= '9') {
            assert(!all_digits(d));
            return None;
        }
        assert(d.take(k + 1).drop_last() =~= d.take(k));
        assert(d.take(k + 1).last() == c);
        acc = acc * 10 + (c as u32 - 48) as u128;
        i = i + 1;
        assert(acc as int == digits_value(d.take(i - start)));
        assert(all_digits(d.take(i - start)));
        if acc > u64::MAX as u128 {
            proof {
                if all_digits(d) {
                    lemma_digits_value_grows(d, i - start);
                }
            }
            return None;
        }
    }
    assert(d.take(v.len() - start) =~= d);
    Some(acc as u64)
}


/// The number of UTF-8 bytes of a text.
pub open spec fn utf8_len(s: Seq<char>) -> nat {
    encode_utf8(s).len()
}

/// The longest prefix of a text whose UTF-8 encoding takes at most `max`
/// bytes: the text itself when it fits, else the longest fitting prefix of
/// the text without its last character.
pub open spec fn fitting_prefix(s: Seq<char>, max: nat) -> Seq<char>
    decreases s.len(),
{
    if s.len() == 0 || utf8_len(s) <= max {
        s
    } else {
        fitting_prefix(s.drop_last(), max)
    }
}

/// The number of UTF-8 bytes of one character.
pub open spec fn char_width(c: char) -> nat {
    encode_scalar(c as u32).len()
}

pub(crate) fn width_of(c: char) -> (w: usize)
    ensures
        w == char_width(c),
{
    let u = c as u32;
    if u <= 0x7F {
        1
    } else if u <= 0x7FF {
        2
    } else if u <= 0xFFFF {
        3
    } else {
        4
    }
}

pub(crate) proof fn lemma_utf8_len_push(s: Seq<char>, c: char)
    ensures
        utf8_len(s.push(c)) == utf8_len(s) + char_width(c),
    decreases s.len(),
{
    if s.len() > 0 {
        lemma_utf8_len_push(s.drop_first(), c);
        assert(s.push(c).drop_first() =~= s.drop_first().push(c));
        assert(s.push(c)[0] == s[0]);
    } else {
        assert(s.push(c).drop_first() =~= Seq::<char>::empty());
        assert(encode_utf8(Seq::<char>::empty()) =~= Seq::<u8>::empty());
        assert(s.push(c)[0] == c);
    }
}

proof fn lemma_utf8_len_grows(s: Seq<char>, k: int, j: int)
    requires
        0 <= k < j <= s.len(),
    ensures
        utf8_len(s.take(k)) < utf8_len(s.take(j)),
    decreases j - k,
{
    lemma_utf8_len_push(s.take(j - 1), s[j - 1]);
    assert(s.take(j - 1).push(s[j - 1]) =~= s.take(j));
    if k < j - 1 {
        lemma_utf8_len_grows(s, k, j - 1);
    }
}

proof fn lemma_fitting_prefix_at(s: Seq<char>, max: nat, k: int, j: int)
    requires
        0 <= k <= j <= s.len(),
        utf8_len(s.take(k)) <= max,
        k < s.len() ==> utf8_len(s.take(k + 1)) > max,
    ensures
        fitting_prefix(s.take(j), max) == s.take(k),
    decreases j - k,
{
    if j > k {
        lemma_utf8_len_grows_or_same(s, k + 1, j);
        assert(s.take(j).drop_last() =~= s.take(j - 1));
        lemma_fitting_prefix_at(s, max, k, j - 1);
    }
}

proof fn lemma_utf8_len_grows_or_same(s: Seq<char>, k: int, j: int)
    requires
        0 <= k <= j <= s.len(),
    ensures
        utf8_len(s.take(k)) <= utf8_len(s.take(j)),
{
    if k < j {
        lemma_utf8_len_grows(s, k, j);
    }
}

/// Cuts a string to the longest prefix that takes at most `max` bytes of
/// UTF-8, so that the cut never splits a character.
pub fn fit_bytes(s: String, max: usize) -> (r: String)
    ensures
        r@ == fitting_prefix(s@, max as nat),
{
    let v = chars_of(s.as_str());
    let mut used: usize = 0;
    let mut k: usize = 0;
    while k < v.len() && width_of(v[k]) <= max - used
        invariant
            v@ == s@,
            k <= v@.len(),
            used <= max,
            used == utf8_len(s@.take(k as int)),
        decreases v.len() - k,
    {
        proof {
            lemma_utf8_len_push(s@.take(k as int), s@[k as int]);
            assert(s@.take(k as int).push(s@[k as int]) =~= s@.take(k + 1));
        }
        used = used + width_of(v[k]);
        k = k + 1;
    }
    proof {
        if k < v@.len() {
            lemma_utf8_len_push(s@.take(k as int), s@[k as int]);
            assert(s@.take(k as int).push(s@[k as int]) =~= s@.take(k + 1));
        }
        lemma_fitting_prefix_at(s@, max as nat, k as int, v@.len() as int);
        assert(s@.take(v@.len() as int) =~= s@);
    }
    if k == v.len() {
        return s;
    }
    let mut r = String::new();
    let mut i: usize = 0;
    while i < k
        invariant
            v@ == s@,
            i <= k < v@.len(),
            r@ == s@.take(i as int),
        decreases k - i,
    {
        push_char(&mut r, v[i]);
        i = i + 1;
        assert(r@ =~= s@.take(i as int));
    }
    r
}

proof fn lemma_digits_value_of_digits(n: nat)
    ensures
        digits_value(digits_of(n)) == n,
        all_digits(digits_of(n)),
        digits_of(n).len() > 0,
    decreases n,
{
    lemma_digits_are_digits(n);
    let r = (n % 10) as int;
    assert(digit_char(r) as u32 == 48 + r);
    if n >= 10 {
        lemma_digits_value_of_digits(n / 10);
        assert(digits_of(n).drop_last() =~= digits_of(n / 10));
        assert(digits_of(n).last() == digit_char(r));
        assert(digits_value(digits_of(n)) == digits_value(digits_of(n).drop_last()) * 10 + (
        digits_of(n).last() as u32 - 48));
        assert((n / 10) * 10 + n % 10 == n);
    } else {
        assert(digits_of(n).drop_last() =~= Seq::<char>::empty());
        assert(digits_of(n).last() == digit_char(n as int));
        assert(digits_value(digits_of(n)) == digits_value(digits_of(n).drop_last()) * 10 + (
        digits_of(n).last() as u32 - 48));
        assert(digits_value(Seq::<char>::empty()) == 0);
    }
}

/// Parsing gives back a number from its decimal writing: for every `u32`,
/// `parse::<u32>` of its `to_string` is the number itself.
pub proof fn lemma_parse_u32_of_decimal(n: u32)
    ensures
        parsed_u32(decimal(n as int)) == Some(n),
{
    lemma_digits_value_of_digits(n as nat);
    let d = digits_of(n as nat);
    assert(d[0] != '+') by {
        assert(is_digit_char(d[0]));
    }
}

/// Parsing gives back a number from its decimal writing, for every `u64`.
pub proof fn lemma_parse_u64_of_decimal(n: u64)
    ensures
        parsed_u64(decimal(n as int)) == Some(n),
{
    lemma_digits_value_of_digits(n as nat);
    let d = digits_of(n as nat);
    assert(d[0] != '+') by {
        assert(is_digit_char(d[0]));
    }
}

/// Cutting a text to fit `max` bytes keeps a prefix of it that fits, and
/// the longest one: no longer prefix fits, and a text that fits is kept
/// whole.
pub proof fn lemma_fitting_prefix(s: Seq<char>, max: nat)
    ensures
        fitting_prefix(s, max).is_prefix_of(s),
        utf8_len(fitting_prefix(s, max)) <= max,
        forall|k: int| 0 <= k <= s.len() && utf8_len(#[trigger] s.take(k)) <= max ==> k <= fitting_prefix(s, max).len(),
        utf8_len(s) <= max ==> fitting_prefix(s, max) == s,
    decreases s.len(),
{
    if s.len() == 0 {
        assert(encode_utf8(s) =~= Seq::<u8>::empty());
        assert(s =~= s.subrange(0, 0));
    } else if utf8_len(s) <= max {
        assert(s =~= s.subrange(0, s.len() as int));
    } else {
        let t = s.drop_last();
        lemma_fitting_prefix(t, max);
        let r = fitting_prefix(t, max);
        assert(r =~= s.subrange(0, r.len() as int));
        assert forall|k: int| 0 <= k <= s.len() && utf8_len(#[trigger] s.take(k)) <= max implies k <= r.len() by {
            if k == s.len() {
                assert(s.take(k) =~= s);
            } else {
                assert(t.take(k) =~= s.take(k));
            }
        }
    }
}

/// Lower-casing twice is lower-casing once.
pub proof fn lemma_lower_ascii_idempotent(s: Seq<char>)
    ensures
        lower_ascii(lower_ascii(s)) == lower_ascii(s),
{
    assert forall|i: int| 0 <= i < s.len() implies lower_char(lower_char(s[i])) == lower_char(s[i]) by {
        let c = s[i];
        if 'A' <= c <= 'Z' {
            assert(((c as u32) + 32) as char as u32 == (c as u32) + 32);
        }
    }
    assert(lower_ascii(lower_ascii(s)) =~= lower_ascii(s));
}


/// No text sorts before itself.
pub proof fn lemma_text_lt_irreflexive(a: Seq<char>)
    ensures
        !text_lt(a, a),
    decreases a.len(),
{
    if a.len() > 0 {
        lemma_text_lt_irreflexive(a.drop_first());
    }
}

/// The order of texts is transitive.
pub proof fn lemma_text_lt_transitive(a: Seq<char>, b: Seq<char>, c: Seq<char>)
    requires
        text_lt(a, b),
        text_lt(b, c),
    ensures
        text_lt(a, c),
    decreases a.len(),
{
    if a.len() > 0 && b.len() > 0 && c.len() > 0 && a[0] == b[0] && b[0] == c[0] {
        lemma_text_lt_transitive(a.drop_first(), b.drop_first(), c.drop_first());
    }
}


/// The UTF-8 length of two texts put together is the sum of their lengths.
pub proof fn lemma_utf8_len_concat(a: Seq<char>, b: Seq<char>)
    ensures
        utf8_len(a + b) == utf8_len(a) + utf8_len(b),
    decreases b.len(),
{
    if b.len() == 0 {
        assert(a + b =~= a);
        assert(encode_utf8(b) =~= Seq::<u8>::empty());
    } else {
        lemma_utf8_len_concat(a, b.drop_last());
        lemma_utf8_len_push(a + b.drop_last(), b.last());
        lemma_utf8_len_push(b.drop_last(), b.last());
        assert((a + b.drop_last()).push(b.last()) =~= a + b);
        assert(b.drop_last().push(b.last()) =~= b);
    }
}

} // verus!
