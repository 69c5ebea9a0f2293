//! Small helpers shared by the commands: rarity colours and dots, number
//! formatting, identifier prettifying, image payloads, skill levels.

use vstd::prelude::*;
use crate::text::{
    ascii_lowercase, chars_of, decimal, decimal_string, grouped_decimal, join, join_strings,
    lower_ascii, push_char, string_of, upper_char, push_decimal, push_grouped_decimal, str_eq, views,
};
use base64::Engine;

verus! {

/// The text of an optional string slice, empty when absent
/// (`unwrap_or("")`).
pub open spec fn text_or_empty(s: Option<&str>) -> Seq<char> {
    match s {
        Some(t) => t@,
        None => Seq::empty(),
    }
}

/// The rarity tiers of Minebox items, plus the fallback for anything else.
#[derive(Clone, Copy, Debug, PartialEq, Eq, Structural)]
pub enum Rarity {
    Trash,
    Common,
    Uncommon,
    Rare,
    Epic,
    Legendary,
    Mythic,
    /// `prototype` and `contraband` items.
    Special,
    Unknown,
}

/// The rarity named by a text, compared without ASCII case.
pub open spec fn rarity_named(name: Seq<char>) -> Rarity {
    let k = lower_ascii(name);
    if k == "trash"@ {
        Rarity::Trash
    } else if k == "common"@ {
        Rarity::Common
    } else if k == "uncommon"@ {
        Rarity::Uncommon
    } else if k == "rare"@ {
        Rarity::Rare
    } else if k == "epic"@ {
        Rarity::Epic
    } else if k == "legendary"@ {
        Rarity::Legendary
    } else if k == "mythic"@ {
        Rarity::Mythic
    } else if k == "prototype"@ || k == "contraband"@ {
        Rarity::Special
    } else {
        Rarity::Unknown
    }
}

/// The rarity that an optional rarity name denotes (none is unknown).
pub fn rarity_of(rarity: Option<&str>) -> (r: Rarity)
    ensures
        r == rarity_named(text_or_empty(rarity)),
{
    let k = match rarity {
        Some(t) => ascii_lowercase(t),
        None => String::new(),
    };
    assert(k@ == lower_ascii(text_or_empty(rarity)));
    let k = k.as_str();
    if str_eq(k, "trash") {
        Rarity::Trash
    } else if str_eq(k, "common") {
        Rarity::Common
    } else if str_eq(k, "uncommon") {
        Rarity::Uncommon
    } else if str_eq(k, "rare") {
        Rarity::Rare
    } else if str_eq(k, "epic") {
        Rarity::Epic
    } else if str_eq(k, "legendary") {
        Rarity::Legendary
    } else if str_eq(k, "mythic") {
        Rarity::Mythic
    } else if str_eq(k, "prototype") || str_eq(k, "contraband") {
        Rarity::Special
    } else {
        Rarity::Unknown
    }
}

/// The embed colour (0xRRGGBB) of a rarity; unknown rarities get Discord's
/// blurple.
pub open spec fn rarity_rgb(r: Rarity) -> u32 {
    match r {
        Rarity::Trash => 0x6E6E6E,
        Rarity::Common => 0xB0B0B0,
        Rarity::Uncommon => 0x4CAF50,
        Rarity::Rare => 0x2196F3,
        Rarity::Epic => 0x9C27B0,
        Rarity::Legendary => 0xFF9800,
        Rarity::Mythic => 0xE91E63,
        Rarity::Special => 0x00BCD4,
        Rarity::Unknown => 0x5865F2,
    }
}

/// Embed colour (0xRRGGBB) for a Minebox rarity name.
pub fn rarity_color(rarity: Option<&str>) -> (c: u32)
    ensures
        c == rarity_rgb(rarity_named(text_or_empty(rarity))),
{
    match rarity_of(rarity) {
        Rarity::Trash => 0x6E6E6E,
        Rarity::Common => 0xB0B0B0,
        Rarity::Uncommon => 0x4CAF50,
        Rarity::Rare => 0x2196F3,
        Rarity::Epic => 0x9C27B0,
        Rarity::Legendary => 0xFF9800,
        Rarity::Mythic => 0xE91E63,
        Rarity::Special => 0x00BCD4,
        Rarity::Unknown => 0x5865F2,
    }
}

/// The coloured dot (emoji) of a rarity.
pub open spec fn rarity_emoji(r: Rarity) -> Seq<char> {
    match r {
        Rarity::Trash => "⚪"@,
        Rarity::Common => "⚪"@,
        Rarity::Uncommon => "🟢"@,
        Rarity::Rare => "🔵"@,
        Rarity::Epic => "🟣"@,
        Rarity::Legendary => "🟠"@,
        Rarity::Mythic => "🔴"@,
        Rarity::Special => "🩵"@,
        Rarity::Unknown => "▫️"@,
    }
}

/// Small coloured circle (emoji) standing for a rarity in text.
pub fn rarity_dot(rarity: Option<&str>) -> (d: &'static str)
    ensures
        d@ == rarity_emoji(rarity_named(text_or_empty(rarity))),
{
    match rarity_of(rarity) {
        Rarity::Trash => "⚪",
        Rarity::Common => "⚪",
        Rarity::Uncommon => "🟢",
        Rarity::Rare => "🔵",
        Rarity::Epic => "🟣",
        Rarity::Legendary => "🟠",
        Rarity::Mythic => "🔴",
        Rarity::Special => "🩵",
        Rarity::Unknown => "▫️",
    }
}

/// The text of a `[min, max]` interval: the single value when there is one
/// or both are equal, `min–max` otherwise, `?` for an empty interval.
pub open spec fn range_text(v: Seq<i64>) -> Seq<char> {
    if v.len() == 0 {
        "?"@
    } else if v.len() == 1 || v[0] == v[1] {
        decimal(v[0] as int)
    } else {
        decimal(v[0] as int) + seq!['–'] + decimal(v[1] as int)
    }
}

/// Formats a `[min, max]` interval: « 5 » when equal, else « 5–8 ».
pub fn range(v: &[i64]) -> (s: String)
    ensures
        s@ == range_text(v@),
{
    if v.len() == 0 {
        return String::from_str("?");
    }
    if v.len() == 1 || v[0] == v[1] {
        return decimal_string(v[0]);
    }
    let mut s = decimal_string(v[0]);
    push_char(&mut s, '–');
    push_decimal(&mut s, v[1]);
    assert(s@ =~= range_text(v@));
    s
}

/// Writes a number with thousands separators (narrow no-break spaces):
/// 1234567 becomes « 1 234 567 ».
pub fn thousands(n: i64) -> (s: String)
    ensures
        s@ == grouped_decimal(n as int),
{
    let mut s = String::new();
    push_grouped_decimal(&mut s, n);
    assert(s@ =~= grouped_decimal(n as int));
    s
}

/// The characters that separate the words of an identifier.
pub open spec fn is_word_sep(c: char) -> bool {
    c == '_' || c == '-'
}

/// The pieces of a text between separators, empty pieces included
/// (`split(['_', '-'])`).
pub open spec fn split_pieces(s: Seq<char>) -> Seq<Seq<char>>
    decreases s.len(),
{
    if s.len() == 0 {
        seq![Seq::<char>::empty()]
    } else {
        let init = split_pieces(s.drop_last());
        if is_word_sep(s.last()) {
            init.push(Seq::<char>::empty())
        } else {
            init.update(init.len() - 1, init.last().push(s.last()))
        }
    }
}

/// The non-empty words of an identifier.
pub open spec fn id_words(s: Seq<char>) -> Seq<Seq<char>> {
    split_pieces(s).filter(|w: Seq<char>| w.len() > 0)
}

/// The upper-case mapping of a character in std's Unicode tables
/// (`char::to_uppercase`), one to three characters.
pub uninterp spec fn char_uppercase(c: char) -> Seq<char>;

/// The upper-case mapping of a character: the ASCII one on ASCII characters,
/// std's Unicode tables beyond.
pub open spec fn upper_mapping(c: char) -> Seq<char> {
    if (c as u32) < 128 {
        seq![upper_char(c)]
    } else {
        char_uppercase(c)
    }
}

/// A word with its first character upper-cased.
pub open spec fn capitalized(w: Seq<char>) -> Seq<char> {
    if w.len() == 0 {
        w
    } else {
        upper_mapping(w[0]) + w.drop_first()
    }
}

/// The capitalized words of an identifier joined by spaces.
pub open spec fn prettified(s: Seq<char>) -> Seq<char> {
    join(id_words(s).map_values(|w: Seq<char>| capitalized(w)), " "@)
}

/// Calls `char::to_uppercase` and collects the characters; the contract
/// names the result (`char_uppercase`) and states it for ASCII characters,
/// where the Unicode mapping is the ASCII one (`a`..`z` to `A`..`Z`, every
/// other ASCII character unchanged); the tables beyond ASCII are not restated.
#[verifier::external_body]
fn uppercase_of(c: char) -> (r: String)
    ensures
        r@ == char_uppercase(c),
        (c as u32) < 128 ==> r@ == seq![upper_char(c)],
{
    c.to_uppercase().collect()
}

fn capitalize(w: &Vec<char>) -> (r: String)
    ensures
        r@ == capitalized(w@),
{
    if w.len() == 0 {
        return String::new();
    }
    let mut r = uppercase_of(w[0]);
    let mut i: usize = 1;
    while i < w.len()
        invariant
            1 <= i <= w.len(),
            r@ == upper_mapping(w@[0]) + w@.subrange(1, i as int),
        decreases w.len() - i,
    {
        push_char(&mut r, w[i]);
        i = i + 1;
        assert(r@ =~= upper_mapping(w@[0]) + w@.subrange(1, i as int));
    }
    assert(w@.subrange(1, w.len() as int) =~= w@.drop_first());
    r
}

/// Turns an identifier `red_wood_superplaque` into « Red Wood Superplaque ».
pub fn prettify_id(id: &str) -> (r: String)
    ensures
        r@ == prettified(id@),
{
    let cs = chars_of(id);
    let ghost pred = |w: Seq<char>| w.len() > 0;
    let ghost capf = |w: Seq<char>| capitalized(w);
    let mut words: Vec<String> = Vec::new();
    let mut cur: Vec<char> = Vec::new();
    let ghost mut done: Seq<Seq<char>> = Seq::empty();
    let mut i: usize = 0;
    assert(id@.take(0) =~= Seq::<char>::empty());
    assert(split_pieces(Seq::<char>::empty()) =~= done.push(cur@));
    while i < cs.len()
        invariant
            cs@ == id@,
            i <= cs.len(),
            pred == (|w: Seq<char>| w.len() > 0),
            capf == (|w: Seq<char>| capitalized(w)),
            split_pieces(id@.take(i as int)) == done.push(cur@),
            views(words@) == done.filter(pred).map_values(capf),
        decreases cs.len() - i,
    {
        let c = cs[i];
        let ghost prefix = id@.take(i as int);
        assert(id@.take(i + 1).drop_last() =~= prefix);
        assert(id@.take(i + 1).last() == c);
        if c == '_' || c == '-' {
            proof {
                broadcast use Seq::lemma_filter_push;
            }
            let ghost old_done = done;
            if cur.len() > 0 {
                let w = capitalize(&cur);
                let ghost ws = words@;
                words.push(w);
                assert(views(words@) =~= views(ws).push(w@));
                assert(old_done.push(cur@).filter(pred) == old_done.filter(pred).push(cur@));
                assert(old_done.filter(pred).push(cur@).map_values(capf) =~= old_done.filter(
                    pred,
                ).map_values(capf).push(capf(cur@)));
            } else {
                assert(old_done.push(cur@).filter(pred) == old_done.filter(pred));
            }
            proof {
                done = old_done.push(cur@);
            }
            cur = Vec::new();
            assert(split_pieces(id@.take(i + 1)) =~= done.push(cur@));
        } else {
            cur.push(c);
            assert(split_pieces(id@.take(i + 1)) =~= done.push(cur@));
        }
        i = i + 1;
    }
    proof {
        broadcast use Seq::lemma_filter_push;
    }
    assert(id@.take(cs.len() as int) =~= id@);
    if cur.len() > 0 {
        let w = capitalize(&cur);
        let ghost ws = words@;
        words.push(w);
        assert(views(words@) =~= views(ws).push(w@));
        assert(done.push(cur@).filter(pred) == done.filter(pred).push(cur@));
        assert(done.filter(pred).push(cur@).map_values(capf) =~= done.filter(pred).map_values(
            capf,
        ).push(capf(cur@)));
    } else {
        assert(done.push(cur@).filter(pred) == done.filter(pred));
    }
    assert(views(words@) == id_words(id@).map_values(capf));
    join_strings(&words, " ")
}


/// Every character of a text is ASCII.
pub open spec fn all_ascii(s: Seq<char>) -> bool {
    forall|i: int| 0 <= i < s.len() ==> (s[i] as u32) < 128
}

/// No character of a text separates words.
pub open spec fn no_word_sep(s: Seq<char>) -> bool {
    forall|i: int| 0 <= i < s.len() ==> !is_word_sep(s[i])
}

/// ASCII text without separators.
pub open spec fn plain(s: Seq<char>) -> bool {
    all_ascii(s) && no_word_sep(s)
}

proof fn lemma_upper_char(c: char)
    requires
        (c as u32) < 128,
    ensures
        (upper_char(c) as u32) < 128,
        is_word_sep(upper_char(c)) == is_word_sep(c),
        upper_char(upper_char(c)) == upper_char(c),
{
    if 'a' <= c <= 'z' {
        assert(((c as u32) - 32) as char as u32 == (c as u32) - 32);
    }
}

proof fn lemma_pieces_plain(s: Seq<char>)
    requires
        all_ascii(s),
    ensures
        forall|k: int| 0 <= k < split_pieces(s).len() ==> plain(#[trigger] split_pieces(s)[k]),
        split_pieces(s).len() >= 1,
    decreases s.len(),
{
    if s.len() > 0 {
        lemma_pieces_plain(s.drop_last());
        let init = split_pieces(s.drop_last());
        if !is_word_sep(s.last()) {
            let p = init.last().push(s.last());
            assert(plain(init[init.len() - 1]));
            assert(plain(p));
            assert forall|k: int| 0 <= k < split_pieces(s).len() implies plain(
                #[trigger] split_pieces(s)[k],
            ) by {
                if k < init.len() - 1 {
                    assert(plain(init[k]));
                }
            }
        } else {
            assert forall|k: int| 0 <= k < split_pieces(s).len() implies plain(
                #[trigger] split_pieces(s)[k],
            ) by {
                if k < init.len() {
                    assert(plain(init[k]));
                } else {
                    assert(split_pieces(s)[k] =~= Seq::<char>::empty());
                }
            }
        }
    }
}

proof fn lemma_pieces_of_plain(s: Seq<char>)
    requires
        no_word_sep(s),
    ensures
        split_pieces(s) == seq![s],
    decreases s.len(),
{
    if s.len() > 0 {
        lemma_pieces_of_plain(s.drop_last());
        assert(s.drop_last().push(s.last()) =~= s);
        assert(split_pieces(s) =~= seq![s]);
    } else {
        assert(s =~= Seq::<char>::empty());
        assert(split_pieces(s) =~= seq![s]);
    }
}

proof fn lemma_join_plain(parts: Seq<Seq<char>>)
    requires
        forall|k: int| 0 <= k < parts.len() ==> plain(#[trigger] parts[k]),
    ensures
        plain(join(parts, " "@)),
    decreases parts.len(),
{
    reveal_strlit(" ");
    if parts.len() == 1 {
        assert(plain(parts[0]));
    } else if parts.len() >= 2 {
        lemma_join_plain(parts.drop_last());
        let a = join(parts.drop_last(), " "@);
        let c = parts.last();
        assert(plain(parts[parts.len() - 1]));
        let t = a + " "@ + c;
        assert forall|i: int| 0 <= i < t.len() implies (t[i] as u32) < 128 && !is_word_sep(t[i]) by {
            if i >= a.len() + 1 {
                assert(t[i] == c[i - a.len() - 1]);
            }
        }
    }
}

proof fn lemma_join_starts_with(parts: Seq<Seq<char>>, sep: Seq<char>)
    requires
        parts.len() > 0,
    ensures
        parts[0].len() <= join(parts, sep).len(),
        forall|i: int| 0 <= i < parts[0].len() ==> join(parts, sep)[i] == parts[0][i],
    decreases parts.len(),
{
    if parts.len() >= 2 {
        lemma_join_starts_with(parts.drop_last(), sep);
    }
}

proof fn lemma_capitalized_plain(w: Seq<char>)
    requires
        plain(w),
    ensures
        plain(capitalized(w)),
        w.len() > 0 ==> capitalized(w)[0] == upper_char(w[0]),
{
    if w.len() > 0 {
        lemma_upper_char(w[0]);
        let t = capitalized(w);
        assert forall|i: int| 0 <= i < t.len() implies (t[i] as u32) < 128 && !is_word_sep(t[i]) by {
            if i >= 1 {
                assert(t[i] == w[i]);
            }
        }
    }
}

/// On an ASCII identifier, the prettified text is ASCII and holds no `_`
/// or `-`: every separator has become a space.
pub proof fn lemma_prettified_plain(id: Seq<char>)
    requires
        all_ascii(id),
    ensures
        plain(prettified(id)),
{
    broadcast use vstd::seq_lib::group_filter_ensures, Seq::lemma_filter_contains_rev;

    lemma_pieces_plain(id);
    let words = id_words(id);
    assert forall|k: int| 0 <= k < words.len() implies plain(#[trigger] words[k]) by {
        assert(words.contains(words[k]));
        let j = choose|j: int| 0 <= j < split_pieces(id).len() && split_pieces(id)[j] == words[k];
        assert(plain(split_pieces(id)[j]));
    }
    let parts = words.map_values(|w: Seq<char>| capitalized(w));
    assert forall|k: int| 0 <= k < parts.len() implies plain(#[trigger] parts[k]) by {
        lemma_capitalized_plain(words[k]);
    }
    lemma_join_plain(parts);
}

/// An ASCII word without separators is prettified by upper-casing its first
/// character alone.
pub proof fn lemma_prettified_word(w: Seq<char>)
    requires
        plain(w),
        w.len() > 0,
    ensures
        prettified(w) == seq![upper_char(w[0])] + w.drop_first(),
{
    broadcast use vstd::seq_lib::group_filter_ensures;

    lemma_pieces_of_plain(w);
    let one: Seq<Seq<char>> = seq![w];
    assert(one.drop_last() =~= Seq::<Seq<char>>::empty());
    reveal_with_fuel(Seq::filter, 2);
    assert(id_words(w) =~= seq![w]);
    assert(id_words(w).map_values(|v: Seq<char>| capitalized(v)) =~= seq![capitalized(w)]);
}

/// On an ASCII identifier, prettifying is idempotent: prettifying the
/// prettified text again gives it back unchanged.
pub proof fn lemma_prettified_idempotent(id: Seq<char>)
    requires
        all_ascii(id),
    ensures
        prettified(prettified(id)) == prettified(id),
{
    broadcast use vstd::seq_lib::group_filter_ensures, Seq::lemma_filter_contains_rev;

    lemma_prettified_plain(id);
    let r = prettified(id);
    lemma_pieces_of_plain(r);
    let one: Seq<Seq<char>> = seq![r];
    assert(one.drop_last() =~= Seq::<Seq<char>>::empty());
    assert(one.last() == r);
    reveal_with_fuel(Seq::filter, 2);
    if r.len() == 0 {
        assert(id_words(r) =~= Seq::<Seq<char>>::empty());
        assert(id_words(r).map_values(|w: Seq<char>| capitalized(w)) =~= Seq::<Seq<char>>::empty());
    } else {
        assert(id_words(r) =~= seq![r]);
        assert(id_words(r).map_values(|w: Seq<char>| capitalized(w)) =~= seq![capitalized(r)]);
        let words = id_words(id);
        let parts = words.map_values(|w: Seq<char>| capitalized(w));
        assert(parts.len() > 0) by {
            if parts.len() == 0 {
                assert(r =~= Seq::<char>::empty());
            }
        }
        lemma_pieces_plain(id);
        assert(words.contains(words[0]));
        let j = choose|j: int| 0 <= j < split_pieces(id).len() && split_pieces(id)[j] == words[0];
        assert(plain(split_pieces(id)[j]));
        assert(words[0].len() > 0);
        lemma_capitalized_plain(words[0]);
        lemma_join_starts_with(parts, " "@);
        assert(r[0] == upper_char(words[0][0]));
        lemma_upper_char(words[0][0]);
        lemma_upper_char(r[0]);
        assert(capitalized(r) =~= r);
    }
}

/// Whether a character has the Unicode `White_Space` property
/// (`char::is_whitespace`): the tab to carriage-return controls, the space,
/// the next-line control, the no-break space, the Ogham space mark, the
/// spaces from en quad to hair space, the line and paragraph separators, the
/// narrow no-break space, the medium mathematical space and the ideographic
/// space.
pub open spec fn is_unicode_whitespace(c: char) -> bool {
    let u = c as u32;
    ||| 0x09 <= u <= 0x0D
    ||| u == 0x20
    ||| u == 0x85
    ||| u == 0xA0
    ||| u == 0x1680
    ||| 0x2000 <= u <= 0x200A
    ||| u == 0x2028
    ||| u == 0x2029
    ||| u == 0x202F
    ||| u == 0x205F
    ||| u == 0x3000
}

/// Whether a character is Unicode white space.
pub fn is_whitespace(c: char) -> (r: bool)
    ensures
        r == is_unicode_whitespace(c),
{
    let u = c as u32;
    (0x09 <= u && u <= 0x0D) || u == 0x20 || u == 0x85 || u == 0xA0 || u == 0x1680
        || (0x2000 <= u && u <= 0x200A) || u == 0x2028 || u == 0x2029 || u == 0x202F
        || u == 0x205F || u == 0x3000
}

/// A text without its leading white space.
pub open spec fn trim_start(s: Seq<char>) -> Seq<char>
    decreases s.len(),
{
    if s.len() > 0 && is_unicode_whitespace(s[0]) {
        trim_start(s.drop_first())
    } else {
        s
    }
}

/// A text without its trailing white space.
pub open spec fn trim_end(s: Seq<char>) -> Seq<char>
    decreases s.len(),
{
    if s.len() > 0 && is_unicode_whitespace(s.last()) {
        trim_end(s.drop_last())
    } else {
        s
    }
}

/// A text without white space at either end (`str::trim`).
pub open spec fn trimmed(s: Seq<char>) -> Seq<char> {
    trim_end(trim_start(s))
}

/// The part of a text after its last `c`, or all of it when `c` does not
/// occur (`split(c).last()`).
pub open spec fn after_last(s: Seq<char>, c: char) -> Seq<char>
    decreases s.len(),
{
    if s.len() == 0 {
        s
    } else if s.last() == c {
        Seq::empty()
    } else {
        after_last(s.drop_last(), c).push(s.last())
    }
}

/// The base64 text of an image: what follows the last comma of a data URI
/// (or the whole text), without surrounding white space.
pub open spec fn image_payload(s: Seq<char>) -> Seq<char> {
    trimmed(after_last(s, ','))
}

/// Trims white space at both ends of a sequence of characters.
pub fn trim_chars(v: &Vec<char>) -> (r: Vec<char>)
    ensures
        r@ == trimmed(v@),
{
    let mut a: usize = 0;
    assert(v@.skip(0) =~= v@);
    while a < v.len() && is_whitespace(v[a])
        invariant
            a <= v.len(),
            trim_start(v@) == trim_start(v@.skip(a as int)),
        decreases v.len() - a,
    {
        assert(v@.skip(a as int).drop_first() =~= v@.skip(a + 1));
        a = a + 1;
    }
    assert(v@.skip(a as int) =~= v@.subrange(a as int, v@.len() as int));
    let mut b: usize = v.len();
    while b > a && is_whitespace(v[b - 1])
        invariant
            a <= b <= v.len(),
            trim_start(v@) == v@.subrange(a as int, v@.len() as int),
            trim_end(trim_start(v@)) == trim_end(v@.subrange(a as int, b as int)),
        decreases b - a,
    {
        assert(v@.subrange(a as int, b as int).drop_last() =~= v@.subrange(a as int, b - 1));
        b = b - 1;
    }
    let mut r: Vec<char> = Vec::new();
    let mut i: usize = a;
    while i < b
        invariant
            a <= i <= b <= v.len(),
            r@ == v@.subrange(a as int, i as int),
        decreases b - i,
    {
        r.push(v[i]);
        i = i + 1;
        assert(r@ =~= v@.subrange(a as int, i as int));
    }
    r
}

/// The result of decoding a text as standard base64 (with padding), as the
/// `base64` crate's `STANDARD` engine does, `None` when it refuses the text.
pub uninterp spec fn base64_decoded(text: Seq<char>) -> Option<Seq<u8>>;

/// The bytes of an optional vector.
pub open spec fn bytes_view(b: Option<Vec<u8>>) -> Option<Seq<u8>> {
    match b {
        Some(v) => Some(v@),
        None => None,
    }
}

/// Calls `base64::engine::general_purpose::STANDARD.decode` on the bytes of
/// the text and keeps the decoded bytes, or `None` on a decode error. The
/// contract names the result (`base64_decoded`); the base64 alphabet and
/// padding rules are not restated.
#[verifier::external_body]
fn standard_base64_decode(text: &str) -> (r: Option<Vec<u8>>)
    ensures
        bytes_view(r) == base64_decoded(text@),
{
    match base64::engine::general_purpose::STANDARD.decode(text) {
        Ok(bytes) => Some(bytes),
        Err(_) => None,
    }
}

/// Decodes a base64 image, possibly prefixed by a data URI, into its bytes.
pub fn decode_image(b64: &str) -> (r: Option<Vec<u8>>)
    ensures
        bytes_view(r) == base64_decoded(image_payload(b64@)),
{
    let cs = chars_of(b64);
    let mut start: usize = cs.len();
    assert(b64@.take(b64@.len() as int) =~= b64@);
    assert(b64@.subrange(b64@.len() as int, b64@.len() as int) =~= Seq::<char>::empty());
    while start > 0 && cs[start - 1] != ','
        invariant
            start <= cs.len(),
            cs@ == b64@,
            after_last(b64@, ',') == after_last(b64@.take(start as int), ',') + b64@.subrange(
                start as int,
                b64@.len() as int,
            ),
        decreases start,
    {
        let ghost t = b64@.take(start as int);
        assert(t.drop_last() =~= b64@.take(start - 1));
        assert(b64@.subrange(start - 1, b64@.len() as int) =~= seq![t.last()]
            + b64@.subrange(start as int, b64@.len() as int));
        start = start - 1;
    }
    proof {
        assert(b64@.take(b64@.len() as int) =~= b64@);
        if start > 0 {
            assert(b64@.take(start as int).last() == ',');
        }
        assert(after_last(b64@.take(start as int), ',') =~= Seq::<char>::empty());
    }
    let mut tail: Vec<char> = Vec::new();
    let mut i: usize = start;
    while i < cs.len()
        invariant
            start <= i <= cs.len(),
            cs@ == b64@,
            tail@ == b64@.subrange(start as int, i as int),
        decreases cs.len() - i,
    {
        tail.push(cs[i]);
        i = i + 1;
        assert(tail@ =~= b64@.subrange(start as int, i as int));
    }
    assert(tail@ =~= after_last(b64@, ','));
    let payload = string_of(&trim_chars(&tail));
    standard_base64_decode(payload.as_str())
}

/// The Unix time (seconds) of an RFC 3339 date-time text, as
/// `chrono::DateTime::parse_from_rfc3339` followed by `timestamp` gives it,
/// `None` when the text does not parse.
pub uninterp spec fn rfc3339_unix_seconds(text: Seq<char>) -> Option<i64>;

/// Calls `chrono::DateTime::parse_from_rfc3339` and, when it parses, reads
/// the instant's `timestamp()` (the parsed `DateTime` itself is not kept:
/// its Unix seconds are all the library reads). The contract names the
/// result (`rfc3339_unix_seconds`); the date grammar and calendar are not
/// restated.
#[verifier::external_body]
fn rfc3339_seconds(text: &str) -> (r: Option<i64>)
    ensures
        r == rfc3339_unix_seconds(text@),
{
    match chrono::DateTime::parse_from_rfc3339(text) {
        Ok(dt) => Some(dt.timestamp()),
        Err(_) => None,
    }
}

/// A Discord relative timestamp tag `<t:…:R>`.
pub open spec fn relative_tag_text(unix_seconds: int) -> Seq<char> {
    "<t:"@ + decimal(unix_seconds) + ":R>"@
}

/// Formats Unix seconds as a Discord relative timestamp (`<t:…:R>`).
pub fn relative_tag(unix_seconds: i64) -> (s: String)
    ensures
        s@ == relative_tag_text(unix_seconds as int),
{
    let mut s = String::from_str("<t:");
    push_decimal(&mut s, unix_seconds);
    s.append(":R>");
    s
}

/// Converts an ISO-8601 (RFC 3339) date to a Discord relative timestamp.
pub fn discord_relative(iso: &str) -> (r: Option<String>)
    ensures
        match rfc3339_unix_seconds(iso@) {
            Some(t) => r is Some && r->0@ == relative_tag_text(t as int),
            None => r is None,
        },
{
    match rfc3339_seconds(iso) {
        Some(t) => Some(relative_tag(t)),
        None => None,
    }
}


/// The XP needed to go from level 1 to level `k + 1`: the sum of the
/// incremental costs `curve[1..=k]` (`curve[0]` stands for level 1, at 0 XP).
pub open spec fn cost_sum(curve: Seq<i64>, k: int) -> int
    decreases k,
{
    if k <= 0 {
        0
    } else {
        cost_sum(curve, k - 1) + curve[k]
    }
}

/// The first index `i` (from `from` on, below `curve.len()`) whose cumulated
/// cost `xp` does not reach, or `curve.len()` when `xp` reaches them all.
pub open spec fn first_unreached(xp: int, curve: Seq<i64>, from: int) -> int
    decreases curve.len() - from,
{
    if from >= curve.len() {
        curve.len() as int
    } else if xp < cost_sum(curve, from) {
        from
    } else {
        first_unreached(xp, curve, from + 1)
    }
}

/// The index of the first level that `xp` does not reach.
pub open spec fn missed_level(xp: int, curve: Seq<i64>) -> int {
    first_unreached(xp, curve, 1)
}

/// The inputs on which the computation stays within `i64`: every cumulated
/// cost it adds up, and the XP into the current level.
pub open spec fn progress_fits(xp: int, curve: Seq<i64>) -> bool {
    let f = missed_level(xp, curve);
    &&& forall|i: int|
        1 <= i < curve.len() && i <= f ==> i64::MIN <= #[trigger] cost_sum(curve, i) <= i64::MAX
    &&& f < curve.len() ==> i64::MIN <= xp - cost_sum(curve, f - 1) <= i64::MAX
}

/// The level reached with `xp` on `curve`.
pub open spec fn level_at(xp: int, curve: Seq<i64>) -> int {
    let f = missed_level(xp, curve);
    if f < curve.len() {
        f
    } else if curve.len() == 0 {
        1
    } else {
        curve.len() as int
    }
}

/// The XP gathered in the current level (0 at the top level).
pub open spec fn xp_into_level(xp: int, curve: Seq<i64>) -> int {
    let f = missed_level(xp, curve);
    if f < curve.len() {
        xp - cost_sum(curve, f - 1)
    } else {
        0
    }
}

/// The XP that the current level spans (0 at the top level).
pub open spec fn level_span_at(xp: int, curve: Seq<i64>) -> int {
    let f = missed_level(xp, curve);
    if f < curve.len() {
        curve[f] as int
    } else {
        0
    }
}

/// Detailed progress of a skill for a given XP. The share of the level that
/// is done is `into_level / level_span`; at the top level both are 0.
pub struct SkillProgress {
    pub level: i64,
    /// XP already gathered in the current level.
    pub into_level: i64,
    /// XP that the current level spans (what passing to the next one costs).
    pub level_span: i64,
}

proof fn lemma_first_unreached_bounds(xp: int, curve: Seq<i64>, from: int)
    requires
        from >= 1,
    ensures
        first_unreached(xp, curve, from) >= from || first_unreached(xp, curve, from) == curve.len(),
        first_unreached(xp, curve, from) <= curve.len() || from > curve.len(),
    decreases curve.len() - from,
{
    if from < curve.len() && xp >= cost_sum(curve, from) {
        lemma_first_unreached_bounds(xp, curve, from + 1);
    }
}

/// Progress of a skill: `curve[0]` is level 1 (0 XP) and each next entry is
/// the incremental cost of the matching level; costs add up until they pass
/// `xp`.
pub fn skill_progress(xp: i64, curve: &[i64]) -> (p: SkillProgress)
    requires
        progress_fits(xp as int, curve@),
        curve@.len() < i64::MAX,
    ensures
        p.level == level_at(xp as int, curve@),
        p.into_level == xp_into_level(xp as int, curve@),
        p.level_span == level_span_at(xp as int, curve@),
{
    let mut level: i64 = 1;
    let mut cumulative: i64 = 0;
    let mut i: usize = 1;
    proof {
        lemma_first_unreached_bounds(xp as int, curve@, 1);
    }
    while i < curve.len()
        invariant
            1 <= i <= curve.len() || (i == 1 && curve.len() == 0),
            progress_fits(xp as int, curve@),
            cumulative as int == cost_sum(curve@, i - 1),
            level as int == i,
            missed_level(xp as int, curve@) == first_unreached(xp as int, curve@, i as int),
            i < curve.len() ==> i <= missed_level(xp as int, curve@),
            curve.len() < i64::MAX,
        decreases curve.len() - i,
    {
        assert(cost_sum(curve@, i as int) == cost_sum(curve@, i - 1) + curve@[i as int]);
        assert(i64::MIN <= cost_sum(curve@, i as int) <= i64::MAX);
        let level_start = cumulative;
        cumulative = cumulative + curve[i];
        if xp >= cumulative {
            level = i as i64 + 1;
            i = i + 1;
            proof {
                lemma_first_unreached_bounds(xp as int, curve@, i as int);
            }
        } else {
            return SkillProgress {
                level,
                into_level: xp - level_start,
                level_span: cumulative - level_start,
            };
        }
    }
    SkillProgress { level, into_level: 0, level_span: 0 }
}

/// Whether `skill_progress` can run on these inputs without overflow: the
/// test that callers make before computing a level.
pub fn progress_fits_check(xp: i64, curve: &[i64]) -> (r: bool)
    ensures
        r == (progress_fits(xp as int, curve@) && curve@.len() < i64::MAX),
{
    if curve.len() as u64 >= i64::MAX as u64 {
        return false;
    }
    let mut cum: i128 = 0;
    let mut i: usize = 1;
    proof {
        lemma_first_unreached_bounds(xp as int, curve@, 1);
    }
    while i < curve.len()
        invariant
            1 <= i <= curve@.len() || (i == 1 && curve@.len() == 0),
            curve@.len() < i64::MAX,
            cum as int == cost_sum(curve@, i - 1),
            i64::MIN <= cum <= i64::MAX,
            missed_level(xp as int, curve@) == first_unreached(xp as int, curve@, i as int),
            i < curve@.len() ==> i <= missed_level(xp as int, curve@),
            forall|j: int| 1 <= j < i ==> i64::MIN <= #[trigger] cost_sum(curve@, j) <= i64::MAX,
        decreases curve.len() - i,
    {
        let next = cum + curve[i] as i128;
        assert(next as int == cost_sum(curve@, i as int));
        if next < i64::MIN as i128 || next > i64::MAX as i128 {
            return false;
        }
        if (xp as i128) < next {
            let into = xp as i128 - cum;
            proof {
                assert forall|j: int| 1 <= j < curve@.len() && j <= missed_level(xp as int, curve@)
                    implies i64::MIN <= #[trigger] cost_sum(curve@, j) <= i64::MAX by {
                    assert(j <= i);
                }
            }
            return i64::MIN as i128 <= into && into <= i64::MAX as i128;
        }
        cum = next;
        i = i + 1;
        proof {
            lemma_first_unreached_bounds(xp as int, curve@, i as int);
        }
    }
    proof {
        assert forall|j: int| 1 <= j < curve@.len() && j <= missed_level(xp as int, curve@)
            implies i64::MIN <= #[trigger] cost_sum(curve@, j) <= i64::MAX by {
        }
    }
    true
}

/// Level reached for a given XP on a skill's `experience_per_level` curve.
pub fn skill_level(xp: i64, curve: &[i64]) -> (level: i64)
    requires
        progress_fits(xp as int, curve@),
        curve@.len() < i64::MAX,
    ensures
        level == level_at(xp as int, curve@),
{
    skill_progress(xp, curve).level
}


proof fn lemma_first_unreached_monotone(xp1: int, xp2: int, curve: Seq<i64>, from: int)
    requires
        xp1 <= xp2,
        from >= 1,
    ensures
        first_unreached(xp1, curve, from) <= first_unreached(xp2, curve, from),
    decreases curve.len() - from,
{
    lemma_first_unreached_bounds(xp2, curve, from);
    lemma_first_unreached_bounds(xp1, curve, from);
    if from < curve.len() && xp1 >= cost_sum(curve, from) {
        lemma_first_unreached_monotone(xp1, xp2, curve, from + 1);
    }
}

/// More XP never gives a lower level.
pub proof fn lemma_level_monotone(xp1: int, xp2: int, curve: Seq<i64>)
    requires
        xp1 <= xp2,
    ensures
        level_at(xp1, curve) <= level_at(xp2, curve),
{
    lemma_first_unreached_monotone(xp1, xp2, curve, 1);
    lemma_first_unreached_bounds(xp1, curve, 1);
    lemma_first_unreached_bounds(xp2, curve, 1);
}

proof fn lemma_cost_sum_grows(curve: Seq<i64>, i: int, j: int)
    requires
        0 <= i <= j < curve.len(),
        forall|k: int| 1 <= k < curve.len() ==> curve[k] >= 0,
    ensures
        0 <= cost_sum(curve, i) <= cost_sum(curve, j),
    decreases j,
{
    if j > i {
        lemma_cost_sum_grows(curve, i, j - 1);
    } else if i > 0 {
        lemma_cost_sum_grows(curve, i - 1, i - 1);
    }
}

/// A curve whose costs are not negative and add up within `i64` can be read
/// for any XP: the computation stays within `i64`, and the level is between
/// 1 and the number of levels of the curve (1 for an empty curve).
pub proof fn lemma_nonneg_curve_fits(xp: i64, curve: Seq<i64>)
    requires
        forall|k: int| 1 <= k < curve.len() ==> curve[k] >= 0,
        curve.len() > 0 ==> cost_sum(curve, curve.len() - 1) <= i64::MAX,
    ensures
        progress_fits(xp as int, curve),
        1 <= level_at(xp as int, curve),
        level_at(xp as int, curve) <= if curve.len() == 0 { 1 } else { curve.len() as int },
{
    let f = missed_level(xp as int, curve);
    lemma_first_unreached_bounds(xp as int, curve, 1);
    assert forall|i: int| 1 <= i < curve.len() && i <= f implies i64::MIN <= #[trigger] cost_sum(curve, i)
        <= i64::MAX by {
        lemma_cost_sum_grows(curve, i, curve.len() - 1);
    }
    if f < curve.len() {
        lemma_cost_sum_grows(curve, f - 1, curve.len() - 1);
        if f > 1 {
            lemma_first_unreached_passed(xp as int, curve, 1, f - 1);
        }
    }
}

proof fn lemma_first_unreached_passed(xp: int, curve: Seq<i64>, from: int, k: int)
    requires
        1 <= from <= k < first_unreached(xp, curve, from),
    ensures
        xp >= cost_sum(curve, k),
    decreases curve.len() - from,
{
    if from < k {
        lemma_first_unreached_passed(xp, curve, from + 1, k);
    }
}

/// Below the top level, the XP into the level is what `xp` exceeds the cost
/// of the level reached by, and stays below the level's span; it is not
/// negative unless `xp` itself is negative at level 1.
pub proof fn lemma_progress_within_level(xp: int, curve: Seq<i64>)
    requires
        missed_level(xp, curve) < curve.len(),
    ensures
        cost_sum(curve, level_at(xp, curve) - 1) + xp_into_level(xp, curve) == xp,
        xp_into_level(xp, curve) < level_span_at(xp, curve),
        (xp >= 0 || level_at(xp, curve) > 1) ==> 0 <= xp_into_level(xp, curve),
{
    let f = missed_level(xp, curve);
    lemma_first_unreached_bounds(xp, curve, 1);
    lemma_missed_is_unreached(xp, curve, 1);
    if f > 1 {
        lemma_first_unreached_passed(xp, curve, 1, f - 1);
    }
}

proof fn lemma_missed_is_unreached(xp: int, curve: Seq<i64>, from: int)
    requires
        from >= 1,
        first_unreached(xp, curve, from) < curve.len(),
    ensures
        xp < cost_sum(curve, first_unreached(xp, curve, from)),
    decreases curve.len() - from,
{
    if from < curve.len() && xp >= cost_sum(curve, from) {
        lemma_missed_is_unreached(xp, curve, from + 1);
    }
}


/// Rarity names are compared without ASCII case: a name and its lower-cased
/// form denote the same rarity, hence the same colour and dot.
pub proof fn lemma_rarity_ignores_case(name: Seq<char>)
    ensures
        rarity_named(name) == rarity_named(lower_ascii(name)),
{
    crate::text::lemma_lower_ascii_idempotent(name);
}

proof fn lemma_after_last_concat(p: Seq<char>, x: Seq<char>, c: char)
    requires
        forall|i: int| 0 <= i < x.len() ==> x[i] != c,
    ensures
        after_last(p.push(c) + x, c) == x,
    decreases x.len(),
{
    if x.len() == 0 {
        assert(p.push(c) + x =~= p.push(c));
    } else {
        lemma_after_last_concat(p, x.drop_last(), c);
        assert((p.push(c) + x).drop_last() =~= p.push(c) + x.drop_last());
        assert(x.drop_last().push(x.last()) =~= x);
    }
}

/// A data-URI prefix does not change the decoded image: the payload of
/// `prefix,data` is that of `data` when `data` holds no comma.
pub proof fn lemma_image_payload_skips_prefix(prefix: Seq<char>, data: Seq<char>)
    requires
        forall|i: int| 0 <= i < data.len() ==> data[i] != ',',
    ensures
        image_payload(prefix.push(',') + data) == image_payload(data),
{
    lemma_after_last_concat(prefix, data, ',');
    lemma_after_last_concat(Seq::empty(), data, ',');
    assert(Seq::<char>::empty().push(',') + data == seq![','] + data);
    lemma_after_last_no_sep(data, ',');
}

proof fn lemma_after_last_no_sep(x: Seq<char>, c: char)
    requires
        forall|i: int| 0 <= i < x.len() ==> x[i] != c,
    ensures
        after_last(x, c) == x,
    decreases x.len(),
{
    if x.len() > 0 {
        lemma_after_last_no_sep(x.drop_last(), c);
        assert(x.drop_last().push(x.last()) =~= x);
    }
}

} // verus!
