//! `/bestiary`: looks a creature up and shows its loots with their images.

use vstd::prelude::*;
use crate::api::{BestiaryList, Creature, CreatureSummary, Drop};
use crate::commands::player::{first_n, plain_colour};
use crate::embed::{bare_embed, field_text, with_field, Embed, EmbedText};
use crate::text::{
    decimal, fit_bytes, fitting_prefix, first_chars, join, join_strings, push_char, push_decimal,
    push_unsigned, take_chars, views,
};
use crate::util::{
    base64_decoded, bytes_view, decode_image, image_payload, range, range_text, rarity_color,
    rarity_dot, rarity_emoji, rarity_named, rarity_rgb,
};

verus! {

/// Locale of the texts asked to the API.
pub const LOCALE: &'static str = "fr";

/// Discord allows 10 embeds per message: 1 for the creature and 9 loots.
pub const MAX_LOOT_EMBEDS: usize = 9;

/// The bytes that the loot summary may take in an embed field.
pub const SUMMARY_BYTES: usize = 1020;

/// The text of an optional string, empty when absent.
pub open spec fn or_empty(s: Option<String>) -> Seq<char> {
    match s {
        Some(t) => t@,
        None => Seq::empty(),
    }
}

/// A level range: `level–level_max` when the maximum is higher, else the
/// level.
pub open spec fn level_text(level: i64, level_max: i64) -> Seq<char> {
    if level_max > level {
        decimal(level as int) + seq!['–'] + decimal(level_max as int)
    } else {
        decimal(level as int)
    }
}

fn level_string(level: i64, level_max: i64) -> (s: String)
    ensures
        s@ == level_text(level, level_max),
{
    let mut s = crate::text::decimal_string(level);
    if level_max > level {
        push_char(&mut s, '–');
        push_decimal(&mut s, level_max);
    }
    s
}

/// The label of an autocompletion choice: name, family and levels, cut to
/// 100 characters.
pub open spec fn choice_label(c: CreatureSummary) -> Seq<char> {
    take_chars(c.name@ + " • "@ + or_empty(c.family_name) + " Nv."@ + level_text(c.level, c.level_max), 100)
}

/// The autocompletion choices (label, creature id) of a bestiary search: the
/// first 25 creatures.
pub open spec fn creature_choices(list: BestiaryList) -> Seq<(Seq<char>, Seq<char>)> {
    let shown = first_n(list.creatures@, 25);
    Seq::new(shown.len(), |i: int| (choice_label(shown[i]), shown[i].id@))
}

fn choice_of(c: &CreatureSummary) -> (r: (String, String))
    ensures
        r.0@ == choice_label(*c),
        r.1@ == c.id@,
{
    let mut label = c.name.clone();
    label.append(" • ");
    match &c.family_name {
        Some(f) => label.append(f.as_str()),
        None => {},
    }
    label.append(" Nv.");
    let lvl = level_string(c.level, c.level_max);
    label.append(lvl.as_str());
    assert(label@ =~= c.name@ + " • "@ + or_empty(c.family_name) + " Nv."@ + level_text(c.level, c.level_max));
    (first_chars(label.as_str(), 100), c.id.clone())
}

/// Autocompletion: the creatures whose name matches what was typed.
pub fn creature_choices_of(list: &BestiaryList) -> (r: Vec<(String, String)>)
    ensures
        r@.len() == creature_choices(*list).len(),
        forall|i: int| 0 <= i < r@.len() ==> (#[trigger] r@[i]).0@ == creature_choices(*list)[i].0
            && r@[i].1@ == creature_choices(*list)[i].1,
{
    let n: usize = if list.creatures.len() <= 25 { list.creatures.len() } else { 25 };
    let mut r: Vec<(String, String)> = Vec::new();
    let mut i: usize = 0;
    while i < n
        invariant
            i <= n <= list.creatures@.len(),
            n == first_n(list.creatures@, 25).len(),
            r@.len() == i,
            forall|j: int| 0 <= j < i ==> (#[trigger] r@[j]).0@ == creature_choices(*list)[j].0
                && r@[j].1@ == creature_choices(*list)[j].1,
        decreases n - i,
    {
        let c = choice_of(&list.creatures[i]);
        assert(first_n(list.creatures@, 25)[i as int] == list.creatures@[i as int]);
        r.push(c);
        i = i + 1;
    }
    r
}

/// The id to look up when the typed text is not a creature id: the first
/// search result, if any.
pub fn first_creature_id(list: &BestiaryList) -> (r: Option<String>)
    ensures
        list.creatures@.len() == 0 ==> r is None,
        list.creatures@.len() > 0 ==> r is Some && r->0@ == list.creatures@[0].id@,
{
    if list.creatures.len() == 0 {
        None
    } else {
        Some(list.creatures[0].id.clone())
    }
}

/// The reply when no creature matches.
pub open spec fn creature_not_found_text(name: Seq<char>) -> Seq<char> {
    "Aucune créature trouvée pour « "@ + name + " »."@
}

/// Builds the reply when no creature matches.
pub fn creature_not_found(name: &str) -> (s: String)
    ensures
        s@ == creature_not_found_text(name@),
{
    let mut s = String::from_str("Aucune créature trouvée pour « ");
    s.append(name);
    s.append(" ».");
    s
}

/// The reply when the creature cannot be fetched.
pub open spec fn creature_failed_text(reason: Seq<char>) -> Seq<char> {
    "Impossible de récupérer la créature ("@ + reason + ")."@
}

/// Builds the reply when the creature cannot be fetched.
pub fn creature_failed(reason: &str) -> (s: String)
    ensures
        s@ == creature_failed_text(reason@),
{
    let mut s = String::from_str("Impossible de récupérer la créature (");
    s.append(reason);
    s.append(").");
    s
}

/// The stats line items: `NAME min–max`.
pub open spec fn stat_items(stats: Seq<(String, Vec<i64>)>) -> Seq<Seq<char>> {
    Seq::new(stats.len(), |i: int| stats[i].0@ + " "@ + range_text(stats[i].1@))
}

/// The description of a creature: family, level, health, zones, stats.
pub open spec fn creature_description(c: Creature) -> Seq<char> {
    let family = match c.family_name {
        Some(f) => "**Famille :** "@ + f@ + "\n"@,
        None => Seq::empty(),
    };
    let health = if c.health@.len() > 0 {
        "**Vie :** ❤️ "@ + range_text(c.health@) + "\n"@
    } else {
        Seq::empty()
    };
    let zones = match c.zones {
        Some(z) => if z@.len() > 0 {
            "**Zones :** "@ + join(views(z@), ", "@) + "\n"@
        } else {
            Seq::empty()
        },
        None => Seq::empty(),
    };
    let stats = match c.stats {
        Some(s) => if s@.len() > 0 {
            "**Stats :** "@ + join(stat_items(s@), " · "@) + "\n"@
        } else {
            Seq::empty()
        },
        None => Seq::empty(),
    };
    family + "**Niveau :** "@ + level_text(c.level, c.level_max) + "\n"@ + health + zones + stats
}

/// Builds the description of a creature.
#[verifier::spinoff_prover]
#[verifier::rlimit(40)]
pub fn creature_description_of(c: &Creature) -> (s: String)
    ensures
        s@ == creature_description(*c),
{
    let mut s = String::new();
    match &c.family_name {
        Some(f) => {
            s.append("**Famille :** ");
            s.append(f.as_str());
            s.append("\n");
        },
        None => {},
    }
    s.append("**Niveau :** ");
    let lvl = level_string(c.level, c.level_max);
    s.append(lvl.as_str());
    s.append("\n");
    if c.health.len() > 0 {
        s.append("**Vie :** ❤️ ");
        let h = range(c.health.as_slice());
        s.append(h.as_str());
        s.append("\n");
    }
    match &c.zones {
        Some(z) => {
            if z.len() > 0 {
                s.append("**Zones :** ");
                let j = join_strings(z, ", ");
                s.append(j.as_str());
                s.append("\n");
            }
        },
        None => {},
    }
    match &c.stats {
        Some(st) => {
            if st.len() > 0 {
                let mut items: Vec<String> = Vec::new();
                let mut i: usize = 0;
                while i < st.len()
                    invariant
                        i <= st@.len(),
                        views(items@) == stat_items(st@).take(i as int),
                    decreases st.len() - i,
                {
                    let mut t = st[i].0.clone();
                    t.append(" ");
                    let r = range(st[i].1.as_slice());
                    t.append(r.as_str());
                    let ghost before = items@;
                    items.push(t);
                    assert(views(items@) =~= views(before).push(t@));
                    i = i + 1;
                    assert(views(items@) =~= stat_items(st@).take(i as int));
                }
                assert(stat_items(st@).take(st.len() as int) =~= stat_items(st@));
                s.append("**Stats :** ");
                let j = join_strings(&items, " · ");
                s.append(j.as_str());
                s.append("\n");
            }
        },
        None => {},
    }
    assert(s@ =~= creature_description(*c));
    s
}

/// The rarity name of a loot's item (empty when unknown).
pub open spec fn drop_rarity(d: Drop) -> Seq<char> {
    match d.item {
        Some(i) => or_empty(i.rarity),
        None => Seq::empty(),
    }
}

fn drop_rarity_of(d: &Drop) -> (r: Option<&str>)
    ensures
        crate::util::text_or_empty(r) == drop_rarity(*d),
{
    match &d.item {
        Some(i) => match &i.rarity {
            Some(t) => Some(t.as_str()),
            None => None,
        },
        None => None,
    }
}

/// The summary line of a loot: rarity dot, name, amount, rounded chance.
pub open spec fn drop_line(d: Drop) -> Seq<char> {
    let amount = if d.amount@.len() == 0 {
        Seq::empty()
    } else {
        " x"@ + range_text(d.amount@)
    };
    rarity_emoji(rarity_named(drop_rarity(d))) + " **"@ + d.name@ + "**"@ + amount + " — "@
        + d.chance_whole@ + "%\n"@
}

/// The summary of the first `k` loots, line after line.
pub open spec fn drops_summary(ds: Seq<Drop>) -> Seq<char>
    decreases ds.len(),
{
    if ds.len() == 0 {
        Seq::empty()
    } else {
        drops_summary(ds.drop_last()) + drop_line(ds.last())
    }
}

fn drop_line_of(d: &Drop) -> (s: String)
    ensures
        s@ == drop_line(*d),
{
    let dot = rarity_dot(drop_rarity_of(d));
    let mut s = String::from_str(dot);
    s.append(" **");
    s.append(d.name.as_str());
    s.append("**");
    if d.amount.len() > 0 {
        s.append(" x");
        let r = range(d.amount.as_slice());
        s.append(r.as_str());
    }
    s.append(" — ");
    s.append(d.chance_whole.as_str());
    s.append("%\n");
    assert(s@ =~= drop_line(*d));
    s
}

/// The loot summary of a creature, one line per loot, before it is cut to
/// fit its embed field.
pub fn loot_summary(ds: &Vec<Drop>) -> (s: String)
    ensures
        s@ == drops_summary(ds@),
{
    let mut s = String::new();
    let mut i: usize = 0;
    while i < ds.len()
        invariant
            i <= ds@.len(),
            s@ == drops_summary(ds@.take(i as int)),
        decreases ds.len() - i,
    {
        let line = drop_line_of(&ds[i]);
        s.append(line.as_str());
        i = i + 1;
        assert(ds@.take(i as int).drop_last() =~= ds@.take(i - 1));
    }
    assert(ds@.take(ds.len() as int) =~= ds@);
    s
}

/// The main embed of a creature: description, image, and the loot summary
/// (cut to its longest prefix of at most 1020 bytes, on a character
/// boundary).
pub open spec fn creature_lead(c: Creature) -> EmbedText {
    let e0 = EmbedText {
        description: Some(creature_description(c)),
        thumbnail: match c.image {
            Some(i) => Some(i@),
            None => None,
        },
        ..bare_embed("🐾 "@ + c.name@, plain_colour())
    };
    if c.drops@.len() == 0 {
        with_field(e0, field_text("Loots"@, "Aucun loot connu."@, false))
    } else {
        with_field(
            e0,
            field_text(
                "Loots ("@ + decimal(c.drops@.len() as int) + ")"@,
                fitting_prefix(drops_summary(c.drops@), SUMMARY_BYTES as nat),
                false,
            ),
        )
    }
}

/// The image file name of the `i`-th loot.
pub open spec fn loot_file(i: int) -> Seq<char> {
    "loot_"@ + decimal(i) + ".png"@
}

/// The decoded image of a loot, if it has one that decodes.
pub open spec fn drop_image(d: Drop) -> Option<Seq<u8>> {
    match d.image {
        Some(img) => base64_decoded(image_payload(img@)),
        None => None,
    }
}

/// The embed of the `i`-th loot: rarity dot and name, amount, chance with
/// one decimal, rarity colour, and its image as thumbnail when it decodes.
pub open spec fn loot_embed(d: Drop, i: int) -> EmbedText {
    let amount = if d.amount@.len() == 0 {
        Seq::empty()
    } else {
        "Quantité : "@ + range_text(d.amount@) + "\n"@
    };
    let e = EmbedText {
        description: Some(amount + "Chance : "@ + d.chance_tenths@ + "%"@),
        ..bare_embed(
            rarity_emoji(rarity_named(drop_rarity(d))) + " "@ + d.name@,
            rarity_rgb(rarity_named(drop_rarity(d))),
        )
    };
    if drop_image(d) is Some {
        EmbedText { thumbnail: Some("attachment://"@ + loot_file(i)), ..e }
    } else {
        e
    }
}

/// A file attached to a message.
pub struct Attachment {
    pub filename: String,
    pub bytes: Vec<u8>,
}

/// The images attached for the first `k` loots: one per loot whose image
/// decodes, in loot order.
pub open spec fn loot_files(ds: Seq<Drop>, k: int) -> Seq<(Seq<char>, Seq<u8>)>
    decreases k,
{
    if k <= 0 {
        Seq::empty()
    } else {
        let prev = loot_files(ds, k - 1);
        match drop_image(ds[k - 1]) {
            Some(b) => prev.push((loot_file(k - 1), b)),
            None => prev,
        }
    }
}

/// The number of loots that get an embed of their own.
pub open spec fn loot_embed_count(c: Creature) -> int {
    if c.drops@.len() <= MAX_LOOT_EMBEDS { c.drops@.len() as int } else { MAX_LOOT_EMBEDS as int }
}

/// The whole reply about a creature.
pub struct CreatureReply {
    pub embeds: Vec<Embed>,
    pub attachments: Vec<Attachment>,
}

/// The texts of embeds.
pub open spec fn embed_texts(es: Seq<Embed>) -> Seq<EmbedText> {
    Seq::new(es.len(), |i: int| es[i]@)
}

/// The file names and bytes of attachments.
pub open spec fn files_view(fs: Seq<Attachment>) -> Seq<(Seq<char>, Seq<u8>)> {
    Seq::new(fs.len(), |i: int| (fs[i].filename@, fs[i].bytes@))
}

/// The embeds of the reply: the creature, then one per loot (9 at most).
pub open spec fn creature_embeds(c: Creature) -> Seq<EmbedText> {
    seq![creature_lead(c)] + Seq::new(
        loot_embed_count(c) as nat,
        |i: int| loot_embed(c.drops@[i], i),
    )
}

fn file_name(i: usize) -> (s: String)
    ensures
        s@ == loot_file(i as int),
{
    let mut s = String::from_str("loot_");
    push_unsigned(&mut s, i as u64);
    s.append(".png");
    s
}

fn loot_embed_of(d: &Drop, i: usize) -> (r: (Embed, Option<Vec<u8>>))
    ensures
        r.0@ == loot_embed(*d, i as int),
        bytes_view(r.1) == drop_image(*d),
{
    let rarity = drop_rarity_of(d);
    let mut title = String::from_str(rarity_dot(rarity));
    title.append(" ");
    title.append(d.name.as_str());
    let mut e = Embed::new(title, rarity_color(rarity));
    let mut desc = String::new();
    if d.amount.len() > 0 {
        desc.append("Quantité : ");
        let r = range(d.amount.as_slice());
        desc.append(r.as_str());
        desc.append("\n");
    }
    desc.append("Chance : ");
    desc.append(d.chance_tenths.as_str());
    desc.append("%");
    e.set_description(desc);
    let bytes = match &d.image {
        Some(img) => decode_image(img.as_str()),
        None => None,
    };
    if bytes.is_some() {
        let mut url = String::from_str("attachment://");
        let f = file_name(i);
        url.append(f.as_str());
        e.set_thumbnail(url);
    }
    (e, bytes)
}

/// Builds the reply about a creature: its embed with the loot summary, one
/// illustrated embed per loot (up to Discord's limit), and the decoded loot
/// images as attachments.
pub fn creature_reply(c: &Creature) -> (r: CreatureReply)
    ensures
        embed_texts(r.embeds@) == creature_embeds(*c),
        files_view(r.attachments@) == loot_files(c.drops@, loot_embed_count(*c)),
{
    let mut title = String::from_str("🐾 ");
    title.append(c.name.as_str());
    let mut lead = Embed::new(title, 0x5865F2);
    lead.set_description(creature_description_of(c));
    match &c.image {
        Some(i) => lead.set_thumbnail(i.clone()),
        None => {},
    }
    if c.drops.len() == 0 {
        lead.add_field(String::from_str("Loots"), String::from_str("Aucun loot connu."), false);
    } else {
        let summary = fit_bytes(loot_summary(&c.drops), SUMMARY_BYTES);
        let mut name = String::from_str("Loots (");
        push_unsigned(&mut name, c.drops.len() as u64);
        name.append(")");
        lead.add_field(name, summary, false);
    }
    assert(lead@ == creature_lead(*c));
    let mut embeds: Vec<Embed> = Vec::new();
    embeds.push(lead);
    let mut files: Vec<Attachment> = Vec::new();
    let n: usize = if c.drops.len() <= MAX_LOOT_EMBEDS { c.drops.len() } else { MAX_LOOT_EMBEDS };
    let mut i: usize = 0;
    while i < n
        invariant
            i <= n,
            n == loot_embed_count(*c),
            n <= c.drops@.len(),
            embed_texts(embeds@) == creature_embeds(*c).take(i + 1),
            files_view(files@) == loot_files(c.drops@, i as int),
        decreases n - i,
    {
        let (e, bytes) = loot_embed_of(&c.drops[i], i);
        let ghost eb = embeds@;
        let ghost fb = files@;
        embeds.push(e);
        assert(embed_texts(embeds@) =~= embed_texts(eb).push(e@));
        match bytes {
            Some(b) => {
                files.push(Attachment { filename: file_name(i), bytes: b });
                assert(files_view(files@) =~= files_view(fb).push((loot_file(i as int), b@)));
            },
            None => {},
        }
        i = i + 1;
        assert(creature_embeds(*c).take(i + 1) =~= creature_embeds(*c).take(i as int).push(
            loot_embed(c.drops@[i - 1], i - 1),
        ));
    }
    assert(creature_embeds(*c).take(n + 1) =~= creature_embeds(*c));
    CreatureReply { embeds, attachments: files }
}


/// Autocompletion offers at most 25 choices, each label of at most 100
/// characters, as Discord allows.
pub proof fn lemma_choices_within_limits(list: BestiaryList)
    ensures
        creature_choices(list).len() <= 25,
        forall|i: int| 0 <= i < creature_choices(list).len() ==> (#[trigger] creature_choices(list)[i]).0.len() <= 100,
{
}

/// A creature reply holds at most 10 embeds (Discord's limit): the creature
/// and at most 9 loots, and at most one image per loot shown.
pub proof fn lemma_reply_within_limits(c: Creature)
    ensures
        creature_embeds(c).len() <= 10,
        loot_files(c.drops@, loot_embed_count(c)).len() <= loot_embed_count(c),
{
    lemma_loot_files_len(c.drops@, loot_embed_count(c));
}

/// Texts that share a prefix and a suffix differ in what lies between.
proof fn lemma_strip_frame(p: Seq<char>, x: Seq<char>, y: Seq<char>, q: Seq<char>)
    requires
        p + x + q == p + y + q,
    ensures
        x == y,
{
    let a = p + x + q;
    let b = p + y + q;
    assert(a.len() == p.len() + x.len() + q.len());
    assert(b.len() == p.len() + y.len() + q.len());
    assert(x.len() == y.len());
    assert(x =~= a.subrange(p.len() as int, (p.len() + x.len()) as int));
    assert(y =~= b.subrange(p.len() as int, (p.len() + y.len()) as int));
}

/// Two loots never share an image file name.
proof fn lemma_loot_file_injective(i: int, j: int)
    requires
        0 <= i <= u64::MAX,
        0 <= j <= u64::MAX,
        loot_file(i) == loot_file(j),
    ensures
        i == j,
{
    lemma_strip_frame("loot_"@, decimal(i), decimal(j), ".png"@);
    crate::text::lemma_parse_u64_of_decimal(i as u64);
    crate::text::lemma_parse_u64_of_decimal(j as u64);
}

proof fn lemma_files_prefix(ds: Seq<Drop>, m: int, k: int)
    requires
        0 <= m <= k,
    ensures
        loot_files(ds, m).len() <= loot_files(ds, k).len(),
        forall|j: int| 0 <= j < loot_files(ds, m).len() ==> #[trigger] loot_files(ds, k)[j] == loot_files(ds, m)[j],
    decreases k - m,
{
    if m < k {
        lemma_files_prefix(ds, m, k - 1);
        let prev = loot_files(ds, k - 1);
        assert forall|j: int| 0 <= j < prev.len() implies #[trigger] loot_files(ds, k)[j] == prev[j] by {
            if drop_image(ds[k - 1]) is Some {
                assert(loot_files(ds, k) == prev.push((loot_file(k - 1), drop_image(ds[k - 1])->0)));
            }
        }
    }
}

/// Where the file of a loot with an image stands among the attachments.
proof fn lemma_file_of_loot(ds: Seq<Drop>, m: int, k: int)
    requires
        0 <= m < k,
        drop_image(ds[m]) is Some,
    ensures
        loot_files(ds, m).len() < loot_files(ds, k).len(),
        loot_files(ds, k)[loot_files(ds, m).len() as int] == (loot_file(m), drop_image(ds[m])->0),
{
    lemma_files_prefix(ds, m + 1, k);
    assert(loot_files(ds, m + 1) == loot_files(ds, m).push((loot_file(m), drop_image(ds[m])->0)));
    assert(loot_files(ds, m + 1)[loot_files(ds, m).len() as int] == (loot_file(m), drop_image(ds[m])->0));
}

/// Each attachment is the image of a loot shown, under that loot's name.
proof fn lemma_file_source(ds: Seq<Drop>, k: int, j: int)
    requires
        0 <= j < loot_files(ds, k).len(),
    ensures
        exists|m: int|
            0 <= m < k && loot_files(ds, k)[j].0 == loot_file(m) && drop_image(ds[m]) == Some(loot_files(ds, k)[j].1),
    decreases k,
{
    if k > 0 {
        let prev = loot_files(ds, k - 1);
        if j < prev.len() {
            lemma_files_prefix(ds, k - 1, k);
            lemma_file_source(ds, k - 1, j);
            let m = choose|m: int| 0 <= m < k - 1 && prev[j].0 == loot_file(m) && drop_image(ds[m]) == Some(prev[j].1);
            assert(loot_files(ds, k)[j] == prev[j]);
        } else {
            assert(drop_image(ds[k - 1]) is Some);
            assert(loot_files(ds, k) == prev.push((loot_file(k - 1), drop_image(ds[k - 1])->0)));
            assert(loot_files(ds, k)[j] == (loot_file(k - 1), drop_image(ds[k - 1])->0));
        }
    }
}

/// The attachments have pairwise distinct file names.
proof fn lemma_files_distinct(ds: Seq<Drop>, k: int)
    requires
        k <= u64::MAX,
    ensures
        forall|a: int, b: int|
            0 <= a < b < loot_files(ds, k).len() ==> (#[trigger] loot_files(ds, k)[a]).0 != (
            #[trigger] loot_files(ds, k)[b]).0,
    decreases k,
{
    if k > 0 {
        lemma_files_distinct(ds, k - 1);
        let prev = loot_files(ds, k - 1);
        let cur = loot_files(ds, k);
        lemma_files_prefix(ds, k - 1, k);
        assert forall|a: int, b: int| 0 <= a < b < cur.len() implies (#[trigger] cur[a]).0 != (#[trigger] cur[b]).0 by {
            assert(cur[a] == prev[a]);
            if b < prev.len() {
                assert(cur[b] == prev[b]);
            } else {
                assert(cur == prev.push((loot_file(k - 1), drop_image(ds[k - 1])->0)));
                lemma_file_source(ds, k - 1, a);
                let m = choose|m: int| 0 <= m < k - 1 && prev[a].0 == loot_file(m) && drop_image(ds[m]) == Some(prev[a].1);
                if cur[a].0 == cur[b].0 {
                    lemma_loot_file_injective(m, k - 1);
                }
            }
        }
    }
}

/// The images of a creature reply match its loots: the attachments have
/// pairwise distinct file names; a shown loot whose image decodes has a
/// thumbnail naming an attachment that holds that image, and any
/// attachment its thumbnail names holds that loot's own image; a loot
/// without an image has no thumbnail.
pub proof fn lemma_loot_images_match(c: Creature)
    ensures
        forall|a: int, b: int|
            0 <= a < b < loot_files(c.drops@, loot_embed_count(c)).len() ==> (#[trigger] loot_files(
                c.drops@,
                loot_embed_count(c),
            )[a]).0 != (#[trigger] loot_files(c.drops@, loot_embed_count(c))[b]).0,
        forall|i: int| 0 <= i < loot_embed_count(c) ==> match #[trigger] drop_image(c.drops@[i]) {
            Some(img) => exists|j: int|
                0 <= j < loot_files(c.drops@, loot_embed_count(c)).len() && creature_embeds(c)[i + 1].thumbnail
                    == Some("attachment://"@ + loot_files(c.drops@, loot_embed_count(c))[j].0)
                    && loot_files(c.drops@, loot_embed_count(c))[j].1 == img,
            None => creature_embeds(c)[i + 1].thumbnail is None,
        },
        forall|i: int, j: int|
            0 <= i < loot_embed_count(c) && 0 <= j < loot_files(c.drops@, loot_embed_count(c)).len()
                && #[trigger] creature_embeds(c)[i + 1].thumbnail == Some(
                "attachment://"@ + (#[trigger] loot_files(c.drops@, loot_embed_count(c))[j]).0,
            ) ==> drop_image(c.drops@[i]) == Some(loot_files(c.drops@, loot_embed_count(c))[j].1),
{
    let k = loot_embed_count(c);
    let ds = c.drops@;
    let files = loot_files(ds, k);
    let es = creature_embeds(c);
    lemma_files_distinct(ds, k);
    assert forall|i: int| 0 <= i < k implies es[i + 1] == loot_embed(ds[i], i) by {
        assert(es[i + 1] == Seq::new(k as nat, |t: int| loot_embed(ds[t], t))[i]);
    }
    assert forall|i: int| 0 <= i < k implies match #[trigger] drop_image(ds[i]) {
        Some(img) => exists|j: int|
            0 <= j < files.len() && es[i + 1].thumbnail == Some("attachment://"@ + files[j].0) && files[j].1 == img,
        None => es[i + 1].thumbnail is None,
    } by {
        assert(es[i + 1] == loot_embed(ds[i], i));
        if drop_image(ds[i]) is Some {
            lemma_file_of_loot(ds, i, k);
            let j = loot_files(ds, i).len() as int;
            assert(files[j].0 == loot_file(i));
        }
    }
    assert forall|i: int, j: int|
        0 <= i < k && 0 <= j < files.len() && #[trigger] es[i + 1].thumbnail == Some("attachment://"@ + (#[trigger] files[j]).0)
            implies drop_image(ds[i]) == Some(files[j].1) by {
        assert(es[i + 1] == loot_embed(ds[i], i));
        lemma_file_source(ds, k, j);
        let m = choose|m: int| 0 <= m < k && files[j].0 == loot_file(m) && drop_image(ds[m]) == Some(files[j].1);
        if drop_image(ds[i]) is None {
            assert(es[i + 1].thumbnail is None);
        } else {
            lemma_strip_frame("attachment://"@, loot_file(i), files[j].0, Seq::<char>::empty());
            lemma_loot_file_injective(i, m);
        }
    }
}

proof fn lemma_loot_files_len(ds: Seq<Drop>, k: int)
    requires
        k >= 0,
    ensures
        loot_files(ds, k).len() <= k,
    decreases k,
{
    if k > 0 {
        lemma_loot_files_len(ds, k - 1);
    }
}

} // verus!
