//! `/roadmap`: the equipment sets from early to end game. The API gives
//! neither level nor rarity for sets, so they are ranked by power (the sum of
//! the bonuses at the highest tier) and cut into three phases.

use vstd::prelude::*;
use crate::api::{power_fits, set_power, top_tier, EquipmentSet};
use crate::commands::player::first_n;
use crate::embed::{bare_embed, field_text, with_field, Embed, EmbedText, FieldText};
use crate::sort::{sort_indices_by_key, sort_indices_by_key_then_text, sorted_by_key, sorted_by_key_then_text};
use crate::text::{ascii_lowercase, decimal, join, join_strings, lower_ascii, push_decimal, push_unsigned, utf8_len, views, char_width};
use crate::util::{prettified, prettify_id};

verus! {

/// Discord's limit for the value of an embed field, in bytes.
pub const FIELD_LIMIT: usize = 1024;

/// The title of a phase (0 to 2).
pub open spec fn phase_title(p: int) -> Seq<char> {
    if p == 0 {
        "🟢 Début de jeu"@
    } else if p == 1 {
        "🔵 Milieu de jeu"@
    } else {
        "🟠 Fin de jeu"@
    }
}

/// The hint of a phase (0 to 2).
pub open spec fn phase_hint(p: int) -> Seq<char> {
    if p == 0 {
        "Premiers sets accessibles pour démarrer."@
    } else if p == 1 {
        "Sets intermédiaires pour monter en puissance."@
    } else {
        "Les sets les plus puissants — objectif final."@
    }
}

fn phase_title_of(p: usize) -> (s: &'static str)
    ensures
        s@ == phase_title(p as int),
{
    if p == 0 {
        "🟢 Début de jeu"
    } else if p == 1 {
        "🔵 Milieu de jeu"
    } else {
        "🟠 Fin de jeu"
    }
}

fn phase_hint_of(p: usize) -> (s: &'static str)
    ensures
        s@ == phase_hint(p as int),
{
    if p == 0 {
        "Premiers sets accessibles pour démarrer."
    } else if p == 1 {
        "Sets intermédiaires pour monter en puissance."
    } else {
        "Les sets les plus puissants — objectif final."
    }
}

/// The state of packing lines into fields: the full fields so far and the
/// field being filled.
pub open spec fn pack_lines(lines: Seq<Seq<char>>, hint: Seq<char>) -> (Seq<Seq<char>>, Seq<char>)
    decreases lines.len(),
{
    if lines.len() == 0 {
        (Seq::empty(), "*"@ + hint + "*"@)
    } else {
        let (fields, current) = pack_lines(lines.drop_last(), hint);
        let line = lines.last();
        let (fields2, current2) = if utf8_len(current) + 1 + utf8_len(line) > FIELD_LIMIT {
            (fields.push(current), Seq::<char>::empty())
        } else {
            (fields, current)
        };
        let current3 = if current2.len() > 0 { current2.push('\n') } else { current2 };
        (fields2, current3 + line)
    }
}

/// Lines grouped into field values that fit Discord's limit: the first
/// value starts with the phase hint in italics, a value is closed when the
/// next line would pass 1024 bytes with its line break.
pub open spec fn split_fields_text(lines: Seq<Seq<char>>, hint: Seq<char>) -> Seq<Seq<char>> {
    let (fields, current) = pack_lines(lines, hint);
    if current.len() > 0 { fields.push(current) } else { fields }
}

/// The UTF-8 length of a text, counted up to `cap` bytes.
fn utf8_len_up_to(s: &str, cap: usize) -> (n: usize)
    ensures
        n == if utf8_len(s@) <= cap { utf8_len(s@) } else { cap as nat },
{
    let v = crate::text::chars_of(s);
    let mut n: usize = 0;
    let mut i: usize = 0;
    while i < v.len()
        invariant
            v@ == s@,
            i <= v@.len(),
            n == if utf8_len(s@.take(i as int)) <= cap { utf8_len(s@.take(i as int)) } else { cap as nat },
        decreases v.len() - i,
    {
        proof {
            crate::text::lemma_utf8_len_push(s@.take(i as int), s@[i as int]);
            assert(s@.take(i as int).push(s@[i as int]) =~= s@.take(i + 1));
        }
        let w = crate::text::width_of(v[i]);
        if n < cap {
            if w <= cap - n {
                n = n + w;
            } else {
                n = cap;
            }
        }
        i = i + 1;
    }
    assert(s@.take(v.len() as int) =~= s@);
    n
}

/// Groups lines into field values under Discord's limit; the first value
/// starts with `hint` (the phase description).
pub fn split_fields(lines: &Vec<String>, hint: &str) -> (r: Vec<String>)
    ensures
        views(r@) == split_fields_text(views(lines@), hint@),
{
    let mut fields: Vec<String> = Vec::new();
    let mut current = String::from_str("*");
    current.append(hint);
    current.append("*");
    let mut i: usize = 0;
    while i < lines.len()
        invariant
            i <= lines@.len(),
            pack_lines(views(lines@).take(i as int), hint@) == (views(fields@), current@),
        decreases lines.len() - i,
    {
        let ghost prev = views(lines@).take(i as int);
        assert(views(lines@).take(i + 1).drop_last() =~= prev);
        let line = &lines[i];
        let a = utf8_len_up_to(current.as_str(), 2048);
        let b = utf8_len_up_to(line.as_str(), 2048);
        let ghost fb = fields@;
        if a + 1 + b > FIELD_LIMIT {
            let full = current;
            fields.push(full);
            assert(views(fields@) =~= views(fb).push(full@));
            current = String::new();
        }
        if !current.as_str().is_empty() {
            crate::text::push_char(&mut current, '\n');
        }
        current.append(line.as_str());
        i = i + 1;
    }
    assert(views(lines@).take(lines.len() as int) =~= views(lines@));
    if !current.as_str().is_empty() {
        let ghost fb = fields@;
        fields.push(current);
        assert(views(fields@) =~= views(fb).push(current@));
    }
    fields
}

/// Sort keys ordering bonuses by decreasing value.
pub open spec fn bonus_desc_keys(stats: Seq<(String, i64)>) -> Seq<i128> {
    Seq::new(stats.len(), |i: int| -(stats[i].1 as i128) as i128)
}

/// The name of a stat as shown: the API's key (`STRENGTH`,
/// `CRITICAL_CHANCE`) lower-cased, then its words capitalized and joined by
/// spaces (« Strength », « Critical Chance »).
pub open spec fn stat_label(key: Seq<char>) -> Seq<char> {
    prettified(lower_ascii(key))
}

/// The name of a stat as shown (`STRENGTH` gives « Strength »).
pub fn stat_name(key: &str) -> (r: String)
    ensures
        r@ == stat_label(key@),
{
    let lower = ascii_lowercase(key);
    prettify_id(lower.as_str())
}

/// The `n` largest bonuses of a tier (ties in key order), as
/// `Strength +20`, joined by `, `.
pub open spec fn top_bonuses_text(stats: Seq<(String, i64)>, n: nat) -> Seq<char> {
    let shown = first_n(sorted_by_key(bonus_desc_keys(stats)), n);
    join(
        Seq::new(shown.len(), |i: int| stat_label(stats[shown[i] as int].0@) + " +"@ + decimal(stats[shown[i] as int].1 as int)),
        ", "@,
    )
}

/// The `n` largest bonuses of a tier, formatted `Strength +20`.
pub fn top_bonuses(stats: &Vec<(String, i64)>, n: usize) -> (s: String)
    ensures
        s@ == top_bonuses_text(stats@, n as nat),
{
    let mut keys: Vec<i128> = Vec::new();
    let mut i: usize = 0;
    while i < stats.len()
        invariant
            i <= stats@.len(),
            keys@ == bonus_desc_keys(stats@).take(i as int),
        decreases stats.len() - i,
    {
        keys.push(-(stats[i].1 as i128));
        i = i + 1;
        assert(keys@ =~= bonus_desc_keys(stats@).take(i as int));
    }
    assert(bonus_desc_keys(stats@).take(stats.len() as int) =~= bonus_desc_keys(stats@));
    let order = sort_indices_by_key(&keys);
    let m: usize = if order.len() <= n { order.len() } else { n };
    let ghost shown = first_n(sorted_by_key(bonus_desc_keys(stats@)), n as nat);
    let ghost items = Seq::new(
        shown.len(),
        |i: int| stat_label(stats@[shown[i] as int].0@) + " +"@ + decimal(stats@[shown[i] as int].1 as int),
    );
    assert(shown =~= order@.take(m as int));
    let mut parts: Vec<String> = Vec::new();
    let mut j: usize = 0;
    while j < m
        invariant
            j <= m <= order@.len(),
            order@.len() == stats@.len(),
            shown == order@.take(m as int),
            items == Seq::new(
                shown.len(),
                |i: int| stat_label(stats@[shown[i] as int].0@) + " +"@ + decimal(stats@[shown[i] as int].1 as int),
            ),
            forall|t: int| 0 <= t < order@.len() ==> #[trigger] order@[t] < stats@.len(),
            views(parts@) == items.take(j as int),
        decreases m - j,
    {
        let k = order[j];
        let mut t = stat_name(stats[k].0.as_str());
        t.append(" +");
        push_decimal(&mut t, stats[k].1);
        let ghost before = parts@;
        parts.push(t);
        assert(views(parts@) =~= views(before).push(t@));
        j = j + 1;
        assert(views(parts@) =~= items.take(j as int));
    }
    assert(items.take(m as int) =~= items);
    join_strings(&parts, ", ")
}

/// The line of a set: name, pieces of the highest tier and its two best
/// bonuses.
pub open spec fn set_line_text(s: EquipmentSet) -> Seq<char> {
    match top_tier(s) {
        Some((pieces, i)) => "**"@ + s.name@ + "** — "@ + decimal(pieces as int) + " pièces · "@
            + top_bonuses_text(s.bonuses@[i].1@, 2),
        None => "**"@ + s.name@ + "**"@,
    }
}

/// The line of a set.
pub fn set_line(s: &EquipmentSet) -> (r: String)
    ensures
        r@ == set_line_text(*s),
{
    let mut r = String::from_str("**");
    r.append(s.name.as_str());
    match s.max_tier() {
        Some((pieces, stats)) => {
            r.append("** — ");
            push_unsigned(&mut r, pieces as u64);
            r.append(" pièces · ");
            let b = top_bonuses(stats, 2);
            r.append(b.as_str());
        },
        None => {
            r.append("**");
        },
    }
    r
}

/// The power keys by which the sets are ranked (not computed for a single
/// set, which needs no comparison).
pub open spec fn power_keys(sets: Seq<EquipmentSet>) -> Seq<i128> {
    Seq::new(sets.len(), |i: int| if sets.len() >= 2 { set_power(sets[i]) as i128 } else { 0i128 })
}

/// The names of the sets.
pub open spec fn set_names(sets: Seq<EquipmentSet>) -> Seq<Seq<char>> {
    Seq::new(sets.len(), |i: int| sets[i].name@)
}

/// The sets from weakest to strongest: by power, then by name.
pub open spec fn roadmap_order(sets: Seq<EquipmentSet>) -> Seq<usize> {
    sorted_by_key_then_text(power_keys(sets), set_names(sets))
}

/// The bounds of the three phases: the first and second thirds and the rest.
pub open spec fn phase_bounds(n: int, p: int) -> (int, int) {
    if p == 0 {
        (0, n / 3)
    } else if p == 1 {
        (n / 3, 2 * n / 3)
    } else {
        (2 * n / 3, n)
    }
}

/// The lines of the sets of a phase.
pub open spec fn phase_lines(sets: Seq<EquipmentSet>, p: int) -> Seq<Seq<char>> {
    let order = roadmap_order(sets);
    let (lo, hi) = phase_bounds(sets.len() as int, p);
    Seq::new((hi - lo) as nat, |i: int| "• "@ + set_line_text(sets[order[lo + i] as int]))
}

/// The fields of a phase: its title, then `(suite)` for the next ones.
pub open spec fn phase_fields(e: EmbedText, title: Seq<char>, values: Seq<Seq<char>>) -> EmbedText
    decreases values.len(),
{
    if values.len() == 0 {
        e
    } else {
        let prev = phase_fields(e, title, values.drop_last());
        let name = if values.len() == 1 { title } else { title + " (suite)"@ };
        with_field(prev, field_text(name, values.last(), false))
    }
}

/// The roadmap embed.
pub open spec fn roadmap_embed_text(sets: Seq<EquipmentSet>) -> EmbedText {
    let e0 = EmbedText {
        description: Some(
            decimal(sets.len() as int)
                + " sets classés par puissance. Suis les phases de haut en bas pour progresser le plus vite vers l'end-game."@,
        ),
        footer: Some("Puissance = somme des bonus au nombre de pièces maximal"@),
        ..bare_embed("🗺️ Roadmap des sets — vers la fin du jeu"@, 0xFF9800)
    };
    let e1 = phase_fields(e0, phase_title(0), split_fields_text(phase_lines(sets, 0), phase_hint(0)));
    let e2 = phase_fields(e1, phase_title(1), split_fields_text(phase_lines(sets, 1), phase_hint(1)));
    phase_fields(e2, phase_title(2), split_fields_text(phase_lines(sets, 2), phase_hint(2)))
}

/// The powers of the sets can be computed whenever ranking compares them.
pub open spec fn powers_fit(sets: Seq<EquipmentSet>) -> bool {
    sets.len() >= 2 ==> forall|i: int| 0 <= i < sets.len() ==> power_fits(#[trigger] sets[i])
}

/// The reply when the API returns no set.
pub fn no_sets() -> (s: String)
    ensures
        s@ == "Aucun set renvoyé par l'API."@,
{
    String::from_str("Aucun set renvoyé par l'API.")
}

/// The reply when the sets cannot be fetched.
pub open spec fn sets_failed_text(reason: Seq<char>) -> Seq<char> {
    "Impossible de récupérer les sets ("@ + reason + ")."@
}

/// Builds the reply when the sets cannot be fetched.
pub fn sets_failed(reason: &str) -> (s: String)
    ensures
        s@ == sets_failed_text(reason@),
{
    let mut s = String::from_str("Impossible de récupérer les sets (");
    s.append(reason);
    s.append(").");
    s
}

fn add_phase(e: &mut Embed, title: &str, values: Vec<String>)
    ensures
        final(e)@ == phase_fields(old(e)@, title@, views(values@)),
{
    let mut i: usize = 0;
    while i < values.len()
        invariant
            i <= values@.len(),
            e@ == phase_fields(old(e)@, title@, views(values@).take(i as int)),
        decreases values.len() - i,
    {
        let mut name = String::from_str(title);
        if i > 0 {
            name.append(" (suite)");
        }
        e.add_field(name, values[i].clone(), false);
        i = i + 1;
        assert(views(values@).take(i as int).drop_last() =~= views(values@).take(i - 1));
        assert(e@ == phase_fields(old(e)@, title@, views(values@).take(i as int)));
    }
    assert(views(values@).take(values.len() as int) =~= views(values@));
}

/// Builds the roadmap of the sets: ranked by power then name and cut in
/// thirds, each phase in as many fields as Discord's limit needs; `None`
/// when there is no set.
pub fn roadmap_embed(sets: &Vec<EquipmentSet>) -> (r: Option<Embed>)
    requires
        powers_fit(sets@),
    ensures
        sets@.len() == 0 ==> r is None,
        sets@.len() > 0 ==> r is Some && r->0@ == roadmap_embed_text(sets@),
{
    let n = sets.len();
    if n == 0 {
        return None;
    }
    let mut keys: Vec<i128> = Vec::new();
    let mut names: Vec<String> = Vec::new();
    let mut i: usize = 0;
    while i < n
        invariant
            i <= n == sets@.len(),
            powers_fit(sets@),
            keys@ == power_keys(sets@).take(i as int),
            views(names@) == set_names(sets@).take(i as int),
            names@.len() == i,
        decreases n - i,
    {
        let k: i128 = if n >= 2 {
            assert(power_fits(sets@[i as int]));
            sets[i].power() as i128
        } else {
            0
        };
        keys.push(k);
        let ghost nb = names@;
        names.push(sets[i].name.clone());
        assert(views(names@) =~= views(nb).push(sets@[i as int].name@));
        i = i + 1;
        assert(keys@ =~= power_keys(sets@).take(i as int));
        assert(views(names@) =~= set_names(sets@).take(i as int));
    }
    assert(power_keys(sets@).take(n as int) =~= power_keys(sets@));
    assert(set_names(sets@).take(n as int) =~= set_names(sets@));
    let order = sort_indices_by_key_then_text(&keys, &names);
    let mut e = Embed::new(String::from_str("🗺️ Roadmap des sets — vers la fin du jeu"), 0xFF9800);
    let mut desc = String::new();
    push_unsigned(&mut desc, n as u64);
    desc.append(" sets classés par puissance. Suis les phases de haut en bas pour progresser le plus vite vers l'end-game.");
    e.set_description(desc);
    e.set_footer(String::from_str("Puissance = somme des bonus au nombre de pièces maximal"));
    let cut1: usize = n / 3;
    let cut2: usize = ((2 * (n as u128)) / 3) as usize;
    let mut p: usize = 0;
    while p < 3
        invariant
            p <= 3,
            n == sets@.len(),
            n > 0,
            order@ == roadmap_order(sets@),
            order@.len() == n,
            forall|t: int| 0 <= t < order@.len() ==> #[trigger] order@[t] < n,
            cut1 == n / 3,
            cut2 == 2 * n / 3,
            e@ == (if p == 0 {
                EmbedText {
                    description: Some(
                        decimal(n as int)
                            + " sets classés par puissance. Suis les phases de haut en bas pour progresser le plus vite vers l'end-game."@,
                    ),
                    footer: Some("Puissance = somme des bonus au nombre de pièces maximal"@),
                    ..bare_embed("🗺️ Roadmap des sets — vers la fin du jeu"@, 0xFF9800)
                }
            } else if p == 1 {
                phase_fields(
                    EmbedText {
                        description: Some(
                            decimal(n as int)
                                + " sets classés par puissance. Suis les phases de haut en bas pour progresser le plus vite vers l'end-game."@,
                        ),
                        footer: Some("Puissance = somme des bonus au nombre de pièces maximal"@),
                        ..bare_embed("🗺️ Roadmap des sets — vers la fin du jeu"@, 0xFF9800)
                    },
                    phase_title(0),
                    split_fields_text(phase_lines(sets@, 0), phase_hint(0)),
                )
            } else if p == 2 {
                phase_fields(
                    phase_fields(
                        EmbedText {
                            description: Some(
                                decimal(n as int)
                                    + " sets classés par puissance. Suis les phases de haut en bas pour progresser le plus vite vers l'end-game."@,
                            ),
                            footer: Some("Puissance = somme des bonus au nombre de pièces maximal"@),
                            ..bare_embed("🗺️ Roadmap des sets — vers la fin du jeu"@, 0xFF9800)
                        },
                        phase_title(0),
                        split_fields_text(phase_lines(sets@, 0), phase_hint(0)),
                    ),
                    phase_title(1),
                    split_fields_text(phase_lines(sets@, 1), phase_hint(1)),
                )
            } else {
                roadmap_embed_text(sets@)
            }),
        decreases 3 - p,
    {
        let lo: usize = if p == 0 { 0 } else if p == 1 { cut1 } else { cut2 };
        let hi: usize = if p == 0 { cut1 } else if p == 1 { cut2 } else { n };
        assert(phase_bounds(n as int, p as int) == (lo as int, hi as int));
        let ghost spec_lines = phase_lines(sets@, p as int);
        let mut lines: Vec<String> = Vec::new();
        let mut j: usize = lo;
        while j < hi
            invariant
                lo <= j <= hi <= n,
                n == sets@.len(),
                order@ == roadmap_order(sets@),
                order@.len() == n,
                forall|t: int| 0 <= t < order@.len() ==> #[trigger] order@[t] < n,
                phase_bounds(n as int, p as int) == (lo as int, hi as int),
                spec_lines == phase_lines(sets@, p as int),
                views(lines@) == spec_lines.take(j - lo),
            decreases hi - j,
        {
            let mut t = String::from_str("• ");
            let l = set_line(&sets[order[j]]);
            t.append(l.as_str());
            let ghost before = lines@;
            lines.push(t);
            assert(views(lines@) =~= views(before).push(t@));
            j = j + 1;
            assert(views(lines@) =~= spec_lines.take(j - lo));
        }
        assert(spec_lines.take(hi - lo) =~= spec_lines);
        let values = split_fields(&lines, phase_hint_of(p));
        add_phase(&mut e, phase_title_of(p), values);
        p = p + 1;
    }
    Some(e)
}


/// The three phases cut the ranked sets into consecutive parts, in order,
/// that together hold each set once: first and second thirds, then the
/// rest.
pub proof fn lemma_phases_partition(n: int)
    requires
        n >= 0,
    ensures
        phase_bounds(n, 0).0 == 0,
        phase_bounds(n, 0).1 == phase_bounds(n, 1).0,
        phase_bounds(n, 1).1 == phase_bounds(n, 2).0,
        phase_bounds(n, 2).1 == n,
        0 <= phase_bounds(n, 0).1 <= phase_bounds(n, 1).1 <= n,
{
}

/// The phases are the terciles of the ranking: with `n` sets, the first
/// phase lists the first `n / 3` ranked sets, the second those up to rank
/// `2n / 3`, the third the rest, each in ranking order.
pub proof fn lemma_phases_are_terciles(sets: Seq<EquipmentSet>)
    ensures
        ({
            let n = sets.len() as int;
            let order = roadmap_order(sets);
            &&& phase_lines(sets, 0).len() == n / 3
            &&& phase_lines(sets, 1).len() == 2 * n / 3 - n / 3
            &&& phase_lines(sets, 2).len() == n - 2 * n / 3
            &&& forall|i: int| 0 <= i < n / 3 ==> #[trigger] phase_lines(sets, 0)[i] == "• "@ + set_line_text(
                sets[order[i] as int],
            )
            &&& forall|i: int| n / 3 <= i < 2 * n / 3 ==> #[trigger] phase_lines(sets, 1)[i - n / 3] == "• "@
                + set_line_text(sets[order[i] as int])
            &&& forall|i: int| 2 * n / 3 <= i < n ==> #[trigger] phase_lines(sets, 2)[i - 2 * n / 3] == "• "@
                + set_line_text(sets[order[i] as int])
        }),
{
    let n = sets.len() as int;
    assert(0 <= n / 3 <= 2 * n / 3 <= n);
}

/// Fields named after a phase: its title on the first, `(suite)` after.
pub open spec fn titled_fields(title: Seq<char>, values: Seq<Seq<char>>) -> Seq<FieldText> {
    Seq::new(
        values.len(),
        |i: int| field_text(if i == 0 { title } else { title + " (suite)"@ }, values[i], false),
    )
}

proof fn lemma_phase_fields_append(e: EmbedText, title: Seq<char>, values: Seq<Seq<char>>)
    ensures
        phase_fields(e, title, values).fields == e.fields + titled_fields(title, values),
        phase_fields(e, title, values).title == e.title,
        phase_fields(e, title, values).description == e.description,
        phase_fields(e, title, values).footer == e.footer,
        phase_fields(e, title, values).colour == e.colour,
    decreases values.len(),
{
    if values.len() > 0 {
        lemma_phase_fields_append(e, title, values.drop_last());
        assert(e.fields + titled_fields(title, values) =~= (e.fields + titled_fields(title, values.drop_last())).push(
            field_text(if values.len() == 1 { title } else { title + " (suite)"@ }, values.last(), false),
        ));
    } else {
        assert(e.fields + titled_fields(title, values) =~= e.fields);
    }
}

/// The roadmap embed holds, in order, the fields of the first, second and
/// third phases, each phase's lines grouped under Discord's limit with its
/// hint first, the first field of a phase under its title and the next ones
/// under the title and `(suite)`; the description counts the sets.
pub proof fn lemma_roadmap_fields(sets: Seq<EquipmentSet>)
    ensures
        roadmap_embed_text(sets).fields == titled_fields(
            "🟢 Début de jeu"@,
            split_fields_text(phase_lines(sets, 0), "Premiers sets accessibles pour démarrer."@),
        ) + titled_fields("🔵 Milieu de jeu"@, split_fields_text(phase_lines(sets, 1), "Sets intermédiaires pour monter en puissance."@))
            + titled_fields(
            "🟠 Fin de jeu"@,
            split_fields_text(phase_lines(sets, 2), "Les sets les plus puissants — objectif final."@),
        ),
        roadmap_embed_text(sets).description == Some(
            decimal(sets.len() as int)
                + " sets classés par puissance. Suis les phases de haut en bas pour progresser le plus vite vers l'end-game."@,
        ),
{
    let e0 = EmbedText {
        description: Some(
            decimal(sets.len() as int)
                + " sets classés par puissance. Suis les phases de haut en bas pour progresser le plus vite vers l'end-game."@,
        ),
        footer: Some("Puissance = somme des bonus au nombre de pièces maximal"@),
        ..bare_embed("🗺️ Roadmap des sets — vers la fin du jeu"@, 0xFF9800)
    };
    let v0 = split_fields_text(phase_lines(sets, 0), phase_hint(0));
    let v1 = split_fields_text(phase_lines(sets, 1), phase_hint(1));
    let v2 = split_fields_text(phase_lines(sets, 2), phase_hint(2));
    lemma_phase_fields_append(e0, phase_title(0), v0);
    let e1 = phase_fields(e0, phase_title(0), v0);
    lemma_phase_fields_append(e1, phase_title(1), v1);
    let e2 = phase_fields(e1, phase_title(1), v1);
    lemma_phase_fields_append(e2, phase_title(2), v2);
    assert(e0.fields =~= Seq::<FieldText>::empty());
    assert(Seq::<FieldText>::empty() + titled_fields(phase_title(0), v0) =~= titled_fields(phase_title(0), v0));
}

/// The roadmap ranks the sets from weakest to strongest: a set never comes
/// before a weaker one, and sets of equal power come in name order; each
/// set is ranked once.
pub proof fn lemma_roadmap_order(sets: Seq<EquipmentSet>)
    requires
        sets.len() <= usize::MAX,
    ensures
        roadmap_order(sets).len() == sets.len(),
        roadmap_order(sets).to_multiset() == crate::sort::indices(sets.len()).to_multiset(),
        forall|i: int, j: int|
            0 <= i < j < sets.len() ==> {
                let a = #[trigger] roadmap_order(sets)[i] as int;
                let b = #[trigger] roadmap_order(sets)[j] as int;
                &&& power_keys(sets)[a] <= power_keys(sets)[b]
                &&& power_keys(sets)[a] == power_keys(sets)[b] ==> !crate::text::text_lt(
                    sets[b].name@,
                    sets[a].name@,
                )
            },
{
    let keys = power_keys(sets);
    let names = set_names(sets);
    let before = crate::sort::key_text_before(keys, names);
    crate::sort::lemma_key_text_strict(keys, names);
    crate::sort::lemma_stable_sort_sorted(crate::sort::indices(sets.len()), before);
    crate::sort::lemma_stable_sort_permutes(crate::sort::indices(sets.len()), before);
    let r = roadmap_order(sets);
    crate::sort::lemma_permutation_in_range(r, sets.len());
    assert forall|i: int, j: int| 0 <= i < j < sets.len() implies {
        let a = #[trigger] r[i] as int;
        let b = #[trigger] r[j] as int;
        &&& keys[a] <= keys[b]
        &&& keys[a] == keys[b] ==> !crate::text::text_lt(sets[b].name@, sets[a].name@)
    } by {
        assert(!before(r[j], r[i]));
        assert(names[r[i] as int] == sets[r[i] as int].name@);
        assert(names[r[j] as int] == sets[r[j] as int].name@);
    }
}


/// Lines, each after a line break.
pub open spec fn after_breaks(lines: Seq<Seq<char>>) -> Seq<char>
    decreases lines.len(),
{
    if lines.len() == 0 {
        Seq::empty()
    } else {
        after_breaks(lines.drop_last()) + "\n"@ + lines.last()
    }
}

proof fn lemma_join_push_extend(p: Seq<Seq<char>>, x: Seq<char>, y: Seq<char>)
    ensures
        join(p.push(x + "\n"@ + y), "\n"@) == join(p.push(x), "\n"@) + "\n"@ + y,
{
    if p.len() == 0 {
        assert(p.push(x + "\n"@ + y) =~= seq![x + "\n"@ + y]);
        assert(p.push(x) =~= seq![x]);
    } else {
        assert(p.push(x + "\n"@ + y).drop_last() =~= p);
        assert(p.push(x).drop_last() =~= p);
    }
    assert(join(p.push(x + "\n"@ + y), "\n"@) =~= join(p.push(x), "\n"@) + "\n"@ + y);
}

proof fn lemma_pack_lines_keeps_text(lines: Seq<Seq<char>>, hint: Seq<char>)
    requires
        forall|i: int| 0 <= i < lines.len() ==> (#[trigger] lines[i]).len() > 0,
    ensures
        pack_lines(lines, hint).1.len() > 0,
        join(pack_lines(lines, hint).0.push(pack_lines(lines, hint).1), "\n"@) == "*"@ + hint + "*"@
            + after_breaks(lines),
    decreases lines.len(),
{
    reveal_strlit("*");
    reveal_strlit("\n");
    if lines.len() == 0 {
        let c = "*"@ + hint + "*"@;
        assert(Seq::<Seq<char>>::empty().push(c) =~= seq![c]);
        assert(c + Seq::<char>::empty() =~= c);
    } else {
        let prev = lines.drop_last();
        assert forall|i: int| 0 <= i < prev.len() implies (#[trigger] prev[i]).len() > 0 by {
            assert(prev[i] == lines[i]);
        }
        lemma_pack_lines_keeps_text(prev, hint);
        let (f, c) = pack_lines(prev, hint);
        let line = lines.last();
        assert(line == lines[lines.len() - 1]);
        if utf8_len(c) + 1 + utf8_len(line) > FIELD_LIMIT {
            assert(Seq::<char>::empty() + line =~= line);
            assert(f.push(c).push(line).drop_last() =~= f.push(c));
            assert(join(f.push(c).push(line), "\n"@) == join(f.push(c), "\n"@) + "\n"@ + line);
        } else {
            assert(c.push('\n') + line =~= c + "\n"@ + line);
            lemma_join_push_extend(f, c, line);
        }
        assert("*"@ + hint + "*"@ + after_breaks(lines) =~= "*"@ + hint + "*"@ + after_breaks(prev)
            + "\n"@ + line);
    }
}

/// Splitting a phase into fields loses and cuts nothing: the field values,
/// put back together with line breaks, are the hint in italics followed by
/// every line, each after a line break (for non-empty lines).
pub proof fn lemma_split_fields_keeps_lines(lines: Seq<Seq<char>>, hint: Seq<char>)
    requires
        forall|i: int| 0 <= i < lines.len() ==> (#[trigger] lines[i]).len() > 0,
    ensures
        join(split_fields_text(lines, hint), "\n"@) == "*"@ + hint + "*"@ + after_breaks(lines),
{
    lemma_pack_lines_keeps_text(lines, hint);
}

proof fn lemma_pack_lines_sizes(lines: Seq<Seq<char>>, hint: Seq<char>)
    requires
        utf8_len("*"@ + hint + "*"@) <= FIELD_LIMIT,
        forall|i: int| 0 <= i < lines.len() ==> utf8_len(#[trigger] lines[i]) <= FIELD_LIMIT,
    ensures
        utf8_len(pack_lines(lines, hint).1) <= FIELD_LIMIT,
        forall|i: int| 0 <= i < pack_lines(lines, hint).0.len() ==> utf8_len(#[trigger] pack_lines(lines, hint).0[i])
            <= FIELD_LIMIT,
    decreases lines.len(),
{
    if lines.len() > 0 {
        let prev = lines.drop_last();
        assert forall|i: int| 0 <= i < prev.len() implies utf8_len(#[trigger] prev[i]) <= FIELD_LIMIT by {
            assert(prev[i] == lines[i]);
        }
        lemma_pack_lines_sizes(prev, hint);
        let (f, c) = pack_lines(prev, hint);
        let line = lines.last();
        assert(line == lines[lines.len() - 1]);
        if utf8_len(c) + 1 + utf8_len(line) > FIELD_LIMIT {
            assert(Seq::<char>::empty() + line =~= line);
            assert forall|i: int| 0 <= i < f.push(c).len() implies utf8_len(#[trigger] f.push(c)[i]) <= FIELD_LIMIT by {
                if i < f.len() {
                    assert(f.push(c)[i] == f[i]);
                }
            }
        } else {
            crate::text::lemma_utf8_len_push(c, '\n');
            crate::text::lemma_utf8_len_concat(c.push('\n'), line);
            assert(crate::text::char_width('\n') == 1) by {
                assert(('\n' as u32) == 10);
            }
        }
    }
}

/// When the hint fits and no line is longer than the limit, every field
/// value fits in Discord's 1024 bytes.
pub proof fn lemma_split_fields_fit(lines: Seq<Seq<char>>, hint: Seq<char>)
    requires
        utf8_len("*"@ + hint + "*"@) <= FIELD_LIMIT,
        forall|i: int| 0 <= i < lines.len() ==> utf8_len(#[trigger] lines[i]) <= FIELD_LIMIT,
    ensures
        forall|i: int| 0 <= i < split_fields_text(lines, hint).len() ==> utf8_len(
            #[trigger] split_fields_text(lines, hint)[i],
        ) <= FIELD_LIMIT,
{
    lemma_pack_lines_sizes(lines, hint);
    let (f, c) = pack_lines(lines, hint);
    assert forall|i: int| 0 <= i < split_fields_text(lines, hint).len() implies utf8_len(
        #[trigger] split_fields_text(lines, hint)[i],
    ) <= FIELD_LIMIT by {
        if c.len() > 0 && i < f.len() {
            assert(f.push(c)[i] == f[i]);
        }
    }
}

} // verus!
