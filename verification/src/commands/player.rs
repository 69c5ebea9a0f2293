//! `/player`: the Minebox profile of a player (level, jobs, stats,
//! companions).

use vstd::prelude::*;
use crate::api::{Player, Skill};
use crate::embed::{bare_embed, field_text, with_field, Embed, EmbedText};
use crate::jobs::{
    entry_xp, find_skill, has_curve, job_label, job_level, label_of, level_fits, level_of,
    object_at, rank_jobs, ranked_jobs, skill_for, skills_data, xp_of,
};
use crate::json::{fmt_value, value_get, value_text, JsonValue};
use crate::text::{decimal, grouped_decimal, join, join_strings, push_decimal, push_grouped_decimal, push_unsigned, views};
use crate::util::{discord_relative, prettified, prettify_id, rarity_rgb, relative_tag_text, rfc3339_unix_seconds, Rarity};

verus! {

/// The default embed colour (no rarity).
pub open spec fn plain_colour() -> u32 {
    rarity_rgb(Rarity::Unknown)
}

/// At most the first `n` elements.
pub open spec fn first_n<A>(s: Seq<A>, n: nat) -> Seq<A> {
    if s.len() <= n { s } else { s.take(n as int) }
}

/// Division by 60 rounded toward zero, as `i64` division does.
pub open spec fn div60(n: int) -> int {
    if n >= 0 { n / 60 } else { -((-n) / 60) }
}

/// Reply when the API knows no such player.
pub open spec fn player_not_found_text(name: Seq<char>) -> Seq<char> {
    "Aucun joueur Minebox trouvé pour « "@ + name + " »."@
}

/// The reply when no player answers to `name`.
pub fn player_not_found(name: &str) -> (s: String)
    ensures
        s@ == player_not_found_text(name@),
{
    let mut s = String::from_str("Aucun joueur Minebox trouvé pour « ");
    s.append(name);
    s.append(" ».");
    s
}

/// The line of a job: its name, level when its curve is known, and XP.
pub open spec fn job_line(skills: Seq<Skill>, e: (String, JsonValue)) -> Seq<char> {
    let skill = skill_for(skills, e.0@);
    let label = job_label(skill, e.0@);
    let xp = entry_xp(e);
    if has_curve(skill) {
        "**"@ + label + "** — Niv. "@ + decimal(job_level(skill, xp)) + " · "@ + grouped_decimal(xp as int) + " XP"@
    } else {
        "**"@ + label + "** — "@ + grouped_decimal(xp as int) + " XP"@
    }
}

/// The indices of the ten jobs shown, by decreasing XP.
pub open spec fn shown_jobs(es: Seq<(String, JsonValue)>) -> Seq<usize> {
    first_n(ranked_jobs(es), 10)
}

/// The lines of the jobs shown.
pub open spec fn job_lines(skills: Seq<Skill>, es: Seq<(String, JsonValue)>) -> Seq<Seq<char>> {
    let shown = shown_jobs(es);
    Seq::new(shown.len(), |i: int| job_line(skills, es[shown[i] as int]))
}

/// Computing the levels of the jobs shown stays within `i64`.
pub open spec fn job_levels_fit(skills: Seq<Skill>, data: JsonValue) -> bool {
    match skills_data(data) {
        Some(es) => forall|i: int| 0 <= i < shown_jobs(es).len() ==> level_fits(
            skill_for(skills, es[#[trigger] shown_jobs(es)[i] as int].0@),
            entry_xp(es[shown_jobs(es)[i] as int]),
        ),
        None => true,
    }
}

/// The entries `ATTRIBUTED_STATS.base` of a player's data, when an object.
pub open spec fn base_stats(data: JsonValue) -> Option<Seq<(String, JsonValue)>> {
    match value_get(data, "ATTRIBUTED_STATS"@) {
        Some(s) => match value_get(s, "base"@) {
            Some(JsonValue::Object(o)) => Some(o@),
            _ => None,
        },
        None => None,
    }
}

/// The text of a stat: its prettified name and its value.
pub open spec fn stat_text(e: (String, JsonValue)) -> Seq<char> {
    prettified(e.0@) + " "@ + value_text(e.1)
}

/// The texts of the stats whose value is not 0 (a value that is not an
/// integer counts as 0).
pub open spec fn stat_lines(es: Seq<(String, JsonValue)>) -> Seq<Seq<char>> {
    es.filter(|e: (String, JsonValue)| entry_xp(e) != 0).map_values(|e: (String, JsonValue)| stat_text(e))
}

/// The number of entries of an object under `key` (0 if absent or not an
/// object).
pub open spec fn object_size(c: JsonValue, key: Seq<char>) -> nat {
    match value_get(c, key) {
        Some(JsonValue::Object(o)) => o@.len(),
        _ => 0,
    }
}

/// The active mount: its prettified identifier when a non-empty string,
/// else `aucune`.
pub open spec fn active_mount(c: JsonValue) -> Seq<char> {
    match value_get(c, "active_mount"@) {
        Some(JsonValue::Str(s)) => if s@.len() > 0 { prettified(s@) } else { "aucune"@ },
        _ => "aucune"@,
    }
}

/// The companions text: active mount, numbers of mounts and pets.
pub open spec fn companions_text(c: JsonValue) -> Seq<char> {
    "Monture active : **"@ + active_mount(c) + "**\n🐎 "@ + decimal(object_size(c, "mounts"@) as int)
        + " monture(s) · 🐾 "@ + decimal(object_size(c, "pets"@) as int) + " familier(s)"@
}

/// A field with a relative date, when the date parses.
pub open spec fn date_field(e: EmbedText, name: Seq<char>, date: Option<String>) -> EmbedText {
    match date {
        Some(d) => match rfc3339_unix_seconds(d@) {
            Some(t) => with_field(e, field_text(name, relative_tag_text(t as int), true)),
            None => e,
        },
        None => e,
    }
}

/// A field whose value joins lines, when there is at least one line.
pub open spec fn lines_field(e: EmbedText, name: Seq<char>, lines: Seq<Seq<char>>, sep: Seq<char>) -> EmbedText {
    if lines.len() > 0 {
        with_field(e, field_text(name, join(lines, sep), false))
    } else {
        e
    }
}

/// The profile embed of a player.
pub open spec fn player_embed_text(p: Player, skills: Seq<Skill>) -> EmbedText {
    let e0 = EmbedText {
        thumbnail: Some("https://mc-heads.net/avatar/"@ + p.id@ + "/128.png"@),
        ..bare_embed("👤 "@ + p.username@, plain_colour())
    };
    let e1 = with_field(e0, field_text("Niveau"@, decimal(p.level as int), true));
    let e2 = with_field(
        e1,
        field_text("Temps de jeu"@, "~"@ + grouped_decimal(div60(p.playtime as int)) + " h"@, true),
    );
    let e3 = date_field(e2, "Vu"@, p.last_connection);
    let e4 = date_field(e3, "Inscrit"@, p.first_connection);
    let e5 = match skills_data(p.data) {
        Some(es) => lines_field(e4, "Métiers"@, job_lines(skills, es), "\n"@),
        None => e4,
    };
    let e6 = match base_stats(p.data) {
        Some(es) => lines_field(e5, "Stats"@, stat_lines(es), " · "@),
        None => e5,
    };
    let e7 = match value_get(p.data, "COMPANIONS"@) {
        Some(c) => if c is Object {
            with_field(e6, field_text("Compagnons"@, companions_text(c), false))
        } else {
            e6
        },
        None => e6,
    };
    EmbedText { footer: Some("UUID : "@ + p.id@), ..e7 }
}

fn add_date_field(e: &mut Embed, name: &str, date: &Option<String>)
    ensures
        final(e)@ == date_field(old(e)@, name@, *date),
{
    match date {
        Some(d) => match discord_relative(d.as_str()) {
            Some(t) => e.add_field(String::from_str(name), t, true),
            None => {},
        },
        None => {},
    }
}

fn job_line_of(skills: &Vec<Skill>, entry: &(String, JsonValue)) -> (s: String)
    requires
        level_fits(skill_for(skills@, entry.0@), entry_xp(*entry)),
    ensures
        s@ == job_line(skills@, *entry),
{
    let skill = find_skill(skills, entry.0.as_str());
    let label = label_of(skill, entry.0.as_str());
    let xp = xp_of(entry);
    let mut s = String::from_str("**");
    s.append(label.as_str());
    match skill {
        Some(k) => {
            if k.experience_per_level.len() > 0 {
                let lvl = level_of(k, xp);
                s.append("** — Niv. ");
                push_decimal(&mut s, lvl);
                s.append(" · ");
            } else {
                s.append("** — ");
            }
        },
        None => {
            s.append("** — ");
        },
    }
    push_grouped_decimal(&mut s, xp);
    s.append(" XP");
    s
}

fn job_lines_of(skills: &Vec<Skill>, es: &Vec<(String, JsonValue)>) -> (r: Vec<String>)
    requires
        forall|i: int| 0 <= i < shown_jobs(es@).len() ==> level_fits(
            skill_for(skills@, es@[#[trigger] shown_jobs(es@)[i] as int].0@),
            entry_xp(es@[shown_jobs(es@)[i] as int]),
        ),
    ensures
        views(r@) == job_lines(skills@, es@),
{
    let order = rank_jobs(es);
    let n: usize = if order.len() <= 10 { order.len() } else { 10 };
    let ghost shown = shown_jobs(es@);
    assert(shown =~= order@.take(n as int));
    let mut lines: Vec<String> = Vec::new();
    let mut i: usize = 0;
    while i < n
        invariant
            i <= n <= order@.len(),
            shown == order@.take(n as int),
            shown == shown_jobs(es@),
            order@.len() == es@.len(),
            forall|j: int| 0 <= j < order@.len() ==> #[trigger] order@[j] < es@.len(),
            forall|j: int| 0 <= j < shown.len() ==> level_fits(
                skill_for(skills@, es@[#[trigger] shown[j] as int].0@),
                entry_xp(es@[shown[j] as int]),
            ),
            views(lines@) == job_lines(skills@, es@).take(i as int),
        decreases n - i,
    {
        let k = order[i];
        assert(shown[i as int] == k);
        let line = job_line_of(skills, &es[k]);
        let ghost before = lines@;
        assert(job_lines(skills@, es@)[i as int] == job_line(skills@, es@[k as int]));
        lines.push(line);
        assert(views(lines@) =~= views(before).push(line@));
        i = i + 1;
        assert(job_lines(skills@, es@).take(i as int) =~= job_lines(skills@, es@).take(i - 1).push(
            line@,
        ));
        assert(views(lines@) =~= job_lines(skills@, es@).take(i as int));
    }
    assert(job_lines(skills@, es@).take(n as int) =~= job_lines(skills@, es@));
    lines
}

fn stat_lines_of(es: &Vec<(String, JsonValue)>) -> (r: Vec<String>)
    ensures
        views(r@) == stat_lines(es@),
{
    let ghost pred = |e: (String, JsonValue)| entry_xp(e) != 0;
    let ghost f = |e: (String, JsonValue)| stat_text(e);
    let mut lines: Vec<String> = Vec::new();
    let mut i: usize = 0;
    proof {
        reveal_with_fuel(Seq::filter, 1);
        assert(es@.take(0).filter(pred) =~= Seq::<(String, JsonValue)>::empty());
    }
    while i < es.len()
        invariant
            i <= es@.len(),
            pred == (|e: (String, JsonValue)| entry_xp(e) != 0),
            f == (|e: (String, JsonValue)| stat_text(e)),
            views(lines@) == es@.take(i as int).filter(pred).map_values(f),
        decreases es.len() - i,
    {
        proof {
            broadcast use Seq::lemma_filter_push;
        }
        let ghost prev = es@.take(i as int);
        assert(es@.take(i + 1) =~= prev.push(es@[i as int]));
        if xp_of(&es[i]) != 0 {
            let mut t = prettify_id(es[i].0.as_str());
            t.append(" ");
            let v = fmt_value(&es[i].1);
            t.append(v.as_str());
            let ghost ls = lines@;
            lines.push(t);
            assert(views(lines@) =~= views(ls).push(t@));
            assert(prev.push(es@[i as int]).filter(pred) == prev.filter(pred).push(es@[i as int]));
            assert(prev.filter(pred).push(es@[i as int]).map_values(f) =~= prev.filter(pred).map_values(
                f,
            ).push(f(es@[i as int])));
        } else {
            assert(prev.push(es@[i as int]).filter(pred) == prev.filter(pred));
        }
        i = i + 1;
    }
    assert(es@.take(es.len() as int) =~= es@);
    lines
}

fn object_len(c: &JsonValue, key: &str) -> (n: usize)
    ensures
        n == object_size(*c, key@),
{
    match c.get(key) {
        Some(x) => match x.as_object() {
            Some(o) => o.len(),
            None => 0,
        },
        None => 0,
    }
}

fn companions_of(c: &JsonValue) -> (s: String)
    ensures
        s@ == companions_text(*c),
{
    let mount = match c.get("active_mount") {
        Some(x) => match x.as_str() {
            Some(t) => if t.unicode_len() > 0 { prettify_id(t) } else { String::from_str("aucune") },
            None => String::from_str("aucune"),
        },
        None => String::from_str("aucune"),
    };
    assert(mount@ == active_mount(*c));
    let mut s = String::from_str("Monture active : **");
    s.append(mount.as_str());
    s.append("**\n🐎 ");
    push_unsigned(&mut s, object_len(c, "mounts") as u64);
    s.append(" monture(s) · 🐾 ");
    push_unsigned(&mut s, object_len(c, "pets") as u64);
    s.append(" familier(s)");
    s
}

/// Builds the profile embed of a player: level, play time, last and first
/// connection, the ten jobs with most XP, the non-zero base stats and the
/// companions.
pub fn player_embed(p: &Player, skills: &Vec<Skill>) -> (e: Embed)
    requires
        job_levels_fit(skills@, p.data),
    ensures
        e@ == player_embed_text(*p, skills@),
{
    let mut title = String::from_str("👤 ");
    title.append(p.username.as_str());
    let mut e = Embed::new(title, 0x5865F2);
    let mut thumb = String::from_str("https://mc-heads.net/avatar/");
    thumb.append(p.id.as_str());
    thumb.append("/128.png");
    e.set_thumbnail(thumb);
    e.add_field(String::from_str("Niveau"), crate::text::decimal_string(p.level), true);
    let hours = p.playtime / 60;
    assert(hours == div60(p.playtime as int));
    let mut played = String::from_str("~");
    push_grouped_decimal(&mut played, hours);
    played.append(" h");
    e.add_field(String::from_str("Temps de jeu"), played, true);
    add_date_field(&mut e, "Vu", &p.last_connection);
    add_date_field(&mut e, "Inscrit", &p.first_connection);
    match object_at(&p.data, "SKILLS", "data") {
        Some(es) => {
            let lines = job_lines_of(skills, es);
            if lines.len() > 0 {
                e.add_field(String::from_str("Métiers"), join_strings(&lines, "\n"), false);
            }
        },
        None => {},
    }
    match object_at(&p.data, "ATTRIBUTED_STATS", "base") {
        Some(es) => {
            let lines = stat_lines_of(es);
            if lines.len() > 0 {
                e.add_field(String::from_str("Stats"), join_strings(&lines, " · "), false);
            }
        },
        None => {},
    }
    match p.data.get("COMPANIONS") {
        Some(c) => {
            if c.as_object().is_some() {
                e.add_field(String::from_str("Compagnons"), companions_of(c), false);
            }
        },
        None => {},
    }
    let mut footer = String::from_str("UUID : ");
    footer.append(p.id.as_str());
    e.set_footer(footer);
    e
}


/// Whether the levels of the jobs that a profile shows can be computed: the
/// test made before building the profile.
pub fn job_levels_fit_check(skills: &Vec<Skill>, data: &JsonValue) -> (r: bool)
    ensures
        r == job_levels_fit(skills@, *data),
{
    match object_at(data, "SKILLS", "data") {
        Some(es) => crate::jobs::ranked_levels_fit_check(skills, es, 10),
        None => true,
    }
}

} // verus!
