//! The live dashboard: a message in a channel, refreshed every minute with
//! the stats of a list of players, and the bot's status showing who is
//! online in a guild.

use vstd::prelude::*;
use crate::api::{online_members, Guild, Player, Skill};
use crate::commands::player::{div60, first_n, plain_colour};
use crate::embed::{bare_embed, field_text, Embed, EmbedField, EmbedText, FieldText};
use crate::jobs::{
    entry_xp, find_skill, has_curve, job_label, job_level, label_of, level_fits, level_of,
    object_at, rank_jobs, ranked_jobs, skill_for, skills_data, xp_of,
};
use crate::json::JsonValue;
use crate::text::{decimal, grouped_decimal, join, join_strings, push_decimal, push_grouped_decimal, push_unsigned, str_eq, views};
use crate::util::{discord_relative, relative_tag_text, rfc3339_unix_seconds};

verus! {

/// Title by which the dashboard message is recognised.
pub const TITLE: &'static str = "📊 Stats Minebox — Live";

/// Number of jobs shown per player.
pub const TOP_JOBS: usize = 3;

/// Players followed by default.
pub open spec fn default_player_names() -> Seq<Seq<char>> {
    seq!["MasteRX_"@, "Nasara__"@, "Finkeleb"@, "Ayzziixx"@, "Doriko79"@, "Nathan201204"@]
}

/// Players followed by default (when `STATS_PLAYERS` is not set).
pub fn default_players() -> (r: Vec<String>)
    ensures
        views(r@) == default_player_names(),
{
    let r = vec![
        String::from_str("MasteRX_"),
        String::from_str("Nasara__"),
        String::from_str("Finkeleb"),
        String::from_str("Ayzziixx"),
        String::from_str("Doriko79"),
        String::from_str("Nathan201204"),
    ];
    assert(views(r@) =~= default_player_names());
    r
}

/// The status text of the bot: how many members of the guild are online,
/// or that the guild could not be read.
pub open spec fn presence_text(guild: Option<Guild>, guild_name: Seq<char>) -> Seq<char> {
    match guild {
        Some(g) => "🟢 "@ + decimal(online_members(g.members@) as int) + " connecté(s) dans "@ + g.name@,
        None => "Guilde "@ + guild_name + " indisponible"@,
    }
}

/// Builds the bot's status text from the guild that the API returned.
pub fn presence(guild: Option<&Guild>, guild_name: &str) -> (s: String)
    ensures
        s@ == presence_text(match guild { Some(g) => Some(*g), None => None }, guild_name@),
{
    match guild {
        Some(g) => {
            let mut s = String::from_str("🟢 ");
            push_unsigned(&mut s, g.online_count() as u64);
            s.append(" connecté(s) dans ");
            s.append(g.name.as_str());
            s
        },
        None => {
            let mut s = String::from_str("Guilde ");
            s.append(guild_name);
            s.append(" indisponible");
            s
        },
    }
}

/// Whether a message is the dashboard: posted by the bot, its first embed
/// titled as the dashboard.
pub fn is_dashboard_message(author: u64, bot: u64, first_title: Option<&str>) -> (r: bool)
    ensures
        r == (author == bot && first_title is Some && first_title->0@ == TITLE@),
{
    author == bot && match first_title {
        Some(t) => str_eq(t, TITLE),
        None => false,
    }
}

/// The label of a job on the dashboard: name and level in code style.
pub open spec fn top_job_label(skills: Seq<Skill>, e: (String, JsonValue)) -> Seq<char> {
    let skill = skill_for(skills, e.0@);
    let label = job_label(skill, e.0@);
    if has_curve(skill) {
        "`"@ + label + " "@ + decimal(job_level(skill, entry_xp(e))) + "`"@
    } else {
        "`"@ + label + "`"@
    }
}

/// The indices of the jobs on the dashboard: the three with most XP.
pub open spec fn top_job_indices(es: Seq<(String, JsonValue)>) -> Seq<usize> {
    first_n(ranked_jobs(es), TOP_JOBS as nat)
}

/// The dashboard text of a player's best jobs.
pub open spec fn top_jobs_text(skills: Seq<Skill>, data: JsonValue) -> Seq<char> {
    match skills_data(data) {
        Some(es) => {
            let shown = top_job_indices(es);
            join(Seq::new(shown.len(), |i: int| top_job_label(skills, es[shown[i] as int])), " "@)
        },
        None => Seq::empty(),
    }
}

/// Computing the levels of the dashboard jobs stays within `i64`.
pub open spec fn top_levels_fit(skills: Seq<Skill>, data: JsonValue) -> bool {
    match skills_data(data) {
        Some(es) => forall|i: int| 0 <= i < top_job_indices(es).len() ==> level_fits(
            skill_for(skills, es[#[trigger] top_job_indices(es)[i] as int].0@),
            entry_xp(es[top_job_indices(es)[i] as int]),
        ),
        None => true,
    }
}

fn top_job_label_of(skills: &Vec<Skill>, e: &(String, JsonValue)) -> (s: String)
    requires
        level_fits(skill_for(skills@, e.0@), entry_xp(*e)),
    ensures
        s@ == top_job_label(skills@, *e),
{
    let skill = find_skill(skills, e.0.as_str());
    let label = label_of(skill, e.0.as_str());
    let mut s = String::from_str("`");
    s.append(label.as_str());
    match skill {
        Some(k) => {
            if k.experience_per_level.len() > 0 {
                s.append(" ");
                push_decimal(&mut s, level_of(k, xp_of(e)));
            }
        },
        None => {},
    }
    s.append("`");
    s
}

/// The three jobs of a player with most XP, with their computed level.
pub fn top_jobs(p: &Player, skills: &Vec<Skill>) -> (s: String)
    requires
        top_levels_fit(skills@, p.data),
    ensures
        s@ == top_jobs_text(skills@, p.data),
{
    match object_at(&p.data, "SKILLS", "data") {
        Some(es) => {
            let order = rank_jobs(es);
            let n: usize = if order.len() <= TOP_JOBS { order.len() } else { TOP_JOBS };
            let ghost shown = top_job_indices(es@);
            let ghost labels = Seq::new(shown.len(), |i: int| top_job_label(skills@, es@[shown[i] as int]));
            assert(shown =~= order@.take(n as int));
            let mut parts: Vec<String> = Vec::new();
            let mut j: usize = 0;
            while j < n
                invariant
                    j <= n <= order@.len(),
                    order@.len() == es@.len(),
                    shown == order@.take(n as int),
                    shown == top_job_indices(es@),
                    labels == Seq::new(shown.len(), |i: int| top_job_label(skills@, es@[shown[i] as int])),
                    forall|t: int| 0 <= t < order@.len() ==> #[trigger] order@[t] < es@.len(),
                    forall|i: int| 0 <= i < shown.len() ==> level_fits(
                        skill_for(skills@, es@[#[trigger] shown[i] as int].0@),
                        entry_xp(es@[shown[i] as int]),
                    ),
                    views(parts@) == labels.take(j as int),
                decreases n - j,
            {
                let k = order[j];
                assert(shown[j as int] == k);
                let t = top_job_label_of(skills, &es[k]);
                let ghost before = parts@;
                parts.push(t);
                assert(views(parts@) =~= views(before).push(t@));
                j = j + 1;
                assert(views(parts@) =~= labels.take(j as int));
            }
            assert(labels.take(n as int) =~= labels);
            join_strings(&parts, " ")
        },
        None => String::new(),
    }
}

/// The dashboard line telling whether a player is online or when it was
/// last seen.
pub open spec fn seen_line(p: Player) -> Seq<char> {
    if p.online {
        "🎮 *En ligne*\n"@
    } else {
        match p.last_connection {
            Some(d) => match rfc3339_unix_seconds(d@) {
                Some(t) => "Vu "@ + relative_tag_text(t as int) + "\n"@,
                None => Seq::empty(),
            },
            None => Seq::empty(),
        }
    }
}

/// The dashboard field of a player, or of a name the API does not know.
pub open spec fn dashboard_field_text(name: Seq<char>, player: Option<Player>, skills: Seq<Skill>) -> FieldText {
    match player {
        Some(p) => field_text(
            (if p.online { "🟢"@ } else { "⚫"@ }) + " "@ + p.username@,
            "Niveau **"@ + decimal(p.level as int) + "** · ~"@ + grouped_decimal(div60(p.playtime as int))
                + " h\n"@ + seen_line(p) + top_jobs_text(skills, p.data),
            true,
        ),
        None => field_text("⚫ "@ + name, "*Introuvable*"@, true),
    }
}

/// Builds the dashboard field of a player (`None` when the API did not
/// return it).
pub fn dashboard_field(name: &str, player: Option<&Player>, skills: &Vec<Skill>) -> (f: EmbedField)
    requires
        player matches Some(p) ==> top_levels_fit(skills@, p.data),
    ensures
        f@ == dashboard_field_text(name@, match player { Some(p) => Some(*p), None => None }, skills@),
{
    match player {
        Some(p) => {
            let mut title = if p.online { String::from_str("🟢") } else { String::from_str("⚫") };
            title.append(" ");
            title.append(p.username.as_str());
            let mut value = String::from_str("Niveau **");
            push_decimal(&mut value, p.level);
            value.append("** · ~");
            let hours = p.playtime / 60;
            assert(hours == div60(p.playtime as int));
            push_grouped_decimal(&mut value, hours);
            value.append(" h\n");
            if p.online {
                value.append("🎮 *En ligne*\n");
            } else {
                match &p.last_connection {
                    Some(d) => match discord_relative(d.as_str()) {
                        Some(seen) => {
                            value.append("Vu ");
                            value.append(seen.as_str());
                            value.append("\n");
                        },
                        None => {},
                    },
                    None => {},
                }
            }
            let jobs = top_jobs(p, skills);
            if !jobs.as_str().is_empty() {
                value.append(jobs.as_str());
            }
            assert(value@ =~= "Niveau **"@ + decimal(p.level as int) + "** · ~"@ + grouped_decimal(
                div60(p.playtime as int),
            ) + " h\n"@ + seen_line(*p) + top_jobs_text(skills@, p.data));
            EmbedField { name: title, value, inline: true }
        },
        None => {
            let mut title = String::from_str("⚫ ");
            title.append(name);
            EmbedField { name: title, value: String::from_str("*Introuvable*"), inline: true }
        },
    }
}

/// The dashboard field of a known player: its title is the online dot and
/// the user name; its value is the level and play time in hours, then, for a
/// player online, « En ligne », and for a player offline, « Vu » with the
/// relative time of its last connection when that date reads as RFC 3339
/// (nothing when it is missing or does not read), then its best jobs.
pub proof fn lemma_dashboard_field_of_player(name: Seq<char>, p: Player, skills: Seq<Skill>)
    ensures
        ({
            let f = dashboard_field_text(name, Some(p), skills);
            let head = "Niveau **"@ + decimal(p.level as int) + "** · ~"@ + grouped_decimal(div60(p.playtime as int))
                + " h\n"@;
            let jobs = top_jobs_text(skills, p.data);
            &&& f.name == (if p.online { "🟢"@ } else { "⚫"@ }) + " "@ + p.username@
            &&& f.inline
            &&& p.online ==> f.value == head + "🎮 *En ligne*\n"@ + jobs
            &&& (!p.online && p.last_connection is Some && rfc3339_unix_seconds(p.last_connection->0@) is Some)
                ==> f.value == head + "Vu "@ + relative_tag_text(rfc3339_unix_seconds(p.last_connection->0@)->0 as int)
                + "\n"@ + jobs
            &&& (!p.online && (p.last_connection is None || rfc3339_unix_seconds(p.last_connection->0@) is None))
                ==> f.value == head + jobs
        }),
{
    let head = "Niveau **"@ + decimal(p.level as int) + "** · ~"@ + grouped_decimal(div60(p.playtime as int)) + " h\n"@;
    assert(head + Seq::<char>::empty() =~= head);
}

/// The dashboard field of a name the API does not know.
pub proof fn lemma_dashboard_field_unknown(name: Seq<char>, skills: Seq<Skill>)
    ensures
        dashboard_field_text(name, None, skills).name == "⚫ "@ + name,
        dashboard_field_text(name, None, skills).value == "*Introuvable*"@,
{
}

/// The dashboard embed before its player fields.
pub open spec fn dashboard_base_text() -> EmbedText {
    EmbedText {
        footer: Some("Mise à jour automatique toutes les minutes"@),
        ..bare_embed(TITLE@, plain_colour())
    }
}

/// The dashboard embed before its player fields (the time is set when it
/// is sent).
pub fn dashboard_base() -> (e: Embed)
    ensures
        e@ == dashboard_base_text(),
{
    let mut e = Embed::new(String::from_str(TITLE), 0x5865F2);
    e.set_footer(String::from_str("Mise à jour automatique toutes les minutes"));
    e
}


/// The next thing to do with the dashboard message during a refresh.
pub enum PublishAction {
    /// Edit the message with this id.
    Edit(u64),
    /// Send a new message.
    Send,
    /// The refresh is over; the message to edit next time, if any.
    Done(Option<u64>),
}

/// What came of the last action.
pub enum PublishEvent {
    /// The message was edited.
    Edited,
    /// The edit failed (the message was deleted meanwhile).
    EditFailed,
    /// A new message was sent, with its id, or sending failed.
    Sent(Option<u64>),
}

/// The first action of a refresh: edit the known message, else send one.
pub fn publish_start(current: Option<u64>) -> (a: PublishAction)
    ensures
        current matches Some(id) ==> (a matches PublishAction::Edit(x) && x == id),
        current is None ==> a is Send,
{
    match current {
        Some(id) => PublishAction::Edit(id),
        None => PublishAction::Send,
    }
}

/// The next action after an event: an edited message is kept, a failed
/// edit leads to a new message, and a sent message (or none, when sending
/// failed) is the one to edit next time.
pub fn publish_next(current: Option<u64>, event: PublishEvent) -> (a: PublishAction)
    ensures
        event is Edited ==> (a matches PublishAction::Done(m) && m == current),
        event is EditFailed ==> a is Send,
        event matches PublishEvent::Sent(r) ==> (a matches PublishAction::Done(m) && m == r),
{
    match event {
        PublishEvent::Edited => PublishAction::Done(current),
        PublishEvent::EditFailed => PublishAction::Send,
        PublishEvent::Sent(r) => PublishAction::Done(r),
    }
}


/// Whether the levels of the jobs on a dashboard field can be computed: the
/// test made before building the field.
pub fn top_levels_fit_check(skills: &Vec<Skill>, data: &JsonValue) -> (r: bool)
    ensures
        r == top_levels_fit(skills@, *data),
{
    match object_at(data, "SKILLS", "data") {
        Some(es) => crate::jobs::ranked_levels_fit_check(skills, es, TOP_JOBS),
        None => true,
    }
}

} // verus!
