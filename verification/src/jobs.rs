//! Jobs (skills) of a player: the XP per job found in the player's data, the
//! job's curve in the skill book, and the ranking by XP.

use vstd::prelude::*;
use crate::api::Skill;
use crate::json::{JsonValue, value_get, value_i64};
use crate::sort::{sorted_by_key, sort_indices_by_key};
use crate::text::{ascii_lowercase, lower_ascii, str_eq};
use crate::util::{level_at, prettified, prettify_id, progress_fits, progress_fits_check, skill_level};

verus! {

/// The skill that the bot's index gives for a job name: the skills are
/// keyed by their lower-cased identifier, a later skill replacing an earlier
/// one with the same key, and the job is looked up lower-cased.
pub open spec fn skill_for(skills: Seq<Skill>, job: Seq<char>) -> Option<Skill>
    decreases skills.len(),
{
    if skills.len() == 0 {
        None
    } else if lower_ascii(skills.last().id@) == lower_ascii(job) {
        Some(skills.last())
    } else {
        skill_for(skills.drop_last(), job)
    }
}

/// Looks up the skill of a job, as the bot's skill index does.
pub fn find_skill<'a>(skills: &'a Vec<Skill>, job: &str) -> (r: Option<&'a Skill>)
    ensures
        match skill_for(skills@, job@) {
            Some(s) => r is Some && *r->0 == s,
            None => r is None,
        },
{
    let key = ascii_lowercase(job);
    let mut i: usize = skills.len();
    assert(skills@.take(i as int) =~= skills@);
    while i > 0
        invariant
            i <= skills@.len(),
            key@ == lower_ascii(job@),
            skill_for(skills@, job@) == skill_for(skills@.take(i as int), job@),
        decreases i,
    {
        let ghost t = skills@.take(i as int);
        assert(t.drop_last() =~= skills@.take(i - 1));
        let id = ascii_lowercase(skills[i - 1].id.as_str());
        if str_eq(id.as_str(), key.as_str()) {
            return Some(&skills[i - 1]);
        }
        i = i - 1;
    }
    None
}

/// The entries `SKILLS.data` of a player's data (job name to XP), when
/// that is an object.
pub open spec fn skills_data(data: JsonValue) -> Option<Seq<(String, JsonValue)>> {
    match value_get(data, "SKILLS"@) {
        Some(s) => match value_get(s, "data"@) {
            Some(JsonValue::Object(o)) => Some(o@),
            _ => None,
        },
        None => None,
    }
}

/// The object under a path of two keys (a JSON pointer `/a/b`).
pub fn object_at<'a>(data: &'a JsonValue, a: &str, b: &str) -> (r: Option<&'a Vec<(String, JsonValue)>>)
    ensures
        match value_get(*data, a@) {
            Some(x) => match value_get(x, b@) {
                Some(JsonValue::Object(o)) => r is Some && *r->0 == o,
                _ => r is None,
            },
            None => r is None,
        },
{
    match data.get(a) {
        Some(x) => match x.get(b) {
            Some(y) => y.as_object(),
            None => None,
        },
        None => None,
    }
}

/// The XP of a job entry: its value when an `i64`, else 0.
pub open spec fn entry_xp(e: (String, JsonValue)) -> i64 {
    match value_i64(e.1) {
        Some(x) => x,
        None => 0,
    }
}

/// Sort keys that order job entries by decreasing XP.
pub open spec fn xp_desc_keys(es: Seq<(String, JsonValue)>) -> Seq<i128> {
    Seq::new(es.len(), |i: int| -(entry_xp(es[i]) as i128) as i128)
}

/// The indices of job entries by decreasing XP, equal XP keeping the entry
/// order (a stable sort).
pub open spec fn ranked_jobs(es: Seq<(String, JsonValue)>) -> Seq<usize> {
    sorted_by_key(xp_desc_keys(es))
}

/// The XP of a job entry.
pub fn xp_of(e: &(String, JsonValue)) -> (x: i64)
    ensures
        x == entry_xp(*e),
{
    match e.1.as_i64() {
        Some(x) => x,
        None => 0,
    }
}

/// Ranks job entries by decreasing XP (stable).
pub fn rank_jobs(es: &Vec<(String, JsonValue)>) -> (r: Vec<usize>)
    ensures
        r@ == ranked_jobs(es@),
        r@.len() == es@.len(),
        forall|i: int| 0 <= i < r@.len() ==> #[trigger] r@[i] < es@.len(),
{
    let mut keys: Vec<i128> = Vec::new();
    let mut i: usize = 0;
    while i < es.len()
        invariant
            i <= es@.len(),
            keys@ == xp_desc_keys(es@).take(i as int),
        decreases es.len() - i,
    {
        let x = xp_of(&es[i]);
        keys.push(-(x as i128));
        i = i + 1;
        assert(keys@ =~= xp_desc_keys(es@).take(i as int));
    }
    assert(xp_desc_keys(es@).take(es.len() as int) =~= xp_desc_keys(es@));
    sort_indices_by_key(&keys)
}

/// The name shown for a job: the skill's name, else the prettified job key.
pub open spec fn job_label(skill: Option<Skill>, job: Seq<char>) -> Seq<char> {
    match skill {
        Some(s) => s.name@,
        None => prettified(job),
    }
}

/// Builds the name shown for a job.
pub fn label_of(skill: Option<&Skill>, job: &str) -> (s: String)
    ensures
        s@ == job_label(match skill { Some(k) => Some(*k), None => None }, job@),
{
    match skill {
        Some(k) => k.name.clone(),
        None => prettify_id(job),
    }
}

/// The level of a job is computed (its skill is known and has a curve).
pub open spec fn has_curve(skill: Option<Skill>) -> bool {
    skill matches Some(s) && s.experience_per_level@.len() > 0
}

/// Computing a job's level stays within `i64` (when it is computed).
pub open spec fn level_fits(skill: Option<Skill>, xp: i64) -> bool {
    has_curve(skill) ==> progress_fits(xp as int, skill->0.experience_per_level@)
        && skill->0.experience_per_level@.len() < i64::MAX
}

/// The level shown for a job with a curve.
pub open spec fn job_level(skill: Option<Skill>, xp: i64) -> int {
    level_at(xp as int, skill->0.experience_per_level@)
}

/// The level of a job on its skill's curve.
pub fn level_of(skill: &Skill, xp: i64) -> (l: i64)
    requires
        level_fits(Some(*skill), xp),
        skill.experience_per_level@.len() > 0,
    ensures
        l == job_level(Some(*skill), xp),
{
    skill_level(xp, skill.experience_per_level.as_slice())
}


/// Jobs are ranked by decreasing XP, each entry once, and jobs with the same
/// XP keep the order of the player's data.
pub proof fn lemma_ranked_jobs_order(es: Seq<(String, JsonValue)>)
    requires
        es.len() <= usize::MAX,
    ensures
        ranked_jobs(es).len() == es.len(),
        forall|i: int| 0 <= i < es.len() ==> #[trigger] ranked_jobs(es)[i] < es.len(),
        forall|i: int, j: int|
            0 <= i < j < es.len() ==> entry_xp(es[#[trigger] ranked_jobs(es)[i] as int]) >= entry_xp(
                es[#[trigger] ranked_jobs(es)[j] as int],
            ),
        forall|i: int, j: int|
            0 <= i < j < es.len() && entry_xp(es[ranked_jobs(es)[i] as int]) == entry_xp(
                es[ranked_jobs(es)[j] as int],
            ) ==> #[trigger] ranked_jobs(es)[i] < #[trigger] ranked_jobs(es)[j],
{
    let keys = xp_desc_keys(es);
    crate::sort::lemma_sorted_by_key_laws(keys);
    let r = ranked_jobs(es);
    assert forall|i: int, j: int| 0 <= i < j < es.len() implies entry_xp(es[#[trigger] r[i] as int])
        >= entry_xp(es[#[trigger] r[j] as int]) by {
        assert(keys[r[i] as int] <= keys[r[j] as int]);
    }
    assert forall|i: int, j: int|
        0 <= i < j < es.len() && entry_xp(es[r[i] as int]) == entry_xp(es[r[j] as int]) implies #[trigger] r[i]
        < #[trigger] r[j] by {
        assert(keys[r[i] as int] == keys[r[j] as int]);
    }
}


/// At most the first `n` indices of the job ranking.
pub open spec fn first_ranked(es: Seq<(String, JsonValue)>, n: nat) -> Seq<usize> {
    let r = ranked_jobs(es);
    if r.len() <= n { r } else { r.take(n as int) }
}

/// Computing the levels of the first `n` ranked jobs stays within `i64`.
pub open spec fn ranked_levels_fit(skills: Seq<Skill>, es: Seq<(String, JsonValue)>, n: nat) -> bool {
    forall|i: int| 0 <= i < first_ranked(es, n).len() ==> level_fits(
        skill_for(skills, es[#[trigger] first_ranked(es, n)[i] as int].0@),
        entry_xp(es[first_ranked(es, n)[i] as int]),
    )
}

/// Whether the levels of the first `n` ranked jobs can be computed: the test
/// made before showing them.
pub fn ranked_levels_fit_check(skills: &Vec<Skill>, es: &Vec<(String, JsonValue)>, n: usize) -> (r: bool)
    ensures
        r == ranked_levels_fit(skills@, es@, n as nat),
{
    let order = rank_jobs(es);
    let m: usize = if order.len() <= n { order.len() } else { n };
    let ghost shown = first_ranked(es@, n as nat);
    assert(shown =~= order@.take(m as int));
    let mut i: usize = 0;
    while i < m
        invariant
            i <= m <= order@.len(),
            order@.len() == es@.len(),
            shown == order@.take(m as int),
            shown == first_ranked(es@, n as nat),
            forall|t: int| 0 <= t < order@.len() ==> #[trigger] order@[t] < es@.len(),
            forall|j: int| 0 <= j < i ==> level_fits(
                skill_for(skills@, es@[#[trigger] shown[j] as int].0@),
                entry_xp(es@[shown[j] as int]),
            ),
        decreases m - i,
    {
        let k = order[i];
        assert(shown[i as int] == k);
        let e = &es[k];
        match find_skill(skills, e.0.as_str()) {
            Some(sk) => {
                if sk.experience_per_level.len() > 0 {
                    if !progress_fits_check(xp_of(e), sk.experience_per_level.as_slice()) {
                        return false;
                    }
                }
            },
            None => {},
        }
        i = i + 1;
    }
    true
}

} // verus!
