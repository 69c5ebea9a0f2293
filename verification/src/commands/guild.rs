//! `/guild`: a Minebox guild (level, XP, members and who is online).

use vstd::prelude::*;
use crate::api::{online_members, Guild, GuildMember};
use crate::commands::player::{first_n, plain_colour};
use crate::embed::{bare_embed, field_text, with_field, Embed, EmbedText};
use crate::sort::{sort_indices_by_key, sorted_by_key};
use crate::text::{decimal, decimal_string, grouped_decimal, join, join_strings, push_unsigned, views};
use crate::util::thousands;

verus! {

/// The reply when no guild answers to `name`.
pub open spec fn guild_not_found_text(name: Seq<char>) -> Seq<char> {
    "Aucune guilde trouvée pour « "@ + name + " »."@
}

/// Builds the reply when no guild answers to `name`.
pub fn guild_not_found(name: &str) -> (s: String)
    ensures
        s@ == guild_not_found_text(name@),
{
    let mut s = String::from_str("Aucune guilde trouvée pour « ");
    s.append(name);
    s.append(" ».");
    s
}

/// The sort key of a member: the owner first, then the online members.
pub open spec fn member_key(m: GuildMember) -> i128 {
    ((if m.is_owner { 0i128 } else { 2i128 }) + (if m.online { 0i128 } else { 1i128 })) as i128
}

/// The sort keys of the members.
pub open spec fn member_keys(ms: Seq<GuildMember>) -> Seq<i128> {
    Seq::new(ms.len(), |i: int| member_key(ms[i]))
}

/// The indices of the (at most 30) members listed, owner first, then online
/// members, each group in the guild's order.
pub open spec fn listed_members(ms: Seq<GuildMember>) -> Seq<usize> {
    first_n(sorted_by_key(member_keys(ms)), 30)
}

/// The line of a member: online dot, name, and a crown for the owner.
pub open spec fn member_line(m: GuildMember) -> Seq<char> {
    (if m.online { "🟢"@ } else { "⚫"@ }) + " "@ + m.username@ + (if m.is_owner { " 👑"@ } else { Seq::empty() })
}

/// The member list text.
pub open spec fn member_list(ms: Seq<GuildMember>) -> Seq<char> {
    let shown = listed_members(ms);
    join(Seq::new(shown.len(), |i: int| member_line(ms[shown[i] as int])), "\n"@)
}

/// The guild embed.
pub open spec fn guild_embed_text(g: Guild) -> EmbedText {
    let e0 = bare_embed("🛡️ "@ + g.name@, plain_colour());
    let e1 = with_field(e0, field_text("Niveau"@, decimal(g.level as int), true));
    let e2 = with_field(e1, field_text("XP"@, grouped_decimal(g.xp as int), true));
    let e3 = with_field(
        e2,
        field_text(
            "Membres"@,
            "🟢 "@ + decimal(online_members(g.members@) as int) + " en ligne · "@ + decimal(
                g.members@.len() as int,
            ) + " au total"@,
            true,
        ),
    );
    let list = member_list(g.members@);
    let e4 = if list.len() > 0 {
        with_field(e3, field_text("Liste des membres"@, list, false))
    } else {
        e3
    };
    EmbedText { footer: Some("UUID : "@ + g.id@), ..e4 }
}

fn member_line_of(m: &GuildMember) -> (s: String)
    ensures
        s@ == member_line(*m),
{
    let mut s = if m.online { String::from_str("🟢") } else { String::from_str("⚫") };
    s.append(" ");
    s.append(m.username.as_str());
    if m.is_owner {
        s.append(" 👑");
    } else {
        assert(s@ + Seq::<char>::empty() =~= s@);
    }
    s
}

/// The member list: owner first, then online members, 30 lines at most.
pub fn member_list_of(ms: &Vec<GuildMember>) -> (s: String)
    ensures
        s@ == member_list(ms@),
{
    let mut keys: Vec<i128> = Vec::new();
    let mut i: usize = 0;
    while i < ms.len()
        invariant
            i <= ms@.len(),
            keys@ == member_keys(ms@).take(i as int),
        decreases ms.len() - i,
    {
        let k: i128 = (if ms[i].is_owner { 0 } else { 2 }) + (if ms[i].online { 0 } else { 1 });
        keys.push(k);
        i = i + 1;
        assert(keys@ =~= member_keys(ms@).take(i as int));
    }
    assert(member_keys(ms@).take(ms.len() as int) =~= member_keys(ms@));
    let order = sort_indices_by_key(&keys);
    let n: usize = if order.len() <= 30 { order.len() } else { 30 };
    let ghost shown = listed_members(ms@);
    let ghost lines_spec = Seq::new(shown.len(), |j: int| member_line(ms@[shown[j] as int]));
    assert(shown =~= order@.take(n as int));
    let mut lines: Vec<String> = Vec::new();
    let mut j: usize = 0;
    while j < n
        invariant
            j <= n <= order@.len(),
            order@.len() == ms@.len(),
            shown == order@.take(n as int),
            lines_spec == Seq::new(shown.len(), |j: int| member_line(ms@[shown[j] as int])),
            forall|t: int| 0 <= t < order@.len() ==> #[trigger] order@[t] < ms@.len(),
            views(lines@) == lines_spec.take(j as int),
        decreases n - j,
    {
        let k = order[j];
        let line = member_line_of(&ms[k]);
        let ghost before = lines@;
        lines.push(line);
        assert(views(lines@) =~= views(before).push(line@));
        j = j + 1;
        assert(views(lines@) =~= lines_spec.take(j as int));
    }
    assert(lines_spec.take(n as int) =~= lines_spec);
    join_strings(&lines, "\n")
}

/// Builds the guild embed: level, XP, member counts, member list, UUID.
pub fn guild_embed(g: &Guild) -> (e: Embed)
    ensures
        e@ == guild_embed_text(*g),
{
    let online = g.online_count();
    let total = g.members.len();
    let list = member_list_of(&g.members);
    let mut title = String::from_str("🛡️ ");
    title.append(g.name.as_str());
    let mut e = Embed::new(title, 0x5865F2);
    e.add_field(String::from_str("Niveau"), decimal_string(g.level), true);
    e.add_field(String::from_str("XP"), thousands(g.xp), true);
    let mut members = String::from_str("🟢 ");
    push_unsigned(&mut members, online as u64);
    members.append(" en ligne · ");
    push_unsigned(&mut members, total as u64);
    members.append(" au total");
    e.add_field(String::from_str("Membres"), members, true);
    if !list.as_str().is_empty() {
        e.add_field(String::from_str("Liste des membres"), list, false);
    }
    let mut footer = String::from_str("UUID : ");
    footer.append(g.id.as_str());
    e.set_footer(footer);
    e
}


/// The members listed, in terms of who they are: at most 30, each member
/// once; an owner comes before every member who is not one, whether online
/// or not; among members of the same kind (owner or not), the online ones
/// come first, and members alike keep the guild's order; a member left out
/// of a full list ranks no better than any member listed.
pub proof fn lemma_member_list_ranks(ms: Seq<GuildMember>)
    requires
        ms.len() <= usize::MAX,
    ensures
        listed_members(ms).len() == if ms.len() <= 30 { ms.len() } else { 30 },
        forall|i: int| 0 <= i < listed_members(ms).len() ==> #[trigger] listed_members(ms)[i] < ms.len(),
        forall|i: int, j: int|
            0 <= i < j < listed_members(ms).len() ==> #[trigger] listed_members(ms)[i] != #[trigger] listed_members(ms)[j],
        forall|i: int, j: int|
            0 <= i < j < listed_members(ms).len() ==> {
                let a = ms[#[trigger] listed_members(ms)[i] as int];
                let b = ms[#[trigger] listed_members(ms)[j] as int];
                &&& b.is_owner ==> a.is_owner
                &&& (a.is_owner == b.is_owner && b.online) ==> a.online
                &&& (a.is_owner == b.is_owner && a.online == b.online) ==> listed_members(ms)[i] < listed_members(ms)[j]
            },
        forall|i: int, k: int|
            0 <= i < listed_members(ms).len() && 0 <= k < ms.len() && !listed_members(ms).contains(k as usize) ==> {
                let a = ms[#[trigger] listed_members(ms)[i] as int];
                let b = #[trigger] ms[k];
                &&& b.is_owner ==> a.is_owner
                &&& (a.is_owner == b.is_owner && b.online) ==> a.online
            },
{
    broadcast use vstd::seq_lib::group_to_multiset_ensures;

    let keys = member_keys(ms);
    crate::sort::lemma_sorted_by_key_laws(keys);
    let r = sorted_by_key(keys);
    let shown = listed_members(ms);
    assert forall|i: int, j: int| 0 <= i < j < shown.len() implies #[trigger] shown[i] != #[trigger] shown[j] by {
        assert(shown[i] == r[i] && shown[j] == r[j]);
        if keys[r[i] as int] == keys[r[j] as int] {
            assert(r[i] < r[j]);
        }
    }
    assert forall|i: int, j: int| 0 <= i < j < shown.len() implies {
        let a = ms[#[trigger] shown[i] as int];
        let b = ms[#[trigger] shown[j] as int];
        &&& b.is_owner ==> a.is_owner
        &&& (a.is_owner == b.is_owner && b.online) ==> a.online
        &&& (a.is_owner == b.is_owner && a.online == b.online) ==> shown[i] < shown[j]
    } by {
        assert(shown[i] == r[i] && shown[j] == r[j]);
        assert(keys[r[i] as int] <= keys[r[j] as int]);
        assert(keys[r[i] as int] == member_key(ms[r[i] as int]));
        assert(keys[r[j] as int] == member_key(ms[r[j] as int]));
    }
    assert forall|i: int, k: int|
        0 <= i < shown.len() && 0 <= k < ms.len() && !shown.contains(k as usize) implies {
            let a = ms[#[trigger] shown[i] as int];
            let b = #[trigger] ms[k];
            &&& b.is_owner ==> a.is_owner
            &&& (a.is_owner == b.is_owner && b.online) ==> a.online
        } by {
        let idx = crate::sort::indices(ms.len());
        assert(idx[k] == k as usize);
        assert(idx.contains(k as usize));
        assert(idx.to_multiset().count(k as usize) > 0);
        assert(r.to_multiset().count(k as usize) > 0);
        assert(r.contains(k as usize));
        let p = choose|p: int| 0 <= p < r.len() && r[p] == k as usize;
        if p < shown.len() {
            assert(shown[p] == r[p]);
            assert(shown.contains(k as usize));
        }
        assert(shown[i] == r[i]);
        assert(keys[r[i] as int] <= keys[r[p] as int]);
        assert(keys[r[i] as int] == member_key(ms[r[i] as int]));
        assert(keys[k] == member_key(ms[k]));
    }
}

/// The member list text is one line per listed member, joined by line
/// breaks: a green dot for an online member (black otherwise), a space, the
/// user name, and a crown after the owner's name.
pub proof fn lemma_member_list_lines(ms: Seq<GuildMember>)
    ensures
        member_list(ms) == join(
            Seq::new(
                listed_members(ms).len(),
                |i: int| {
                    let m = ms[listed_members(ms)[i] as int];
                    (if m.online { "🟢"@ } else { "⚫"@ }) + " "@ + m.username@ + (if m.is_owner {
                        " 👑"@
                    } else {
                        Seq::empty()
                    })
                },
            ),
            "\n"@,
        ),
{
    let shown = listed_members(ms);
    let a = Seq::new(shown.len(), |i: int| member_line(ms[shown[i] as int]));
    let b = Seq::new(
        shown.len(),
        |i: int| {
            let m = ms[shown[i] as int];
            (if m.online { "🟢"@ } else { "⚫"@ }) + " "@ + m.username@ + (if m.is_owner { " 👑"@ } else { Seq::empty() })
        },
    );
    assert(a =~= b);
}

/// The member list puts the owner first, then the online members, then the
/// others; within each group the guild's order is kept, and no member is
/// listed twice.
pub proof fn lemma_member_list_order(ms: Seq<GuildMember>)
    requires
        ms.len() <= usize::MAX,
    ensures
        forall|i: int, j: int|
            0 <= i < j < listed_members(ms).len() ==> member_key(ms[#[trigger] listed_members(ms)[i] as int])
                <= member_key(ms[#[trigger] listed_members(ms)[j] as int]),
        forall|i: int, j: int|
            0 <= i < j < listed_members(ms).len() && member_key(ms[listed_members(ms)[i] as int])
                == member_key(ms[listed_members(ms)[j] as int]) ==> #[trigger] listed_members(ms)[i]
                < #[trigger] listed_members(ms)[j],
        listed_members(ms).len() <= 30,
{
    let keys = member_keys(ms);
    crate::sort::lemma_sorted_by_key_laws(keys);
    let r = sorted_by_key(keys);
    let shown = listed_members(ms);
    assert forall|i: int, j: int|
        0 <= i < j < shown.len() implies member_key(ms[#[trigger] shown[i] as int]) <= member_key(
        ms[#[trigger] shown[j] as int],
    ) by {
        assert(shown[i] == r[i] && shown[j] == r[j]);
        assert(keys[r[i] as int] <= keys[r[j] as int]);
    }
    assert forall|i: int, j: int|
        0 <= i < j < shown.len() && member_key(ms[shown[i] as int]) == member_key(ms[shown[j] as int])
            implies #[trigger] shown[i] < #[trigger] shown[j] by {
        assert(shown[i] == r[i] && shown[j] == r[j]);
        assert(keys[r[i] as int] == member_key(ms[r[i] as int]));
        assert(keys[r[j] as int] == member_key(ms[r[j] as int]));
    }
}

} // verus!
