//! The bot's settings read from its environment: the guild it follows, the
//! dashboard channel and the players shown there.

use vstd::prelude::*;
use crate::stats::{default_player_names, default_players};
use crate::text::{chars_of, parse_u64, parsed_u64, string_of, views};
use crate::util::{trim_chars, trimmed};

verus! {

/// The guild followed when none is configured.
pub const DEFAULT_GUILD: &'static str = "S7ven";

/// The guild followed: the trimmed setting when not empty, else `S7ven`.
pub open spec fn guild_name_text(setting: Option<Seq<char>>) -> Seq<char> {
    match setting {
        Some(s) => if trimmed(s).len() > 0 { trimmed(s) } else { DEFAULT_GUILD@ },
        None => DEFAULT_GUILD@,
    }
}

/// The text of an optional string slice.
pub open spec fn setting_text(s: Option<&str>) -> Option<Seq<char>> {
    match s {
        Some(t) => Some(t@),
        None => None,
    }
}

/// The guild to follow, from the `GUILD_PRESENCE` setting.
pub fn guild_name(setting: Option<&str>) -> (r: String)
    ensures
        r@ == guild_name_text(setting_text(setting)),
{
    match setting {
        Some(s) => {
            let t = trim_chars(&chars_of(s));
            if t.len() > 0 {
                string_of(&t)
            } else {
                String::from_str(DEFAULT_GUILD)
            }
        },
        None => String::from_str(DEFAULT_GUILD),
    }
}

/// A channel id setting: the trimmed text parsed as a `u64`.
pub open spec fn channel_id_value(setting: Option<Seq<char>>) -> Option<u64> {
    match setting {
        Some(s) => parsed_u64(trimmed(s)),
        None => None,
    }
}

/// A channel id from a setting (`STATS_CHANNEL_ID`, `GUILD_CHANNEL_ID`).
pub fn channel_id(setting: Option<&str>) -> (r: Option<u64>)
    ensures
        r == channel_id_value(setting_text(setting)),
{
    match setting {
        Some(s) => {
            let t = string_of(&trim_chars(&chars_of(s)));
            parse_u64(t.as_str())
        },
        None => None,
    }
}

/// The pieces of a text between commas.
pub open spec fn comma_pieces(s: Seq<char>) -> Seq<Seq<char>>
    decreases s.len(),
{
    if s.len() == 0 {
        seq![Seq::<char>::empty()]
    } else {
        let init = comma_pieces(s.drop_last());
        if s.last() == ',' {
            init.push(Seq::<char>::empty())
        } else {
            init.update(init.len() - 1, init.last().push(s.last()))
        }
    }
}

/// The names of a comma-separated list, trimmed, empty ones left out.
pub open spec fn listed_names(s: Seq<char>) -> Seq<Seq<char>> {
    comma_pieces(s).map_values(|p: Seq<char>| trimmed(p)).filter(|p: Seq<char>| p.len() > 0)
}

/// The players of the dashboard: the names listed in the setting, or the
/// default players when it lists none.
pub open spec fn players_text(setting: Option<Seq<char>>) -> Seq<Seq<char>> {
    match setting {
        Some(s) => if listed_names(s).len() > 0 { listed_names(s) } else { default_player_names() },
        None => default_player_names(),
    }
}

/// The players of the dashboard, from the `STATS_PLAYERS` setting.
pub fn players(setting: Option<&str>) -> (r: Vec<String>)
    ensures
        views(r@) == players_text(setting_text(setting)),
{
    let s = match setting {
        Some(s) => s,
        None => {
            return default_players();
        },
    };
    let cs = chars_of(s);
    let ghost trim_f = |p: Seq<char>| trimmed(p);
    let ghost keep = |p: Seq<char>| p.len() > 0;
    let mut names: Vec<String> = Vec::new();
    let mut cur: Vec<char> = Vec::new();
    let ghost mut done: Seq<Seq<char>> = Seq::empty();
    let mut i: usize = 0;
    assert(s@.take(0) =~= Seq::<char>::empty());
    assert(comma_pieces(Seq::<char>::empty()) =~= done.push(cur@));
    while i < cs.len()
        invariant
            cs@ == s@,
            i <= cs.len(),
            trim_f == (|p: Seq<char>| trimmed(p)),
            keep == (|p: Seq<char>| p.len() > 0),
            comma_pieces(s@.take(i as int)) == done.push(cur@),
            views(names@) == done.map_values(trim_f).filter(keep),
        decreases cs.len() - i,
    {
        let c = cs[i];
        assert(s@.take(i + 1).drop_last() =~= s@.take(i as int));
        assert(s@.take(i + 1).last() == c);
        if c == ',' {
            proof {
                broadcast use Seq::lemma_filter_push;
            }
            let ghost old_done = done;
            let t = trim_chars(&cur);
            assert(old_done.push(cur@).map_values(trim_f) =~= old_done.map_values(trim_f).push(t@));
            if t.len() > 0 {
                let ghost ns = names@;
                names.push(string_of(&t));
                assert(views(names@) =~= views(ns).push(t@));
            }
            proof {
                done = old_done.push(cur@);
            }
            cur = Vec::new();
            assert(comma_pieces(s@.take(i + 1)) =~= done.push(cur@));
        } else {
            cur.push(c);
            assert(comma_pieces(s@.take(i + 1)) =~= done.push(cur@));
        }
        i = i + 1;
    }
    proof {
        broadcast use Seq::lemma_filter_push;
    }
    assert(s@.take(cs.len() as int) =~= s@);
    let t = trim_chars(&cur);
    assert(done.push(cur@).map_values(trim_f) =~= done.map_values(trim_f).push(t@));
    if t.len() > 0 {
        let ghost ns = names@;
        names.push(string_of(&t));
        assert(views(names@) =~= views(ns).push(t@));
    }
    assert(views(names@) == listed_names(s@));
    if names.len() > 0 {
        names
    } else {
        default_players()
    }
}


/// The dashboard always follows at least one player, and never a blank
/// name.
pub proof fn lemma_players_not_empty(setting: Option<Seq<char>>)
    ensures
        players_text(setting).len() > 0,
        forall|i: int| 0 <= i < players_text(setting).len() ==> #[trigger] players_text(setting)[i].len() > 0,
{
    let d = default_player_names();
    assert(d.len() == 6);
    assert forall|i: int| 0 <= i < d.len() implies #[trigger] d[i].len() > 0 by {
        reveal_strlit("MasteRX_");
        reveal_strlit("Nasara__");
        reveal_strlit("Finkeleb");
        reveal_strlit("Ayzziixx");
        reveal_strlit("Doriko79");
        reveal_strlit("Nathan201204");
    }
    match setting {
        Some(s) => {
            let keep = |p: Seq<char>| p.len() > 0;
            let ps = comma_pieces(s).map_values(|p: Seq<char>| trimmed(p));
            assert forall|i: int| 0 <= i < ps.filter(keep).len() implies #[trigger] ps.filter(keep)[i].len() > 0 by {
                ps.lemma_filter_pred(keep, i);
            }
        },
        None => {},
    }
}

} // verus!
