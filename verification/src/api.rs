//! The data that the Minebox API returns, the requests sent to it, and the
//! rules that read its replies.

use vstd::prelude::*;
use crate::json::JsonValue;
use crate::text::{entries_in_key_order, entry_keys, keys_ascending, parse_u32, parsed_u32, push_unsigned, decimal};

verus! {

/// Root of the public Minebox API.
pub const BASE_URL: &'static str = "https://api.minebox.co";

/// A GET request to the API: a path (starting with `/`) and query pairs.
#[derive(Debug)]
pub struct ApiRequest {
    pub path: String,
    pub query: Vec<(String, String)>,
}

/// The texts of query pairs.
pub open spec fn pairs_view(q: Seq<(String, String)>) -> Seq<(Seq<char>, Seq<char>)> {
    Seq::new(q.len(), |i: int| (q[i].0@, q[i].1@))
}

fn pair(k: &str, v: &str) -> (p: (String, String))
    ensures
        p.0@ == k@,
        p.1@ == v@,
{
    (String::from_str(k), String::from_str(v))
}

fn text_after(prefix: &str, rest: &str) -> (s: String)
    ensures
        s@ == prefix@ + rest@,
{
    let mut s = String::from_str(prefix);
    s.append(rest);
    s
}

fn unsigned_text(n: u32) -> (s: String)
    ensures
        s@ == decimal(n as int),
{
    let mut s = String::new();
    push_unsigned(&mut s, n as u64);
    assert(s@ =~= decimal(n as int));
    s
}

/// The full URL of a request path.
pub fn url_of(path: &str) -> (u: String)
    ensures
        u@ == BASE_URL@ + path@,
{
    text_after(BASE_URL, path)
}

/// Bestiary search (used for autocompletion and lookup): 25 results at most.
pub fn bestiary_request(search: &str, locale: &str) -> (r: ApiRequest)
    ensures
        r.path@ == "/bestiary"@,
        pairs_view(r.query@) == seq![("search"@, search@), ("pageSize"@, "25"@), ("locale"@, locale@)],
{
    let r = ApiRequest {
        path: String::from_str("/bestiary"),
        query: vec![pair("search", search), pair("pageSize", "25"), pair("locale", locale)],
    };
    assert(pairs_view(r.query@) =~= seq![("search"@, search@), ("pageSize"@, "25"@), ("locale"@, locale@)]);
    r
}

/// One creature with its loots.
pub fn creature_request(id: &str, locale: &str) -> (r: ApiRequest)
    ensures
        r.path@ == "/bestiary/"@ + id@,
        pairs_view(r.query@) == seq![("locale"@, locale@)],
{
    let r = ApiRequest { path: text_after("/bestiary/", id), query: vec![pair("locale", locale)] };
    assert(pairs_view(r.query@) =~= seq![("locale"@, locale@)]);
    r
}

/// Crafting recipes of a job.
pub fn recipes_request(job: &str, search: &str, locale: &str) -> (r: ApiRequest)
    ensures
        r.path@ == "/recipes"@,
        pairs_view(r.query@) == seq![("job"@, job@), ("search"@, search@), ("locale"@, locale@)],
{
    let r = ApiRequest {
        path: String::from_str("/recipes"),
        query: vec![pair("job", job), pair("search", search), pair("locale", locale)],
    };
    assert(pairs_view(r.query@) =~= seq![("job"@, job@), ("search"@, search@), ("locale"@, locale@)]);
    r
}

/// One item (name, base64 image, rarity…).
pub fn item_request(id: &str, locale: &str) -> (r: ApiRequest)
    ensures
        r.path@ == "/item/"@ + id@,
        pairs_view(r.query@) == seq![("locale"@, locale@)],
{
    let r = ApiRequest { path: text_after("/item/", id), query: vec![pair("locale", locale)] };
    assert(pairs_view(r.query@) =~= seq![("locale"@, locale@)]);
    r
}

/// Market price statistics of an item over a period.
pub fn market_prices_request(item_id: &str, period: &str) -> (r: ApiRequest)
    ensures
        r.path@ == "/market/prices"@,
        pairs_view(r.query@) == seq![("item_id"@, item_id@), ("period"@, period@)],
{
    let r = ApiRequest {
        path: String::from_str("/market/prices"),
        query: vec![pair("item_id", item_id), pair("period", period)],
    };
    assert(pairs_view(r.query@) =~= seq![("item_id"@, item_id@), ("period"@, period@)]);
    r
}

/// Listings of the auction house.
pub fn market_auction_request(limit: u32) -> (r: ApiRequest)
    ensures
        r.path@ == "/market/auction"@,
        pairs_view(r.query@) == seq![("limit"@, decimal(limit as int))],
{
    let l = unsigned_text(limit);
    let r = ApiRequest {
        path: String::from_str("/market/auction"),
        query: vec![(String::from_str("limit"), l)],
    };
    assert(pairs_view(r.query@) =~= seq![("limit"@, decimal(limit as int))]);
    r
}

/// Bazaar offers for an item.
pub fn market_bazaar_request(item_id: &str, limit: u32) -> (r: ApiRequest)
    ensures
        r.path@ == "/market/bazaar"@,
        pairs_view(r.query@) == seq![("item_id"@, item_id@), ("limit"@, decimal(limit as int))],
{
    let l = unsigned_text(limit);
    let r = ApiRequest {
        path: String::from_str("/market/bazaar"),
        query: vec![pair("item_id", item_id), (String::from_str("limit"), l)],
    };
    assert(pairs_view(r.query@) =~= seq![("item_id"@, item_id@), ("limit"@, decimal(limit as int))]);
    r
}

/// All the data of a player (name or UUID).
pub fn player_request(identifier: &str) -> (r: ApiRequest)
    ensures
        r.path@ == "/data/"@ + identifier@,
        r.query@.len() == 0,
{
    ApiRequest { path: text_after("/data/", identifier), query: Vec::new() }
}

/// The jobs with their XP curve per level.
pub fn skills_request(locale: &str) -> (r: ApiRequest)
    ensures
        r.path@ == "/skills"@,
        pairs_view(r.query@) == seq![("locale"@, locale@)],
{
    let r = ApiRequest { path: String::from_str("/skills"), query: vec![pair("locale", locale)] };
    assert(pairs_view(r.query@) =~= seq![("locale"@, locale@)]);
    r
}

/// A guild (name or UUID).
pub fn guild_request(identifier: &str) -> (r: ApiRequest)
    ensures
        r.path@ == "/guild/"@ + identifier@,
        r.query@.len() == 0,
{
    ApiRequest { path: text_after("/guild/", identifier), query: Vec::new() }
}

/// All the equipment sets with their bonuses.
pub fn sets_request() -> (r: ApiRequest)
    ensures
        r.path@ == "/sets"@,
        r.query@.len() == 0,
{
    ApiRequest { path: String::from_str("/sets"), query: Vec::new() }
}

/// Why a request to the API failed.
#[derive(Debug)]
pub enum ApiError {
    /// The request could not be sent or its body read; holds the reason.
    Http(String),
    /// The API answered with a status outside 200–299.
    Status(u16),
    /// Status 200 with an empty body (frequent on the Minebox API when there
    /// is no data: unknown item, empty market, unknown player…).
    Empty,
    /// The body is not the expected JSON; holds the reason.
    Parse(String),
}

/// The French message of an API error.
pub open spec fn api_error_text(e: ApiError) -> Seq<char> {
    match e {
        ApiError::Http(m) => "erreur réseau : "@ + m@,
        ApiError::Status(code) => "l'API a répondu HTTP "@ + decimal(code as int),
        ApiError::Empty => "aucune donnée renvoyée"@,
        ApiError::Parse(m) => "réponse illisible : "@ + m@,
    }
}

impl ApiError {
    /// The message shown to users for this error.
    pub fn message(&self) -> (s: String)
        ensures
            s@ == api_error_text(*self),
    {
        match self {
            ApiError::Http(m) => text_after("erreur réseau : ", m.as_str()),
            ApiError::Status(code) => {
                let mut s = String::from_str("l'API a répondu HTTP ");
                push_unsigned(&mut s, *code as u64);
                s
            },
            ApiError::Empty => String::from_str("aucune donnée renvoyée"),
            ApiError::Parse(m) => text_after("réponse illisible : ", m.as_str()),
        }
    }
}

/// Checks a reply before its body is parsed: a status outside 200–299 is an
/// error, then so is an empty body.
pub fn check_reply(status: u16, body_len: usize) -> (r: Result<(), ApiError>)
    ensures
        !(200 <= status <= 299) ==> (r matches Err(ApiError::Status(c)) && c == status),
        200 <= status <= 299 && body_len == 0 ==> (r matches Err(ApiError::Empty)),
        r is Ok <==> 200 <= status <= 299 && body_len > 0,
{
    if !(200 <= status && status <= 299) {
        Err(ApiError::Status(status))
    } else if body_len == 0 {
        Err(ApiError::Empty)
    } else {
        Ok(())
    }
}

/// A page of the bestiary search.
#[derive(Debug)]
pub struct BestiaryList {
    pub creatures: Vec<CreatureSummary>,
}

/// A creature as the bestiary search lists it.
#[derive(Debug)]
pub struct CreatureSummary {
    pub id: String,
    pub name: String,
    pub family_name: Option<String>,
    pub level: i64,
    pub level_max: i64,
}

/// A creature with its loots.
#[derive(Debug)]
pub struct Creature {
    pub id: String,
    pub name: String,
    pub family_name: Option<String>,
    pub level: i64,
    pub level_max: i64,
    pub health: Vec<i64>,
    pub image: Option<String>,
    pub zones: Option<Vec<String>>,
    pub drops: Vec<Drop>,
    /// Stat ranges by stat name, in key order.
    pub stats: Option<Vec<(String, Vec<i64>)>>,
}

/// A loot of a creature. The drop chance (a percentage) is kept as the two
/// texts in which it is shown: rounded to a whole number and to a tenth.
#[derive(Debug)]
pub struct Drop {
    pub item_id: String,
    pub name: String,
    /// PNG image encoded in base64 (not a URL).
    pub image: Option<String>,
    pub amount: Vec<i64>,
    /// The chance written with no decimal (`{:.0}`).
    pub chance_whole: String,
    /// The chance written with one decimal (`{:.1}`).
    pub chance_tenths: String,
    pub item: Option<ItemBrief>,
}

/// What a loot tells of its item.
#[derive(Debug)]
pub struct ItemBrief {
    pub rarity: Option<String>,
}

/// The recipes of a job.
#[derive(Debug)]
pub struct RecipesResp {
    pub recipes: Vec<Recipe>,
    pub total: i64,
}

/// A crafting recipe.
#[derive(Debug)]
pub struct Recipe {
    pub id: String,
    pub name: String,
    pub job: Option<String>,
    pub amount: i64,
    pub output: Option<String>,
    pub ingredients: Vec<Ingredient>,
}

/// An ingredient of a recipe.
#[derive(Debug)]
pub struct Ingredient {
    pub id: String,
    pub amount: i64,
    pub kind: Option<String>,
}

/// An item.
#[derive(Debug)]
pub struct Item {
    pub id: String,
    pub name: String,
    pub rarity: Option<String>,
    /// PNG image encoded in base64.
    pub image: Option<String>,
    pub level: Option<i64>,
    pub kind: Option<String>,
}

/// A guild and its members.
#[derive(Debug)]
pub struct Guild {
    pub id: String,
    pub name: String,
    pub level: i64,
    pub xp: i64,
    pub members: Vec<GuildMember>,
}

/// A member of a guild.
#[derive(Debug)]
pub struct GuildMember {
    pub username: String,
    pub online: bool,
    pub is_owner: bool,
}

/// How many of the members are online.
pub open spec fn online_members(ms: Seq<GuildMember>) -> nat
    decreases ms.len(),
{
    if ms.len() == 0 {
        0
    } else {
        online_members(ms.drop_last()) + if ms.last().online { 1nat } else { 0nat }
    }
}

impl Guild {
    /// Number of members currently online.
    pub fn online_count(&self) -> (n: usize)
        ensures
            n == online_members(self.members@),
    {
        let mut n: usize = 0;
        let mut i: usize = 0;
        while i < self.members.len()
            invariant
                i <= self.members@.len(),
                n == online_members(self.members@.take(i as int)),
                n <= i,
            decreases self.members.len() - i,
        {
            assert(self.members@.take(i + 1).drop_last() =~= self.members@.take(i as int));
            if self.members[i].online {
                n = n + 1;
            }
            i = i + 1;
        }
        assert(self.members@.take(self.members.len() as int) =~= self.members@);
        n
    }
}

/// The equipment sets.
#[derive(Debug)]
pub struct SetsResp {
    pub sets: Vec<EquipmentSet>,
}

/// An equipment set. Its bonuses are listed by number of pieces worn
/// (`"2"`, `"4"`…), in key order, each with its stat bonuses in key order.
#[derive(Debug)]
pub struct EquipmentSet {
    pub id: String,
    pub name: String,
    pub bonuses: Vec<(String, Vec<(String, i64)>)>,
}

/// The best tier among the first `k` bonus entries: the largest piece count
/// among keys that parse as a `u32`, the last such entry on a tie (as
/// `max_by_key` keeps it), with the entry's index.
pub open spec fn best_tier(b: Seq<(String, Vec<(String, i64)>)>, k: int) -> Option<(u32, int)>
    decreases k,
{
    if k <= 0 {
        None
    } else {
        let prev = best_tier(b, k - 1);
        match parsed_u32(b[k - 1].0@) {
            Some(n) => match prev {
                Some((m, _)) => if n >= m { Some((n, k - 1)) } else { prev },
                None => Some((n, k - 1)),
            },
            None => prev,
        }
    }
}

/// The highest tier of a set's bonuses (piece count and entry index).
pub open spec fn top_tier(s: EquipmentSet) -> Option<(u32, int)> {
    best_tier(s.bonuses@, s.bonuses@.len() as int)
}

/// The sum of the bonus values.
pub open spec fn bonus_sum(stats: Seq<(String, i64)>) -> int
    decreases stats.len(),
{
    if stats.len() == 0 {
        0
    } else {
        bonus_sum(stats.drop_last()) + stats.last().1
    }
}

/// Every partial sum of the bonus values fits in an `i64`.
pub open spec fn sums_fit(stats: Seq<(String, i64)>) -> bool {
    forall|k: int| 0 <= k <= stats.len() ==> i64::MIN <= #[trigger] bonus_sum(stats.take(k)) <= i64::MAX
}

/// The power of a set: the sum of the bonuses of its highest tier, 0 when
/// it has none.
pub open spec fn set_power(s: EquipmentSet) -> int {
    match top_tier(s) {
        Some((_, i)) => bonus_sum(s.bonuses@[i].1@),
        None => 0,
    }
}

/// Adding up the power of a set stays within `i64`.
pub open spec fn power_fits(s: EquipmentSet) -> bool {
    match top_tier(s) {
        Some((_, i)) => sums_fit(s.bonuses@[i].1@),
        None => true,
    }
}

proof fn lemma_best_tier_index(b: Seq<(String, Vec<(String, i64)>)>, k: int)
    requires
        0 <= k <= b.len(),
    ensures
        best_tier(b, k) matches Some((n, i)) ==> 0 <= i < k && parsed_u32(b[i].0@) == Some(n),
    decreases k,
{
    if k > 0 {
        lemma_best_tier_index(b, k - 1);
    }
}

/// The entries of a set come as maps hold them: tiers in key order, and the
/// stats of each tier in key order.
pub open spec fn set_in_key_order(s: EquipmentSet) -> bool {
    &&& keys_ascending(entry_keys(s.bonuses@))
    &&& forall|i: int| 0 <= i < s.bonuses@.len() ==> keys_ascending(entry_keys(#[trigger] s.bonuses@[i].1@))
}

/// The stats of a creature, when it has some, come in key order.
pub open spec fn creature_in_key_order(c: Creature) -> bool {
    match c.stats {
        Some(v) => keys_ascending(entry_keys(v@)),
        None => true,
    }
}

impl Creature {
    /// Whether the stats come in key order, as a map holds them.
    pub fn in_key_order(&self) -> (r: bool)
        ensures
            r == creature_in_key_order(*self),
    {
        match &self.stats {
            Some(v) => entries_in_key_order(v),
            None => true,
        }
    }
}

impl EquipmentSet {
    /// Whether the tiers and the stats of each tier come in key order, as
    /// maps hold them.
    pub fn in_key_order(&self) -> (r: bool)
        ensures
            r == set_in_key_order(*self),
    {
        if !entries_in_key_order(&self.bonuses) {
            return false;
        }
        let mut i: usize = 0;
        while i < self.bonuses.len()
            invariant
                i <= self.bonuses@.len(),
                forall|j: int| 0 <= j < i ==> keys_ascending(entry_keys(#[trigger] self.bonuses@[j].1@)),
            decreases self.bonuses.len() - i,
        {
            if !entries_in_key_order(&self.bonuses[i].1) {
                return false;
            }
            i = i + 1;
        }
        true
    }
}

impl EquipmentSet {
    /// Highest tier (largest number of pieces) and its bonuses.
    pub fn max_tier(&self) -> (r: Option<(u32, &Vec<(String, i64)>)>)
        ensures
            match top_tier(*self) {
                Some((n, i)) => (r matches Some((m, v)) && m == n && *v == self.bonuses@[i].1),
                None => r is None,
            },
    {
        let mut best: Option<(u32, usize)> = None;
        let mut i: usize = 0;
        while i < self.bonuses.len()
            invariant
                i <= self.bonuses@.len(),
                match best_tier(self.bonuses@, i as int) {
                    Some((n, j)) => best == Some((n, j as usize)),
                    None => best is None,
                },
            decreases self.bonuses.len() - i,
        {
            match parse_u32(self.bonuses[i].0.as_str()) {
                Some(n) => {
                    match best {
                        Some((m, _)) => {
                            if n >= m {
                                best = Some((n, i));
                            }
                        },
                        None => {
                            best = Some((n, i));
                        },
                    }
                },
                None => {},
            }
            i = i + 1;
        }
        proof {
            lemma_best_tier_index(self.bonuses@, self.bonuses@.len() as int);
        }
        match best {
            Some((n, j)) => Some((n, &self.bonuses[j].1)),
            None => None,
        }
    }

    /// Sum of the bonuses at the highest tier: an estimate of the set's power.
    pub fn power(&self) -> (p: i64)
        requires
            power_fits(*self),
        ensures
            p == set_power(*self),
    {
        match self.max_tier() {
            Some((_, stats)) => {
                let mut sum: i64 = 0;
                let mut i: usize = 0;
                while i < stats.len()
                    invariant
                        i <= stats@.len(),
                        sums_fit(stats@),
                        sum == bonus_sum(stats@.take(i as int)),
                    decreases stats.len() - i,
                {
                    assert(stats@.take(i + 1).drop_last() =~= stats@.take(i as int));
                    assert(i64::MIN <= bonus_sum(stats@.take(i + 1)) <= i64::MAX);
                    sum = sum + stats[i].1;
                    i = i + 1;
                }
                assert(stats@.take(stats.len() as int) =~= stats@);
                sum
            },
            None => 0,
        }
    }
}

/// The jobs.
#[derive(Debug)]
pub struct SkillsResp {
    pub skills: Vec<Skill>,
}

/// A job and its XP curve.
#[derive(Clone, Debug)]
pub struct Skill {
    pub id: String,
    pub name: String,
    /// XP cost per level: `[0]` is level 1, then the cost of each next level.
    pub experience_per_level: Vec<i64>,
}

/// A player's public data.
#[derive(Debug)]
pub struct Player {
    pub id: String,
    pub username: String,
    pub level: i64,
    /// Play time in minutes.
    pub playtime: i64,
    pub first_connection: Option<String>,
    pub last_connection: Option<String>,
    pub online: bool,
    pub data: JsonValue,
}


proof fn lemma_best_tier_max(b: Seq<(String, Vec<(String, i64)>)>, k: int)
    requires
        0 <= k <= b.len(),
    ensures
        best_tier(b, k) is None <==> (forall|i: int| 0 <= i < k ==> #[trigger] parsed_u32(b[i].0@) is None),
        best_tier(b, k) matches Some((n, j)) ==> forall|i: int|
            0 <= i < k && #[trigger] parsed_u32(b[i].0@) is Some ==> parsed_u32(b[i].0@)->0 <= n,
        best_tier(b, k) matches Some((n, j)) ==> forall|i: int|
            j < i < k && #[trigger] parsed_u32(b[i].0@) is Some ==> parsed_u32(b[i].0@)->0 < n,
    decreases k,
{
    if k > 0 {
        lemma_best_tier_max(b, k - 1);
        lemma_best_tier_index(b, k - 1);
    }
}

/// The highest tier of a set is the largest piece count among the bonus
/// keys that are numbers, and the last entry with that count; a set has no
/// highest tier exactly when none of its keys is a number.
pub proof fn lemma_top_tier_is_largest(s: EquipmentSet)
    ensures
        top_tier(s) is None <==> (forall|i: int|
            0 <= i < s.bonuses@.len() ==> #[trigger] parsed_u32(s.bonuses@[i].0@) is None),
        top_tier(s) matches Some((n, j)) ==> {
            &&& 0 <= j < s.bonuses@.len()
            &&& parsed_u32(s.bonuses@[j].0@) == Some(n)
            &&& forall|i: int|
                0 <= i < s.bonuses@.len() && #[trigger] parsed_u32(s.bonuses@[i].0@) is Some
                    ==> parsed_u32(s.bonuses@[i].0@)->0 <= n
            &&& forall|i: int|
                j < i < s.bonuses@.len() && #[trigger] parsed_u32(s.bonuses@[i].0@) is Some
                    ==> parsed_u32(s.bonuses@[i].0@)->0 < n
        },
{
    lemma_best_tier_max(s.bonuses@, s.bonuses@.len() as int);
    lemma_best_tier_index(s.bonuses@, s.bonuses@.len() as int);
}

/// No more members are online than a guild has.
pub proof fn lemma_online_at_most_members(ms: Seq<GuildMember>)
    ensures
        online_members(ms) <= ms.len(),
    decreases ms.len(),
{
    if ms.len() > 0 {
        lemma_online_at_most_members(ms.drop_last());
    }
}


impl EquipmentSet {
    /// Whether the power of the set can be added up within `i64`: the test
    /// made before ranking sets.
    pub fn power_fits_check(&self) -> (r: bool)
        ensures
            r == power_fits(*self),
    {
        match self.max_tier() {
            Some((_, stats)) => {
                let mut sum: i128 = 0;
                let mut i: usize = 0;
                assert(power_fits(*self) == sums_fit(stats@));
                while i < stats.len()
                    invariant
                        i <= stats@.len(),
                        power_fits(*self) == sums_fit(stats@),
                        sum == bonus_sum(stats@.take(i as int)),
                        i64::MIN <= sum <= i64::MAX,
                        forall|k: int| 0 <= k <= i ==> i64::MIN <= #[trigger] bonus_sum(stats@.take(k))
                            <= i64::MAX,
                    decreases stats.len() - i,
                {
                    assert(stats@.take(i + 1).drop_last() =~= stats@.take(i as int));
                    sum = sum + stats[i].1 as i128;
                    assert(sum == bonus_sum(stats@.take(i + 1)));
                    if sum < i64::MIN as i128 || sum > i64::MAX as i128 {
                        assert(!sums_fit(stats@));
                        return false;
                    }
                    i = i + 1;
                }
                assert(stats@.take(stats.len() as int) =~= stats@);
                true
            },
            None => true,
        }
    }
}

} // verus!
