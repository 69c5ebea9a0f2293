use minebox_bot::api::{
    check_reply, ApiError, BestiaryList, Creature, CreatureSummary, Drop, EquipmentSet, Guild,
    GuildMember, ItemBrief, Player, Recipe, Ingredient, Item, Skill,
};
use minebox_bot::commands::bestiary::{creature_choices_of, creature_reply, first_creature_id, loot_summary};
use minebox_bot::commands::guild::{guild_embed, member_list_of};
use minebox_bot::commands::market::{render_listings, prices_embed};
use minebox_bot::commands::player::player_embed;
use minebox_bot::commands::recipes::{recipe_detail, recipe_list, recipes_shown, resolve_name, Job, RecipesShown};
use minebox_bot::commands::pong_text;
use minebox_bot::commands::sets::{roadmap_embed, set_line, split_fields, stat_name, top_bonuses};
use minebox_bot::json::{fmt_value, JsonNumber, JsonValue};
use minebox_bot::stats::{dashboard_field, default_players, is_dashboard_message, presence, publish_next, publish_start, top_jobs, PublishAction, PublishEvent, TITLE};
use minebox_bot::config::{channel_id, guild_name, players};

fn s(t: &str) -> String {
    t.to_string()
}

fn num(n: i64) -> JsonValue {
    JsonValue::Number(JsonNumber::Int(n))
}

fn obj(entries: Vec<(&str, JsonValue)>) -> JsonValue {
    JsonValue::Object(entries.into_iter().map(|(k, v)| (s(k), v)).collect())
}

fn member(name: &str, online: bool, owner: bool) -> GuildMember {
    GuildMember { username: s(name), online, is_owner: owner }
}

#[test]
fn fmt_value_renders_each_kind() {
    assert_eq!(fmt_value(&JsonValue::Null), "—");
    assert_eq!(fmt_value(&JsonValue::Bool(true)), "oui");
    assert_eq!(fmt_value(&JsonValue::Bool(false)), "non");
    assert_eq!(fmt_value(&num(12345)), "12\u{202f}345");
    assert_eq!(fmt_value(&JsonValue::Number(JsonNumber::Other(s("1.5")))), "1.5");
    assert_eq!(fmt_value(&JsonValue::Str(s("abc"))), "abc");
    assert_eq!(fmt_value(&JsonValue::Array(vec![num(1), num(2)])), "2 élément(s)");
    assert_eq!(
        fmt_value(&obj(vec![("a", num(1)), ("b", obj(vec![("c", JsonValue::Null)]))])),
        "a: 1, b: c: —"
    );
}

#[test]
fn listings_from_array_or_object() {
    let arr = JsonValue::Array(vec![JsonValue::Str(s("x")), num(2000)]);
    assert_eq!(render_listings(&arr), "• x\n• 2\u{202f}000\n");
    let o = obj(vec![("count", num(3)), ("items", JsonValue::Array(vec![JsonValue::Bool(true)]))]);
    assert_eq!(render_listings(&o), "• oui\n");
    let o2 = obj(vec![("data", num(1)), ("orders", JsonValue::Array(vec![num(5)]))]);
    assert_eq!(render_listings(&o2), "• 5\n");
    assert_eq!(render_listings(&JsonValue::Array(vec![])), "Aucune donnée disponible.");
    assert_eq!(render_listings(&JsonValue::Null), "Aucune donnée disponible.");
    let many = JsonValue::Array((0..12).map(num).collect());
    assert_eq!(render_listings(&many).lines().count(), 10);
}

#[test]
fn prices_fields() {
    let v = obj(vec![("BUY", num(10)), ("SELL", JsonValue::Null)]);
    let e = prices_embed("ingot_opale", "7d", &v);
    assert_eq!(e.title, "💰 Prix — Ingot Opale");
    assert_eq!(e.footer.as_deref(), Some("période : 7d"));
    let vals: Vec<(&str, &str)> = e.fields.iter().map(|f| (f.name.as_str(), f.value.as_str())).collect();
    assert_eq!(vals, vec![("Achat", "10"), ("Vente", "—"), ("Direct", "—")]);
}

#[test]
fn api_replies_are_checked() {
    assert!(matches!(check_reply(404, 10), Err(ApiError::Status(404))));
    assert!(matches!(check_reply(200, 0), Err(ApiError::Empty)));
    assert!(check_reply(204, 5).is_ok());
    assert!(matches!(check_reply(300, 5), Err(ApiError::Status(300))));
    assert_eq!(ApiError::Status(500).message(), "l'API a répondu HTTP 500");
    assert_eq!(ApiError::Empty.message(), "aucune donnée renvoyée");
    assert_eq!(ApiError::Http(s("timeout")).message(), "erreur réseau : timeout");
    assert_eq!(ApiError::Parse(s("eof")).message(), "réponse illisible : eof");
}

#[test]
fn guild_online_count_and_list_order() {
    let g = Guild {
        id: s("g1"),
        name: s("S7ven"),
        level: 3,
        xp: 12000,
        members: vec![
            member("a", false, false),
            member("b", true, false),
            member("chef", false, true),
            member("c", true, false),
        ],
    };
    assert_eq!(g.online_count(), 2);
    assert_eq!(member_list_of(&g.members), "⚫ chef 👑\n🟢 b\n🟢 c\n⚫ a");
    let e = guild_embed(&g);
    assert_eq!(e.title, "🛡️ S7ven");
    assert_eq!(e.fields[1].value, "12\u{202f}000");
    assert_eq!(e.fields[2].value, "🟢 2 en ligne · 4 au total");
    assert_eq!(e.fields.len(), 4);
    assert_eq!(e.footer.as_deref(), Some("UUID : g1"));
    let empty = Guild { id: s("x"), name: s("Vide"), level: 0, xp: 0, members: vec![] };
    assert_eq!(guild_embed(&empty).fields.len(), 3);
}

#[test]
fn guild_list_stops_at_thirty() {
    let members: Vec<GuildMember> = (0..40).map(|i| member(&format!("m{i}"), i % 2 == 0, false)).collect();
    assert_eq!(member_list_of(&members).lines().count(), 30);
}

fn set(name: &str, bonuses: Vec<(&str, Vec<(&str, i64)>)>) -> EquipmentSet {
    EquipmentSet {
        id: s(name),
        name: s(name),
        bonuses: bonuses
            .into_iter()
            .map(|(k, v)| (s(k), v.into_iter().map(|(a, b)| (s(a), b)).collect()))
            .collect(),
    }
}

#[test]
fn set_tiers_and_power() {
    let st = set("A", vec![("2", vec![("STRENGTH", 5)]), ("4", vec![("STRENGTH", 20), ("HEALTH", 7)]), ("x", vec![("LUCK", 99)])]);
    let (n, stats) = st.max_tier().unwrap();
    assert_eq!(n, 4);
    assert_eq!(stats.len(), 2);
    assert_eq!(st.power(), 27);
    assert_eq!(set("B", vec![]).power(), 0);
    assert!(set("C", vec![("deux", vec![])]).max_tier().is_none());
    assert_eq!(set_line(&st), "**A** — 4 pièces · Strength +20, Health +7");
    assert_eq!(set_line(&set("B", vec![])), "**B**");
}

#[test]
fn top_bonuses_by_value() {
    let stats = vec![(s("agility"), 3), (s("strength"), 9), (s("luck"), 9), (s("health"), -2)];
    assert_eq!(top_bonuses(&stats, 2), "Strength +9, Luck +9");
    assert_eq!(top_bonuses(&stats, 10), "Strength +9, Luck +9, Agility +3, Health +-2");
}

#[test]
fn top_bonuses_with_api_keys() {
    let stats = vec![(s("STRENGTH"), 20)];
    assert_eq!(top_bonuses(&stats, 1), "Strength +20");
    let stats = vec![(s("CRITICAL_CHANCE"), 5), (s("HEALTH"), 12)];
    assert_eq!(top_bonuses(&stats, 2), "Health +12, Critical Chance +5");
    assert_eq!(top_bonuses(&stats, 0), "");
}

#[test]
fn stat_names_are_capitalized_words() {
    assert_eq!(stat_name("STRENGTH"), "Strength");
    assert_eq!(stat_name("CRITICAL_CHANCE"), "Critical Chance");
    assert_eq!(stat_name("mining-speed"), "Mining Speed");
    assert_eq!(stat_name(""), "");
}

#[test]
fn split_fields_respects_limit() {
    let lines: Vec<String> = (0..30).map(|i| format!("• line {i:02} {}", "x".repeat(60))).collect();
    let fields = split_fields(&lines, "hint");
    assert!(fields.len() > 1);
    assert!(fields[0].starts_with("*hint*\n"));
    for f in &fields {
        assert!(f.len() <= 1024);
    }
    assert_eq!(fields.join("\n"), format!("*hint*\n{}", lines.join("\n")));
    assert_eq!(split_fields(&vec![], "h"), vec![s("*h*")]);
}

#[test]
fn roadmap_ranks_and_cuts_in_thirds() {
    let sets = vec![
        set("Zeta", vec![("2", vec![("STRENGTH", 50)])]),
        set("Alpha", vec![("2", vec![("STRENGTH", 10)])]),
        set("Beta", vec![("2", vec![("STRENGTH", 10)])]),
        set("Gamma", vec![]),
    ];
    let e = roadmap_embed(&sets).unwrap();
    assert_eq!(e.colour, 0xFF9800);
    assert!(e.description.as_deref().unwrap().starts_with("4 sets classés"));
    let names: Vec<&str> = e.fields.iter().map(|f| f.name.as_str()).collect();
    assert_eq!(names, vec!["🟢 Début de jeu", "🔵 Milieu de jeu", "🟠 Fin de jeu"]);
    assert_eq!(e.fields[0].value, "*Premiers sets accessibles pour démarrer.*\n• **Gamma**");
    assert!(e.fields[1].value.ends_with("• **Alpha** — 2 pièces · Strength +10"));
    assert!(e.fields[2].value.contains("**Beta**"));
    assert!(e.fields[2].value.ends_with("• **Zeta** — 2 pièces · Strength +50"));
    assert!(roadmap_embed(&vec![]).is_none());
}

fn skill(id: &str, name: &str, curve: Vec<i64>) -> Skill {
    Skill { id: s(id), name: s(name), experience_per_level: curve }
}

fn player(data: JsonValue) -> Player {
    Player {
        id: s("uuid-1"),
        username: s("MasteRX_"),
        level: 42,
        playtime: 12345,
        first_connection: Some(s("2023-05-01T10:00:00Z")),
        last_connection: Some(s("pas une date")),
        online: false,
        data,
    }
}

#[test]
fn player_profile_embed() {
    let data = obj(vec![
        ("ATTRIBUTED_STATS", obj(vec![("base", obj(vec![("HEALTH", num(0)), ("strength", num(12))]))])),
        ("COMPANIONS", obj(vec![("active_mount", JsonValue::Str(s("red_horse"))), ("mounts", obj(vec![("a", num(1)), ("b", num(1))]))])),
        ("SKILLS", obj(vec![("data", obj(vec![("FARMER", num(150)), ("MINER", num(5000)), ("unknown_job", num(150))]))])),
    ]);
    let skills = vec![skill("miner", "Mineur", vec![0, 100, 1000, 10000]), skill("Farmer", "Fermier", vec![])];
    let e = player_embed(&player(data), &skills);
    assert_eq!(e.title, "👤 MasteRX_");
    assert_eq!(e.thumbnail.as_deref(), Some("https://mc-heads.net/avatar/uuid-1/128.png"));
    let f: Vec<(&str, &str)> = e.fields.iter().map(|f| (f.name.as_str(), f.value.as_str())).collect();
    assert_eq!(f[0], ("Niveau", "42"));
    assert_eq!(f[1], ("Temps de jeu", "~205 h"));
    assert_eq!(f[2], ("Inscrit", "<t:1682935200:R>"));
    assert_eq!(
        f[3],
        ("Métiers", "**Mineur** — Niv. 3 · 5\u{202f}000 XP\n**Fermier** — 150 XP\n**Unknown Job** — 150 XP")
    );
    assert_eq!(f[4], ("Stats", "Strength 12"));
    assert_eq!(f[5], ("Compagnons", "Monture active : **Red Horse**\n🐎 2 monture(s) · 🐾 0 familier(s)"));
    assert_eq!(e.footer.as_deref(), Some("UUID : uuid-1"));
}

#[test]
fn player_play_time_rounds_toward_zero() {
    let mut p = player(JsonValue::Null);
    p.playtime = -119;
    let e = player_embed(&p, &vec![]);
    assert_eq!(e.fields[1].value, "~-1 h");
    assert_eq!(e.fields.len(), 3);
}

#[test]
fn dashboard_fields_and_top_jobs() {
    let data = obj(vec![("SKILLS", obj(vec![("data", obj(vec![
        ("a", num(1)), ("b", num(4)), ("c", num(3)), ("d", num(2)),
    ]))]))]);
    let mut p = player(data);
    p.online = true;
    let skills = vec![skill("B", "Bee", vec![0, 2, 2])];
    assert_eq!(top_jobs(&p, &skills), "`Bee 3` `C` `D`");
    let f = dashboard_field("MasteRX_", Some(&p), &skills);
    assert_eq!(f.name, "🟢 MasteRX_");
    assert_eq!(f.value, "Niveau **42** · ~205 h\n🎮 *En ligne*\n`Bee 3` `C` `D`");
    let missing = dashboard_field("Inconnu", None, &skills);
    assert_eq!((missing.name.as_str(), missing.value.as_str()), ("⚫ Inconnu", "*Introuvable*"));
}

#[test]
fn dashboard_message_and_presence() {
    assert!(is_dashboard_message(7, 7, Some(TITLE)));
    assert!(!is_dashboard_message(7, 8, Some(TITLE)));
    assert!(!is_dashboard_message(7, 7, Some("autre")));
    assert!(!is_dashboard_message(7, 7, None));
    let g = Guild { id: s("1"), name: s("S7ven"), level: 1, xp: 1, members: vec![member("a", true, false)] };
    assert_eq!(presence(Some(&g), "S7ven"), "🟢 1 connecté(s) dans S7ven");
    assert_eq!(presence(None, "S7ven"), "Guilde S7ven indisponible");
    assert!(matches!(publish_start(Some(9)), PublishAction::Edit(9)));
    assert!(matches!(publish_start(None), PublishAction::Send));
    assert!(matches!(publish_next(Some(9), PublishEvent::Edited), PublishAction::Done(Some(9))));
    assert!(matches!(publish_next(Some(9), PublishEvent::EditFailed), PublishAction::Send));
    assert!(matches!(publish_next(None, PublishEvent::Sent(Some(3))), PublishAction::Done(Some(3))));
    assert!(matches!(publish_next(None, PublishEvent::Sent(None)), PublishAction::Done(None)));
}

#[test]
fn settings_from_environment() {
    assert_eq!(default_players().len(), 6);
    assert_eq!(guild_name(None), "S7ven");
    assert_eq!(guild_name(Some("   ")), "S7ven");
    assert_eq!(guild_name(Some("  Les Loups ")), "Les Loups");
    assert_eq!(channel_id(Some(" 123 ")), Some(123));
    assert_eq!(channel_id(Some("abc")), None);
    assert_eq!(channel_id(None), None);
    assert_eq!(players(Some(" a , ,b,")), vec![s("a"), s("b")]);
    assert_eq!(players(Some(" , ")), default_players());
    assert_eq!(players(None), default_players());
}

fn drop(name: &str, rarity: Option<&str>, amount: Vec<i64>, image: Option<&str>) -> Drop {
    Drop {
        item_id: s(name),
        name: s(name),
        image: image.map(s),
        amount,
        chance_whole: s("50"),
        chance_tenths: s("50.0"),
        item: Some(ItemBrief { rarity: rarity.map(s) }),
    }
}

#[test]
fn creature_reply_embeds_and_images() {
    let c = Creature {
        id: s("wolf"),
        name: s("Loup"),
        family_name: Some(s("Canidés")),
        level: 5,
        level_max: 8,
        health: vec![100, 120],
        image: None,
        zones: Some(vec![s("Forêt"), s("Plaine")]),
        drops: vec![
            drop("Croc", Some("rare"), vec![1, 3], Some("aGVsbG8=")),
            drop("Peau", None, vec![], Some("###")),
        ],
        stats: Some(vec![(s("ATK"), vec![4, 4])]),
    };
    let r = creature_reply(&c);
    assert_eq!(r.embeds.len(), 3);
    assert_eq!(
        r.embeds[0].description.as_deref(),
        Some("**Famille :** Canidés\n**Niveau :** 5–8\n**Vie :** ❤️ 100–120\n**Zones :** Forêt, Plaine\n**Stats :** ATK 4\n")
    );
    assert_eq!(r.embeds[0].fields[0].name, "Loots (2)");
    assert_eq!(r.embeds[0].fields[0].value, "🔵 **Croc** x1–3 — 50%\n▫️ **Peau** — 50%\n");
    assert_eq!(r.embeds[1].title, "🔵 Croc");
    assert_eq!(r.embeds[1].colour, 0x2196F3);
    assert_eq!(r.embeds[1].description.as_deref(), Some("Quantité : 1–3\nChance : 50.0%"));
    assert_eq!(r.embeds[1].thumbnail.as_deref(), Some("attachment://loot_0.png"));
    assert_eq!(r.embeds[2].thumbnail, None);
    assert_eq!(r.attachments.len(), 1);
    assert_eq!(r.attachments[0].filename, "loot_0.png");
    assert_eq!(r.attachments[0].bytes, b"hello".to_vec());
    let bare = Creature { drops: vec![], zones: None, stats: None, family_name: None, health: vec![], level_max: 5, ..c };
    let r2 = creature_reply(&bare);
    assert_eq!(r2.embeds.len(), 1);
    assert_eq!(r2.embeds[0].fields[0].value, "Aucun loot connu.");
    assert_eq!(r2.embeds[0].description.as_deref(), Some("**Niveau :** 5\n"));
}

#[test]
fn loot_summary_is_cut_to_field_size() {
    let drops: Vec<Drop> = (0..40).map(|i| drop(&format!("objet{i:02}"), None, vec![1], None)).collect();
    let full = loot_summary(&drops);
    assert!(full.len() > 1020);
    let c = Creature {
        id: s("x"), name: s("X"), family_name: None, level: 1, level_max: 1, health: vec![],
        image: None, zones: None, drops, stats: None,
    };
    let r = creature_reply(&c);
    let v = &r.embeds[0].fields[0].value;
    assert!(v.len() <= 1020 && v.len() > 1016);
    assert!(full.starts_with(v.as_str()));
    assert_eq!(r.embeds.len(), 10);
}

#[test]
fn loot_summary_cut_keeps_whole_characters() {
    // Each line holds multi-byte characters, so byte 1020 falls inside one
    // for some of these lengths; the cut backs off to a boundary instead.
    for extra in 0..4 {
        let name = format!("{}{}", "é".repeat(extra), "—".repeat(20));
        let drops: Vec<Drop> = (0..30).map(|_| drop(&name, None, vec![1], None)).collect();
        let full = loot_summary(&drops);
        assert!(full.len() > 1020);
        let c = Creature {
            id: s("x"), name: s("X"), family_name: None, level: 1, level_max: 1, health: vec![],
            image: None, zones: None, drops, stats: None,
        };
        let v = creature_reply(&c).embeds[0].fields[0].value.clone();
        assert!(v.len() <= 1020 && v.len() > 1016);
        assert!(full.starts_with(v.as_str()));
        let next = full[v.len()..].chars().next().unwrap();
        assert!(v.len() + next.len_utf8() > 1020);
    }
}

#[test]
fn autocomplete_choices() {
    let list = BestiaryList {
        creatures: (0..30)
            .map(|i| CreatureSummary { id: format!("c{i}"), name: format!("Bête {i}"), family_name: if i == 0 { Some(s("Loups")) } else { None }, level: 3, level_max: if i == 0 { 6 } else { 3 } })
            .collect(),
    };
    let ch = creature_choices_of(&list);
    assert_eq!(ch.len(), 25);
    assert_eq!(ch[0], (s("Bête 0 • Loups Nv.3–6"), s("c0")));
    assert_eq!(ch[1], (s("Bête 1 •  Nv.3"), s("c1")));
    let long = BestiaryList { creatures: vec![CreatureSummary { id: s("l"), name: "é".repeat(150), family_name: None, level: 1, level_max: 1 }] };
    assert_eq!(creature_choices_of(&long)[0].0.chars().count(), 100);
    assert_eq!(first_creature_id(&list), Some(s("c0")));
    assert_eq!(first_creature_id(&BestiaryList { creatures: vec![] }), None);
}

#[test]
fn recipes_views() {
    assert!(recipes_shown(0) == RecipesShown::NoMatch);
    assert!(recipes_shown(1) == RecipesShown::Detail);
    assert!(recipes_shown(2) == RecipesShown::List);
    assert_eq!(Job::Fisherman.api(), "FISHERMAN");
    assert_eq!(Job::Fisherman.display_name(), "Pêcheur");
    let recipe = |i: usize| Recipe { id: format!("r{i}"), name: format!("R{i}"), job: None, amount: 1, output: None, ingredients: vec![] };
    let rs: Vec<Recipe> = (0..27).map(recipe).collect();
    let e = recipe_list("Mineur", &rs);
    assert_eq!(e.title, "🛠️ Recettes — Mineur (27)");
    let d = e.description.unwrap();
    assert!(d.contains("• **R24** (0 ingrédients)\n…et 2 autres.\n"));
    assert!(!d.contains("R25"));
    let r = Recipe {
        id: s("sword"),
        name: s("Épée"),
        job: Some(s("BLACKSMITH")),
        amount: 2,
        output: None,
        ingredients: vec![Ingredient { id: s("iron_ingot"), amount: 3, kind: None }],
    };
    let out = Item { id: s("sword"), name: s("Épée"), rarity: Some(s("epic")), image: Some(s("aGk=")), level: None, kind: None };
    let name = resolve_name(None, "iron_ingot");
    assert_eq!(name, "Iron Ingot");
    let det = recipe_detail(&r, Some(&out), &vec![name]);
    assert_eq!(det.embed.colour, 0x9C27B0);
    let f: Vec<(&str, &str)> = det.embed.fields.iter().map(|f| (f.name.as_str(), f.value.as_str())).collect();
    assert_eq!(f, vec![("Ingrédients", "• **Iron Ingot** ×3\n"), ("Produit", "×2"), ("Métier", "BLACKSMITH")]);
    assert_eq!(det.image.unwrap().bytes, b"hi".to_vec());
    let none = recipe_detail(&Recipe { ingredients: vec![], amount: 0, job: None, ..r }, None, &vec![]);
    assert_eq!(none.embed.fields[0].value, "*Aucun ingrédient.*");
    assert_eq!(none.embed.fields[1].value, "×1");
    assert!(none.image.is_none());
}

#[test]
fn pong_reports_latency() {
    assert_eq!(pong_text(42), "🏓 Pong ! Latence : 42 ms");
    assert_eq!(pong_text(0), "🏓 Pong ! Latence : 0 ms");
    assert_eq!(pong_text(u128::MAX), format!("🏓 Pong ! Latence : {} ms", u128::MAX));
}

#[test]
fn key_order_is_checked() {
    let ordered = set("A", vec![("2", vec![("AGILITY", 1), ("STRENGTH", 5)]), ("4", vec![("HEALTH", 7)])]);
    assert!(ordered.in_key_order());
    let stats_out_of_order = set("A", vec![("2", vec![("STRENGTH", 5), ("AGILITY", 1)])]);
    assert!(!stats_out_of_order.in_key_order());
    let tiers_out_of_order = set("A", vec![("4", vec![]), ("2", vec![])]);
    assert!(!tiers_out_of_order.in_key_order());
    let repeated = set("A", vec![("2", vec![]), ("2", vec![])]);
    assert!(!repeated.in_key_order());
    let obj = |es: Vec<(&str, JsonValue)>| JsonValue::Object(es.into_iter().map(|(k, v)| (s(k), v)).collect());
    let good = obj(vec![("a", JsonValue::Null), ("b", JsonValue::Array(vec![obj(vec![("x", JsonValue::Bool(true)), ("y", JsonValue::Null)])]))]);
    assert!(good.in_key_order());
    let nested_bad = obj(vec![("a", JsonValue::Array(vec![obj(vec![("y", JsonValue::Null), ("x", JsonValue::Null)])]))]);
    assert!(!nested_bad.in_key_order());
    assert!(JsonValue::Str(s("z")).in_key_order());
}

#[test]
fn split_fields_takes_lines_of_the_full_size() {
    let long = "y".repeat(1024);
    let lines = vec![s("• a"), long.clone(), s("• b")];
    let fields = split_fields(&lines, "h");
    assert_eq!(fields, vec![s("*h*\n• a"), long, s("• b")]);
    for f in &fields {
        assert!(f.len() <= 1024);
    }
}
