use minebox_bot::api::{bestiary_request, creature_request, market_bazaar_request, player_request, url_of, EquipmentSet};
use minebox_bot::util::progress_fits_check;
use minebox_bot::text::{decimal_string, fit_bytes, parse_u32, parse_u64};
use minebox_bot::util::{
    decode_image, discord_relative, is_whitespace, prettify_id, range, rarity_color, rarity_dot, rarity_of,
    relative_tag, skill_level, skill_progress, thousands, Rarity,
};

#[test]
fn thousands_groups_by_three() {
    assert_eq!(thousands(1234567), "1\u{202f}234\u{202f}567");
    assert_eq!(thousands(0), "0");
    assert_eq!(thousands(999), "999");
    assert_eq!(thousands(1000), "1\u{202f}000");
    assert_eq!(thousands(-1234), "-1\u{202f}234");
    assert_eq!(thousands(i64::MIN), "-9\u{202f}223\u{202f}372\u{202f}036\u{202f}854\u{202f}775\u{202f}808");
}

#[test]
fn thousands_without_spaces_is_decimal() {
    for n in [0i64, 7, 12, 1005, 1_000_000, -42, -987_654_321, i64::MAX] {
        assert_eq!(thousands(n).replace('\u{202f}', ""), n.to_string());
    }
}

#[test]
fn decimal_matches_to_string() {
    for n in [0i64, 9, 10, 123, -1, i64::MIN, i64::MAX] {
        assert_eq!(decimal_string(n), n.to_string());
    }
}

#[test]
fn range_forms() {
    assert_eq!(range(&[5]), "5");
    assert_eq!(range(&[5, 5]), "5");
    assert_eq!(range(&[5, 8]), "5\u{2013}8");
    assert_eq!(range(&[5, 8, 12]), "5\u{2013}8");
    assert_eq!(range(&[]), "?");
    assert_eq!(range(&[-3, 2]), "-3\u{2013}2");
}

#[test]
fn prettify_ids() {
    assert_eq!(prettify_id("red_wood_superplaque"), "Red Wood Superplaque");
    assert_eq!(prettify_id("ingot-opale"), "Ingot Opale");
    assert_eq!(prettify_id("__a__b-"), "A B");
    assert_eq!(prettify_id(""), "");
    assert_eq!(prettify_id("éclat_ß"), "Éclat SS");
}

#[test]
fn prettify_is_idempotent_on_ascii() {
    for id in ["red_wood_superplaque", "__a__b-", "x", "", "9_lives", "Already Pretty"] {
        let once = prettify_id(id);
        assert!(!once.contains('_') && !once.contains('-'));
        assert_eq!(prettify_id(&once), once);
    }
}

#[test]
fn rarity_colours_and_dots() {
    assert_eq!(rarity_color(Some("LEGENDARY")), 0xFF9800);
    assert_eq!(rarity_color(Some("legendary")), 0xFF9800);
    assert_eq!(rarity_color(Some("contraband")), 0x00BCD4);
    assert_eq!(rarity_color(Some("prototype")), 0x00BCD4);
    assert_eq!(rarity_color(None), 0x5865F2);
    assert_eq!(rarity_color(Some("???")), 0x5865F2);
    assert_eq!(rarity_dot(Some("Rare")), "🔵");
    assert_eq!(rarity_dot(Some("trash")), "⚪");
    assert_eq!(rarity_dot(Some("common")), "⚪");
    assert_eq!(rarity_dot(None), "▫️");
    assert!(rarity_of(Some("Mythic")) == Rarity::Mythic);
}

#[test]
fn decode_image_with_and_without_data_uri() {
    assert_eq!(decode_image("aGVsbG8="), Some(b"hello".to_vec()));
    assert_eq!(decode_image("data:image/png;base64,aGVsbG8="), Some(b"hello".to_vec()));
    assert_eq!(decode_image("  aGVsbG8=\n"), Some(b"hello".to_vec()));
    assert_eq!(decode_image("not base64!"), None);
}

#[test]
fn discord_relative_tags() {
    assert_eq!(discord_relative("1970-01-01T00:00:10Z"), Some("<t:10:R>".to_string()));
    assert_eq!(discord_relative("2024-01-01T01:00:00+01:00"), Some("<t:1704067200:R>".to_string()));
    assert_eq!(discord_relative("hier"), None);
    assert_eq!(relative_tag(-5), "<t:-5:R>");
}

#[test]
fn skill_progress_levels() {
    let curve = [0i64, 100, 200, 300];
    assert_eq!(skill_level(0, &curve), 1);
    assert_eq!(skill_level(99, &curve), 1);
    assert_eq!(skill_level(100, &curve), 2);
    assert_eq!(skill_level(299, &curve), 2);
    assert_eq!(skill_level(300, &curve), 3);
    assert_eq!(skill_level(600, &curve), 4);
    assert_eq!(skill_level(10_000, &curve), 4);
    let p = skill_progress(150, &curve);
    assert_eq!((p.level, p.into_level, p.level_span), (2, 50, 200));
    let top = skill_progress(700, &curve);
    assert_eq!((top.level, top.into_level, top.level_span), (4, 0, 0));
    assert_eq!(skill_level(5, &[]), 1);
    assert_eq!(skill_level(5, &[0]), 1);
    let neg = skill_progress(-1, &[0, 0]);
    assert_eq!((neg.level, neg.into_level, neg.level_span), (1, -1, 0));
}

#[test]
fn skill_level_never_drops_with_more_xp() {
    let curve = [0i64, 50, 0, 70, 10];
    let mut last = 0;
    for xp in -10..200 {
        let l = skill_level(xp, &curve);
        assert!(l >= last);
        last = l;
    }
}

#[test]
fn parse_numbers_like_std() {
    for s in ["0", "42", "+7", "007", "4294967295", "4294967296", "", "+", "-1", "1a", " 1"] {
        assert_eq!(parse_u32(s), s.parse::<u32>().ok(), "{s}");
        assert_eq!(parse_u64(s), s.parse::<u64>().ok(), "{s}");
    }
    assert_eq!(parse_u64("18446744073709551615"), Some(u64::MAX));
    assert_eq!(parse_u64("18446744073709551616"), None);
    for n in [0u32, 9, 10, 65535, u32::MAX] {
        assert_eq!(parse_u32(&n.to_string()), Some(n));
    }
}

#[test]
fn fit_keeps_longest_fitting_prefix() {
    assert_eq!(fit_bytes("héllo".to_string(), 3), "hé");
    assert_eq!(fit_bytes("héllo".to_string(), 2), "h");
    assert_eq!(fit_bytes("abc".to_string(), 10), "abc");
    assert_eq!(fit_bytes("abcdef".to_string(), 0), "");
    assert_eq!(fit_bytes("🐾🐾".to_string(), 7), "🐾");
}

#[test]
fn overflow_checks_before_levels() {
    assert!(progress_fits_check(10, &[0, 5, 5]));
    assert!(!progress_fits_check(i64::MAX, &[0, i64::MAX, 1]));
    assert!(progress_fits_check(0, &[0, i64::MAX, 1]));
    assert!(progress_fits_check(i64::MAX, &[0, i64::MIN, 1]));
    assert!(!progress_fits_check(0, &[0, i64::MIN, -1]));
    assert!(progress_fits_check(5, &[]));
}

#[test]
fn set_power_overflow_check() {
    let big = EquipmentSet {
        id: "a".to_string(),
        name: "A".to_string(),
        bonuses: vec![("2".to_string(), vec![("X".to_string(), i64::MAX), ("Y".to_string(), 1)])],
    };
    assert!(!big.power_fits_check());
    let ok = EquipmentSet {
        id: "b".to_string(),
        name: "B".to_string(),
        bonuses: vec![("2".to_string(), vec![("X".to_string(), i64::MAX), ("Y".to_string(), -1)])],
    };
    assert!(ok.power_fits_check());
    assert_eq!(ok.power(), i64::MAX - 1);
}

#[test]
fn request_paths_and_queries() {
    let r = bestiary_request("loup", "fr");
    assert_eq!(r.path, "/bestiary");
    assert_eq!(
        r.query,
        vec![
            ("search".to_string(), "loup".to_string()),
            ("pageSize".to_string(), "25".to_string()),
            ("locale".to_string(), "fr".to_string())
        ]
    );
    assert_eq!(creature_request("wolf", "fr").path, "/bestiary/wolf");
    assert_eq!(market_bazaar_request("x", 10).query[1], ("limit".to_string(), "10".to_string()));
    assert_eq!(url_of(&player_request("Bob").path), "https://api.minebox.co/data/Bob");
}

#[test]
fn whitespace_matches_std_on_every_char() {
    let mut count = 0;
    for u in 0..=0x10FFFFu32 {
        if let Some(c) = char::from_u32(u) {
            assert_eq!(is_whitespace(c), c.is_whitespace(), "U+{u:04X}");
            if is_whitespace(c) {
                count += 1;
            }
        }
    }
    assert_eq!(count, 25);
}

#[test]
fn level_grows_with_xp_on_nonnegative_curves() {
    let curve = vec![0i64, 100, 0, 250, 400];
    let mut last = 1;
    for xp in -50..900 {
        assert!(progress_fits_check(xp, &curve));
        let l = skill_level(xp, &curve);
        assert!(1 <= l && l <= 5);
        assert!(l >= last);
        assert_eq!(l, skill_progress(xp, &curve).level);
        last = l;
    }
    assert_eq!(skill_level(i64::MIN, &curve), 1);
    assert_eq!(skill_level(i64::MAX, &curve), 5);
    assert!(progress_fits_check(i64::MIN, &[]));
    assert_eq!(skill_level(7, &[]), 1);
}
