//! Comparison forms of names, and the small readers of process facts.
use rsrpc::matching::MatchScratch;
use rsrpc::names::{
    app_id_from_args, dedot, exe_stem, is_shortcut_id, is_suspended, name_matchable,
    normalize_lowered_dedotted_into, normalize_lowered_into, normalize_name, normalize_name_into,
    parse_stat_state,
};

/// Corpus covering case, forbidden punctuation, dots, whitespace runs,
/// empties, separators, `>` prefix and non-ASCII.
const CORPUS: &[&str] = &[
    "Game Name",
    "Name: Subtitle",
    "R.E.P.O. Ghost Haul",
    "Q.U.B.E.",
    "Mr. Bomber",
    "a  b   c",
    "",
    "   ",
    "a/b\\c",
    ">game",
    "/",
    "fish",
    "École: LÉGENDE",
    "MECCHA CHAMELEON",
    "PenguinHotel-Win64-Shipping.exe",
    "  padded  ",
    "a.b.c",
    "...",
];

/// `normalize_name_into` reproduces `normalize_name` byte-for-byte.
#[test]
fn normalize_into_matches_normalize() {
    let mut lower = String::new();
    let mut out = String::new();
    for input in CORPUS {
        normalize_name_into(input, &mut lower, &mut out);
        assert_eq!(&out, &normalize_name(input), "mismatch for {input:?}");
    }
}

/// On already-lowercase input, the lowered variant (no lowercase stage)
/// matches too.
#[test]
fn normalize_lowered_into_matches_on_lowercase_input() {
    let mut out = String::new();
    for input in CORPUS {
        let lowered = input.to_ascii_lowercase();
        normalize_lowered_into(&lowered, &mut out);
        assert_eq!(&out, &normalize_name(input), "mismatch for {input:?}");
    }
}

/// The dedotted variant matches `normalize_name(&dedot(_))`: dots become
/// spaces, runs collapse, same as replace-then-normalize.
#[test]
fn normalize_lowered_dedotted_into_matches_dedot_then_normalize() {
    let mut out = String::new();
    for input in CORPUS {
        let lowered = input.to_ascii_lowercase();
        normalize_lowered_dedotted_into(&lowered, &mut out);
        assert_eq!(
            &out,
            &normalize_name(&dedot(input)),
            "mismatch for {input:?}"
        );
    }
}

/// Scratch buffers are stable across calls: no reallocations on repeated
/// use.
#[test]
fn match_scratch_buffers_are_stable() {
    let mut scratch = MatchScratch::default();
    let mut lower = String::new();
    normalize_name_into("Some Game: Title", &mut lower, &mut scratch.norm_out);
    normalize_lowered_into("some game title", &mut scratch.norm_out);
    let out_ptr = scratch.norm_out.as_ptr();
    let out_cap = scratch.norm_out.capacity();
    let lower_ptr = lower.as_ptr();
    normalize_name_into("Other: Name Here", &mut lower, &mut scratch.norm_out);
    normalize_lowered_into("other name here", &mut scratch.norm_out);
    assert!(
        std::ptr::eq(out_ptr, scratch.norm_out.as_ptr()),
        "norm_out moved"
    );
    assert!(std::ptr::eq(lower_ptr, lower.as_ptr()), "lower moved");
    assert!(scratch.norm_out.capacity() >= out_cap);
}

#[test]
fn normal_forms_are_exact() {
    assert_eq!(normalize_name("Name: Subtitle"), "name subtitle");
    assert_eq!(normalize_name("a  b   c"), "a b c");
    assert_eq!(normalize_name("  padded  "), "padded");
    assert_eq!(normalize_name("MECCHA CHAMELEON"), "meccha chameleon");
    assert_eq!(dedot("Q.U.B.E."), "Q U B E ");
    assert_eq!(normalize_name(&dedot("Q.U.B.E.")), "q u b e");
}

#[test]
fn normal_forms_are_stable() {
    for input in CORPUS {
        let once = normalize_name(input);
        assert_eq!(normalize_name(&once), once);
        assert_eq!(normalize_name(&input.to_ascii_uppercase()), once);
        let padded = format!("  {input}\t");
        assert_eq!(normalize_name(&padded), once);
    }
}

#[test]
fn single_words_never_match_by_name() {
    assert!(!name_matchable("fish"));
    assert!(!name_matchable(""));
    assert!(name_matchable("meccha chameleon"));
}

#[test]
fn stems_drop_directory_and_extension() {
    assert_eq!(exe_stem("/games/swapgame.exe"), "swapgame");
    assert_eq!(exe_stem("swapgame"), "swapgame");
}

#[test]
fn stat_state_follows_the_last_bracket() {
    assert_eq!(parse_stat_state("12 (a) b) T 1 2"), Some('T'));
    assert_eq!(parse_stat_state("12 (game) S 1 2"), Some('S'));
    assert_eq!(parse_stat_state("no brackets"), None);
    assert!(is_suspended(Some("12 (game) T 1 2")));
    assert!(!is_suspended(Some("12 (game) S 1 2")));
    assert!(!is_suspended(None));
}

#[test]
fn launcher_ids_stand_alone() {
    assert_eq!(
        app_id_from_args(Some("SteamLaunch AppId=4508340 -- game")),
        Some("4508340")
    );
    assert_eq!(app_id_from_args(Some("MyAppId=12")), None);
    assert_eq!(app_id_from_args(Some("AppId=")), None);
    assert_eq!(app_id_from_args(None), None);
}

#[test]
fn shortcut_ids_have_the_high_bit() {
    assert!(is_shortcut_id("2147483648"));
    assert!(!is_shortcut_id("2147483647"));
    assert!(!is_shortcut_id("game"));
}
