use boards_api::board::{Board, Card, List, fallback_board};
use boards_api::codec::{board_to_json, decode_board};

fn s(x: &str) -> String {
    String::from(x)
}

fn scenario_board() -> Board {
    Board {
        seed: 1,
        url: s("a"),
        members: Vec::new(),
        lists: Vec::new(),
        cards: Vec::new(),
        currency: s("SOL"),
    }
}

const SCENARIO_JSON: &str =
    "{\"Board\":{\"seed\":1,\"url\":\"a\",\"members\":[],\"lists\":[],\"cards\":[],\"currency\":\"SOL\"}}";

#[test]
fn encode_scenario_board_exact_text() {
    assert_eq!(board_to_json(&scenario_board()), SCENARIO_JSON);
}

#[test]
fn decode_scenario_text() {
    let b = decode_board(SCENARIO_JSON).unwrap();
    assert_eq!(b, scenario_board());
}

#[test]
fn round_trip_scenario_board() {
    let b = scenario_board();
    assert_eq!(decode_board(board_to_json(&b).as_str()).unwrap(), b);
}

#[test]
fn round_trip_fallback_board() {
    let b = fallback_board();
    assert_eq!(decode_board(board_to_json(&b).as_str()).unwrap(), b);
}

#[test]
fn round_trip_full_board() {
    let b = Board {
        seed: 4294967295,
        url: s("https://example.invalid/b?id=1&x=2"),
        members: vec![s("alice"), s("bob"), s("")],
        lists: vec![
            List { list_id: 2, name: s("todo"), bounty_payout_percentage: 50 },
            List { list_id: 3, name: s("done"), bounty_payout_percentage: 0 },
        ],
        cards: vec![
            Card { card_id: 7, list_id: 2, bounty: 18446744073709551615 },
            Card { card_id: 8, list_id: 3, bounty: 0 },
        ],
        currency: s("SOL"),
    };
    assert_eq!(decode_board(board_to_json(&b).as_str()).unwrap(), b);
}

#[test]
fn round_trip_escaped_strings() {
    let b = Board {
        seed: 0,
        url: s("quote \" and backslash \\ inside"),
        members: vec![s("\\"), s("\"")],
        lists: vec![List { list_id: 1, name: s("a\"b\\c"), bounty_payout_percentage: 1 }],
        cards: Vec::new(),
        currency: s("\"\\"),
    };
    assert_eq!(decode_board(board_to_json(&b).as_str()).unwrap(), b);
}

#[test]
fn decode_garbage_yields_nothing() {
    assert!(decode_board("this is not json").is_none());
    assert!(decode_board("").is_none());
    assert!(decode_board("{").is_none());
    assert!(decode_board("[1,2,3]").is_none());
}

#[test]
fn decode_truncated_yields_nothing() {
    let full = board_to_json(&scenario_board());
    let cut = &full[..full.len() - 3];
    assert!(decode_board(cut).is_none());
}

#[test]
fn decode_trailing_data_yields_nothing() {
    let mut full = board_to_json(&scenario_board());
    full.push('x');
    assert!(decode_board(full.as_str()).is_none());
}

#[test]
fn decode_rejects_leading_zero_numeral() {
    let t =
        "{\"Board\":{\"seed\":01,\"url\":\"a\",\"members\":[],\"lists\":[],\"cards\":[],\"currency\":\"SOL\"}}";
    assert!(decode_board(t).is_none());
}

#[test]
fn decode_rejects_seed_out_of_range() {
    let t =
        "{\"Board\":{\"seed\":4294967296,\"url\":\"a\",\"members\":[],\"lists\":[],\"cards\":[],\"currency\":\"SOL\"}}";
    assert!(decode_board(t).is_none());
}

#[test]
fn decode_rejects_bounty_past_range() {
    let t = "{\"Board\":{\"seed\":1,\"url\":\"a\",\"members\":[],\"lists\":[],\"cards\":[{\"card_id\":1,\"list_id\":1,\"bounty\":18446744073709551616}],\"currency\":\"SOL\"}}";
    assert!(decode_board(t).is_none());
}

#[test]
fn decode_accepts_bounty_at_range_limit() {
    let t = "{\"Board\":{\"seed\":1,\"url\":\"a\",\"members\":[],\"lists\":[],\"cards\":[{\"card_id\":1,\"list_id\":1,\"bounty\":18446744073709551615}],\"currency\":\"SOL\"}}";
    let b = decode_board(t).unwrap();
    assert_eq!(b.cards[0].bounty, 18446744073709551615);
}

#[test]
fn decode_accepts_whitespace() {
    let t = " {\n  \"Board\" : {\t\"seed\": 1 , \"url\": \"a\", \"members\": [ ] ,\n \"lists\": [],  \"cards\": [] , \"currency\": \"SOL\" } }  ";
    let b = decode_board(t).unwrap();
    assert_eq!(b, scenario_board());
}

#[test]
fn decode_accepts_members_in_any_order() {
    let t = "{\"Board\":{\"currency\":\"SOL\",\"cards\":[],\"lists\":[],\"members\":[],\"url\":\"a\",\"seed\":1}}";
    let b = decode_board(t).unwrap();
    assert_eq!(b, scenario_board());
}

#[test]
fn decode_accepts_standard_escapes() {
    let t = "{\"Board\":{\"seed\":1,\"url\":\"a\\n\\t\\u0041\\/\",\"members\":[],\"lists\":[],\"cards\":[],\"currency\":\"\\u20AC\"}}";
    let b = decode_board(t).unwrap();
    assert_eq!(b.url, "a\n\tA/");
    assert_eq!(b.currency, "\u{20AC}");
}

#[test]
fn decode_accepts_escaped_key() {
    let t = "{\"Board\":{\"\\u0073eed\":1,\"url\":\"a\",\"members\":[],\"lists\":[],\"cards\":[],\"currency\":\"SOL\"}}";
    let b = decode_board(t).unwrap();
    assert_eq!(b.seed, 1);
}

#[test]
fn decode_rejects_unknown_member() {
    let t = "{\"Board\":{\"seed\":1,\"url\":\"a\",\"members\":[],\"lists\":[],\"cards\":[],\"currency\":\"SOL\",\"extra\":1}}";
    assert!(decode_board(t).is_none());
}

#[test]
fn decode_rejects_duplicate_member() {
    let t = "{\"Board\":{\"seed\":1,\"seed\":2,\"url\":\"a\",\"members\":[],\"lists\":[],\"cards\":[],\"currency\":\"SOL\"}}";
    assert!(decode_board(t).is_none());
}

#[test]
fn decode_rejects_missing_member() {
    let t = "{\"Board\":{\"seed\":1,\"url\":\"a\",\"members\":[],\"lists\":[],\"cards\":[]}}";
    assert!(decode_board(t).is_none());
}

#[test]
fn decode_rejects_surrogate_escape() {
    let t = "{\"Board\":{\"seed\":1,\"url\":\"\\uD83D\\uDE00\",\"members\":[],\"lists\":[],\"cards\":[],\"currency\":\"SOL\"}}";
    assert!(decode_board(t).is_none());
}

#[test]
fn control_characters_round_trip_as_escapes() {
    let b = Board {
        seed: 0,
        url: s("line1\nline2\u{0007}"),
        members: Vec::new(),
        lists: Vec::new(),
        cards: Vec::new(),
        currency: s("\u{0000}"),
    };
    let text = board_to_json(&b);
    // the canonical text is strict JSON: control characters are escaped
    assert!(!text.contains('\n'));
    assert!(text.contains("\\u000a"));
    assert_eq!(decode_board(text.as_str()).unwrap(), b);
}

#[test]
fn encode_board_with_one_member() {
    let b = Board {
        seed: 9,
        url: s("u"),
        members: vec![s("m")],
        lists: Vec::new(),
        cards: Vec::new(),
        currency: s("c"),
    };
    assert_eq!(
        board_to_json(&b),
        "{\"Board\":{\"seed\":9,\"url\":\"u\",\"members\":[\"m\"],\"lists\":[],\"cards\":[],\"currency\":\"c\"}}"
    );
}

#[test]
fn encode_list_object_exact_text() {
    let b = Board {
        seed: 0,
        url: s(""),
        members: Vec::new(),
        lists: vec![List { list_id: 10, name: s("n"), bounty_payout_percentage: 100 }],
        cards: vec![Card { card_id: 5, list_id: 10, bounty: 42 }],
        currency: s(""),
    };
    assert_eq!(
        board_to_json(&b),
        "{\"Board\":{\"seed\":0,\"url\":\"\",\"members\":[],\"lists\":[{\"list_id\":10,\"name\":\"n\",\"bounty_payout_percentage\":100}],\"cards\":[{\"card_id\":5,\"list_id\":10,\"bounty\":42}],\"currency\":\"\"}}"
    );
}
