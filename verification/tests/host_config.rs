use battle_royale::host_config::{parse_match_ids, ConfigError};
use battle_royale::match_types::BattleMatchId;

#[test]
fn parses_ordered_match_ids() {
    assert_eq!(
        parse_match_ids("7,11,42").unwrap(),
        vec![
            BattleMatchId::new(7),
            BattleMatchId::new(11),
            BattleMatchId::new(42),
        ]
    );
}

#[test]
fn rejects_empty_and_invalid_match_ids() {
    assert_eq!(
        parse_match_ids("").unwrap_err(),
        ConfigError("BATTLE_ROYALE_MATCH_IDS must not be empty".to_owned())
    );
    assert!(parse_match_ids("7,nope").is_err());
    assert!(parse_match_ids("7,").is_err());
}

#[test]
fn invalid_ids_are_reported_as_the_standard_parser_words_them() {
    assert_eq!(
        parse_match_ids("7,nope").unwrap_err(),
        ConfigError(
            "BATTLE_ROYALE_MATCH_IDS contains invalid match id \"nope\": invalid digit found in string"
                .to_owned()
        )
    );
    assert_eq!(
        parse_match_ids("7,").unwrap_err(),
        ConfigError(
            "BATTLE_ROYALE_MATCH_IDS contains invalid match id \"\": cannot parse integer from empty string"
                .to_owned()
        )
    );
    assert_eq!(
        parse_match_ids("18446744073709551616").unwrap_err(),
        ConfigError(
            "BATTLE_ROYALE_MATCH_IDS contains invalid match id \"18446744073709551616\": number too large to fit in target type"
                .to_owned()
        )
    );
    assert_eq!(
        parse_match_ids("a\"b,1").unwrap_err(),
        ConfigError(
            "BATTLE_ROYALE_MATCH_IDS contains invalid match id \"a\\\"b\": invalid digit found in string"
                .to_owned()
        )
    );
}

#[test]
fn match_ids_follow_the_standard_unsigned_syntax() {
    assert_eq!(
        parse_match_ids("+5,18446744073709551615").unwrap(),
        vec![BattleMatchId::new(5), BattleMatchId::new(u64::MAX)]
    );
    assert!(parse_match_ids("-5").is_err());
    assert!(parse_match_ids("+").is_err());
    assert!(parse_match_ids(" 5").is_err());
    assert_eq!(
        parse_match_ids("é,2").unwrap_err(),
        ConfigError(
            "BATTLE_ROYALE_MATCH_IDS contains invalid match id \"é\": invalid digit found in string"
                .to_owned()
        )
    );
    for (text, expected) in [("1", true), ("1,2,3", true), (",1", false), ("1,,2", false)] {
        assert_eq!(parse_match_ids(text).is_ok(), expected);
        assert_eq!(
            parse_match_ids(text).is_ok(),
            text.split(',').all(|raw| raw.parse::<u64>().is_ok())
        );
    }
}
