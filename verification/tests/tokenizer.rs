use dotenv_enum::env_errors::InvalidIdentifier;
use dotenv_enum::tokenizer::{get_env_strings, remove_underscores, split_string_on_capitalize, trim};

fn words(list: &[&str]) -> Vec<String> {
    list.iter().map(|w| w.to_string()).collect()
}

#[test]
fn trim_drops_the_whitespace_around() {
    assert_eq!(trim("  Lol Env\t\n"), "Lol Env");
    assert_eq!(trim("LolEnv"), "LolEnv");
    assert_eq!(trim("\u{b}\u{c}\r x \r"), "x");
}

#[test]
fn trim_of_whitespace_is_empty() {
    assert_eq!(trim(""), "");
    assert_eq!(trim(" \t\r\n"), "");
    assert_eq!(trim("\u{2003}\u{a0}"), "");
}

#[test]
fn trim_drops_whitespace_beyond_ascii() {
    assert_eq!(trim("\u{2003}LolÉ\u{a0}"), "LolÉ");
    assert_eq!(trim("\u{3000}é \u{3000}"), "é");
}

#[test]
fn trim_is_what_the_standard_library_gives() {
    for text in ["", " ", "a", " a", "a ", " a b ", "\t\u{a0}Été \u{2028}", "\u{200b} x"] {
        assert_eq!(trim(text), text.trim(), "{:?}", text);
    }
}

#[test]
fn underscores_are_removed_everywhere() {
    assert_eq!(remove_underscores("_Lol__Env_Ok_"), "LolEnvOk");
    assert_eq!(remove_underscores("LolEnv"), "LolEnv");
    assert_eq!(remove_underscores("___"), "");
    assert_eq!(remove_underscores(""), "");
    assert_eq!(remove_underscores("a b_c"), "a bc");
}

#[test]
fn split_keeps_the_capital_at_the_head_of_its_word() {
    assert_eq!(
        split_string_on_capitalize("LolEnv_Ok".to_string()),
        words(&["Lol", "Env_", "Ok"])
    );
}

#[test]
fn split_of_nothing_is_nothing() {
    assert_eq!(split_string_on_capitalize(String::new()), Vec::<String>::new());
}

#[test]
fn split_gives_one_word_per_capital_of_an_acronym() {
    assert_eq!(split_string_on_capitalize("ABCdef".to_string()), words(&["A", "B", "Cdef"]));
    assert_eq!(get_env_strings("ABCdef"), Ok(words(&["A", "B", "Cdef"])));
}

#[test]
fn split_starts_the_first_word_at_a_lowercase_letter() {
    assert_eq!(split_string_on_capitalize("lolEnv".to_string()), words(&["lol", "Env"]));
    assert_eq!(split_string_on_capitalize("lol".to_string()), words(&["lol"]));
}

#[test]
fn split_cuts_before_capitals_beyond_ascii() {
    assert_eq!(split_string_on_capitalize("aÉbΔ".to_string()), words(&["a", "Éb", "Δ"]));
    assert_eq!(split_string_on_capitalize("éÉ".to_string()), words(&["é", "É"]));
}

#[test]
fn split_words_spell_the_text() {
    for text in ["LolEnv_Ok", "ABCdef", "x", "teamJawsAreGo", "A_b_C", "Été9Z"] {
        let parts = split_string_on_capitalize(text.to_string());
        assert_eq!(parts.concat(), text);
        for (k, part) in parts.iter().enumerate() {
            assert!(!part.is_empty());
            assert!(part.chars().skip(1).all(|c| !c.is_uppercase()));
            if k > 0 {
                assert!(part.chars().next().unwrap().is_uppercase());
            }
        }
    }
}

#[test]
fn words_are_cut_at_underscores_and_capitals() {
    assert_eq!(get_env_strings("LolEnv_Ok"), Ok(words(&["Lol", "Env", "Ok"])));
    assert_eq!(get_env_strings("TeamJaws"), Ok(words(&["Team", "Jaws"])));
    assert_eq!(get_env_strings("team_jaws"), Ok(words(&["teamjaws"])));
}

#[test]
fn words_ignore_the_whitespace_around() {
    assert_eq!(get_env_strings("  LolEnv \n"), Ok(words(&["Lol", "Env"])));
    assert_eq!(get_env_strings("\u{2003}ÉtéEnv"), Ok(words(&["Été", "Env"])));
}

#[test]
fn words_keep_the_whitespace_inside() {
    assert_eq!(get_env_strings("Lol Env"), Ok(words(&["Lol ", "Env"])));
}

#[test]
fn an_identifier_without_a_word_is_refused() {
    assert_eq!(get_env_strings(""), Err(InvalidIdentifier));
    assert_eq!(get_env_strings("   "), Err(InvalidIdentifier));
    assert_eq!(get_env_strings("___"), Err(InvalidIdentifier));
    assert_eq!(get_env_strings(" _ "), Err(InvalidIdentifier));
}

#[test]
fn an_underscore_between_whitespace_keeps_the_inner_whitespace() {
    assert_eq!(get_env_strings("_ _"), Ok(words(&[" "])));
}
