use dotenv_enum::env_errors::InvalidIdentifier;
use dotenv_enum::registry::{find_key, EnvGroup};

fn names(list: &[&str]) -> Vec<String> {
    list.iter().map(|w| w.to_string()).collect()
}

fn group(name: &str, members: &[&str]) -> EnvGroup {
    EnvGroup::declare(name, &names(members)).unwrap()
}

fn keys(g: &EnvGroup) -> Vec<String> {
    let mut out = Vec::new();
    for v in g.members() {
        out.push(v.get_key());
    }
    out
}

#[test]
fn members_come_in_the_order_of_declaration() {
    let g = group("LocationsEnv", &["Folder", "File"]);
    assert_eq!(g.len(), 2);
    assert_eq!(keys(&g), names(&["LOCATIONS_FOLDER", "LOCATIONS_FILE"]));
    assert_eq!(keys(&g), keys(&g));
    assert_eq!(g.members()[0].get_member(), "Folder");
    assert_eq!(g.members()[1].get_member(), "File");
    assert_eq!(g.members()[1].get_grouping(), "LocationsEnv");
    assert_eq!(g.get_name(), "LocationsEnv");
}

#[test]
fn members_of_one_grouping_have_keys_that_differ() {
    let g = group("SettingsEnv", &["ResolutionWidth", "ResolutionHeight"]);
    assert_eq!(keys(&g), names(&["SETTINGS_RESOLUTION_WIDTH", "SETTINGS_RESOLUTION_HEIGHT"]));
    assert!(g.has_distinct_keys());
}

#[test]
fn when_comparing_elements_they_are_all_different() {
    for g in [
        group("AnEnv", &["Lol", "TeamJaws", "Mdr"]),
        group("En", &["Kappa", "Pog", "Mdr"]),
        group("TheEnumNameEnv", &["ValueOne", "ValueTwo"]),
        group("Lonely", &["One"]),
        group("Empty", &[]),
    ] {
        assert!(g.has_distinct_keys());
        let all = keys(&g);
        for i in 0..all.len() {
            for j in 0..all.len() {
                if i != j {
                    assert_ne!(all[i], all[j]);
                }
            }
        }
    }
}

#[test]
fn shared_keys_are_found_out() {
    assert!(!group("AnEnv", &["AB", "A_B"]).has_distinct_keys());
    assert!(!group("AnEnv", &["Lol", "Mdr", "lol"]).has_distinct_keys());
    assert!(!group("AnEnv", &["Mdr", "Lol", "Pog", "Lol"]).has_distinct_keys());
    assert!(!group("AnEnv", &["Lol", "Lol"]).has_distinct_keys());
}

#[test]
fn when_looking_from_string_you_can_get_the_enum_value() {
    let g = group("AnEnv", &["Lol", "TeamJaws", "Mdr"]);
    assert_eq!(g.get_enum_value_from_key("AN_MDR"), Some(&g.members()[2]));
    assert!(g.does_key_exist("AN_MDR"));
    assert_eq!(g.get_enum_value_from_key("LOLLL"), None);
    assert!(!g.does_key_exist("LOLLL"));
}

#[test]
fn key_exists_where_a_member_has_it() {
    let g = group("TheEnumNameEnv", &["ValueOne", "ValueTwo"]);
    assert!(g.does_key_exist("THE_ENUM_NAME_VALUE_ONE"));
    assert!(!g.does_key_exist("THE_ENUM_NAME_VALUE_THREE"));
    assert_eq!(
        g.get_enum_value_from_key("THE_ENUM_NAME_VALUE_ONE").map(|v| v.get_member()),
        Some("ValueOne")
    );
    assert_eq!(g.get_enum_value_from_key("THE_ENUM_NAME_VALUE_THREE"), None);
    assert_eq!(g.position_of_key("THE_ENUM_NAME_VALUE_TWO"), Some(1));
    assert_eq!(g.position_of_key("THE_ENUM_NAME_VALUE_THREE"), None);
    assert_eq!(g.position_of_key("the_enum_name_value_two"), None);
}

#[test]
fn looking_a_key_up_gives_its_member_back() {
    for g in [
        group("AnEnv", &["Lol", "TeamJaws", "Mdr"]),
        group("En", &["Kappa", "Pog", "Mdr"]),
        group("SettingsEnv", &["ResolutionWidth", "ResolutionHeight"]),
    ] {
        for (at, member) in g.members().iter().enumerate() {
            let key = member.get_key();
            assert_eq!(g.position_of_key(&key), Some(at));
            assert_eq!(g.get_enum_value_from_key(&key), Some(member));
            assert!(g.does_key_exist(&key));
        }
    }
}

#[test]
fn first_member_wins_where_a_key_is_shared() {
    let g = group("AnEnv", &["Mdr", "AB", "A_B"]);
    assert_eq!(g.position_of_key("AN_A_B"), Some(1));
    assert_eq!(g.get_enum_value_from_key("AN_A_B").map(|v| v.get_member()), Some("AB"));
}

#[test]
fn nothing_is_found_in_a_grouping_without_members() {
    let g = group("AnEnv", &[]);
    assert_eq!(g.len(), 0);
    assert!(g.members().is_empty());
    assert_eq!(g.position_of_key("AN_LOL"), None);
    assert!(!g.does_key_exist(""));
    assert!(g.has_distinct_keys());
}

#[test]
fn declaration_is_refused_where_an_identifier_holds_no_word() {
    assert_eq!(EnvGroup::declare("", &names(&["Lol"])), Err(InvalidIdentifier));
    assert_eq!(EnvGroup::declare("__", &names(&[])), Err(InvalidIdentifier));
    assert_eq!(EnvGroup::declare("AnEnv", &names(&["Lol", " ", "Mdr"])), Err(InvalidIdentifier));
    assert_eq!(EnvGroup::declare("AnEnv", &names(&["Lol", "Mdr", "_"])), Err(InvalidIdentifier));
}

#[test]
fn first_place_of_a_key_is_found() {
    let keys = names(&["AN_LOL", "AN_TEAM_JAWS", "AN_MDR", "AN_TEAM_JAWS"]);
    assert_eq!(find_key(&keys, "AN_LOL"), Some(0));
    assert_eq!(find_key(&keys, "AN_TEAM_JAWS"), Some(1));
    assert_eq!(find_key(&keys, "AN_MDR"), Some(2));
    assert_eq!(find_key(&keys, "LOLLL"), None);
    assert_eq!(find_key(&keys, ""), None);
    assert_eq!(find_key(&names(&[]), "AN_LOL"), None);
}
