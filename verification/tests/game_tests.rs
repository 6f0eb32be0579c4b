use wowsunpacker::game::{
    find_game_id, is_known_publisher, GameDirectory, GameLanguages, GameServer,
};

#[test]
fn test_game_languages() {
    let langs = GameLanguages::JA;
    assert_eq!(langs.to_filename(), "ja.json");
    assert_eq!(langs.to_folder_string(), "ja");
}

#[test]
fn every_language_has_its_folder() {
    let folders: Vec<String> = GameLanguages::values()
        .iter()
        .map(|language| language.to_folder_string())
        .collect();
    assert_eq!(
        folders,
        vec![
            "cs", "de", "en", "es", "es_mx", "fr", "it", "ja", "ko", "nl", "pl", "pt", "pt_br",
            "ru", "th", "uk", "zh", "zh_sg", "zh_tw"
        ]
    );
}

#[test]
fn file_names_end_in_json() {
    assert_eq!(GameLanguages::ZH_TW.to_filename(), "zh_tw.json");
    assert_eq!(GameLanguages::EN.to_filename(), "en.json");
}

#[test]
fn servers_by_id() {
    assert_eq!(GameServer::from_string("WOWS.WW.PRODUCTION"), GameServer::WW);
    assert_eq!(GameServer::from_string("WOWS.CN.PRODUCTION"), GameServer::CN);
    assert_eq!(GameServer::from_string("WOWS.PT.PRODUCTION"), GameServer::PT);
    assert_eq!(GameServer::from_string("WOWS.RU.PRODUCTION"), GameServer::XX);
    assert_eq!(GameServer::from_string(""), GameServer::XX);
}

#[test]
fn servers_by_number() {
    assert_eq!(GameServer::from_number(0), GameServer::WW);
    assert_eq!(GameServer::from_number(1), GameServer::CN);
    assert_eq!(GameServer::from_number(2), GameServer::PT);
    assert_eq!(GameServer::from_number(3), GameServer::XX);
    assert_eq!(GameServer::from_number(-1), GameServer::XX);
}

#[test]
fn known_publishers() {
    assert!(is_known_publisher("Wargaming.net"));
    assert!(is_known_publisher("Wargaming Group Limited"));
    assert!(is_known_publisher("360.cn"));
    assert!(is_known_publisher("Lesta Games"));
    assert!(!is_known_publisher("wargaming.net"));
    assert!(!is_known_publisher("Wargaming.net "));
    assert!(!is_known_publisher(""));
}

#[test]
fn game_id_stands_behind_its_tag() {
    let xml = "<?xml version=\"1.0\"?>\n<protocol>\n  <game>\n    <id>WOWS.WW.PRODUCTION</id>\n    \
               <id>SECOND</id>\n  </game>\n</protocol>\n";
    assert_eq!(find_game_id(xml).unwrap(), "WOWS.WW.PRODUCTION");
    assert_eq!(find_game_id("<id></id>").unwrap(), "");
    assert_eq!(find_game_id("<i<id>x<").unwrap(), "x");
    assert!(find_game_id("<id>never closed").is_none());
    assert!(find_game_id("<ID>X</ID>").is_none());
    assert!(find_game_id("<id").is_none());
    assert!(find_game_id("").is_none());
}

#[test]
fn game_directory_keeps_one_path_for_each_server() {
    let mut directory = GameDirectory::new();
    assert!(directory.get_game_directory(&GameServer::WW).is_none());
    assert!(directory.available_path().is_empty());
    assert!(directory.available_server().is_empty());
    directory.insert(GameServer::PT, "D:/pt".to_string());
    directory.insert(GameServer::WW, "C:/old".to_string());
    directory.insert(GameServer::WW, "C:/ww".to_string());
    directory.insert(GameServer::XX, "E:/other".to_string());
    assert_eq!(directory.get_game_directory(&GameServer::WW).unwrap(), "C:/ww");
    assert_eq!(directory.get_game_directory(&GameServer::PT).unwrap(), "D:/pt");
    assert_eq!(directory.get_game_directory(&GameServer::XX).unwrap(), "E:/other");
    assert!(directory.get_game_directory(&GameServer::CN).is_none());
    assert_eq!(directory.available_path(), vec!["C:/ww", "D:/pt"]);
    assert_eq!(directory.available_server(), vec![GameServer::WW, GameServer::PT]);
}
