use ovl::account::{Account, Accounts, Credential};
use ovl::catalog::GameMap;
use ovl::fabric::{fabric_url, first_loader, stable_loaders, FabricVersion, FabricVersionId};
use ovl::json::parse_json;
use ovl::play::{
    after_answer, classify_import, import_kind, install_map_from_path, quick_play, select_map,
    ImportKind, InstallStep, QuickPlay, Selection,
};
use ovl::signin::{
    bearer, device_grant, identity_token, poll_outcome, profile_account, rps_ticket, token_at,
    xbox_token, Poll,
};

fn map(id: &str) -> GameMap {
    GameMap {
        id: id.to_string(),
        name: id.to_uppercase(),
        description: String::new(),
        tags: Vec::new(),
        map_type: "map".to_string(),
        version: "1.21.5".to_string(),
    }
}

fn account(name: &str, uuid: Option<&str>, offline: bool) -> Account {
    Account { name: name.to_string(), uuid: uuid.map(String::from), offline }
}

fn names(accounts: &Accounts) -> Vec<&str> {
    accounts.accounts.iter().map(|a| a.name.as_str()).collect()
}

fn loader(version: &str, stable: bool) -> FabricVersion {
    FabricVersion { loader: FabricVersionId { version: version.to_string(), stable } }
}

#[test]
fn one_map_is_confirmed_and_several_are_chosen_from() {
    assert!(matches!(select_map(None), Selection::Nothing));
    assert!(matches!(select_map(Some(Vec::new())), Selection::Nothing));
    assert!(matches!(select_map(Some(vec![map("sky")])), Selection::Confirm(m) if m.id == "sky" && m.name == "SKY"));
    match select_map(Some(vec![map("sky"), map("bed")])) {
        Selection::Choose(list) => {
            assert_eq!(list.iter().map(|m| m.id.as_str()).collect::<Vec<_>>(), vec!["sky", "bed"])
        }
        _ => panic!("two maps are chosen from"),
    }
}

#[test]
fn an_existing_folder_is_kept_unless_asked_about() {
    assert_eq!(install_map_from_path(false, false), InstallStep::Extract);
    assert_eq!(install_map_from_path(false, true), InstallStep::Extract);
    assert_eq!(install_map_from_path(true, true), InstallStep::Ask);
    assert_eq!(install_map_from_path(true, false), InstallStep::Keep);
    assert_eq!(after_answer(true), InstallStep::Extract);
    assert_eq!(after_answer(false), InstallStep::Keep);
}

#[test]
fn a_map_goes_before_a_server() {
    assert!(matches!(quick_play(Some("World"), Some("mc.example.org")), QuickPlay::Singleplayer(w) if w == "World"));
    assert!(matches!(quick_play(None, Some("mc.example.org")), QuickPlay::Multiplayer(h) if h == "mc.example.org"));
    assert!(matches!(quick_play(Some(""), Some("mc.example.org")), QuickPlay::Menu));
    assert!(matches!(quick_play(None, Some("")), QuickPlay::Menu));
    assert!(matches!(quick_play(None, None), QuickPlay::Menu));
}

#[test]
fn tells_where_a_map_comes_from() {
    assert_eq!(import_kind("https://example.org/map.zip", false), ImportKind::Download);
    assert_eq!(import_kind("HTTPS://example.org/map.zip", false), ImportKind::Download);
    assert_eq!(import_kind("http://example.org/map.zip", false), ImportKind::NotHttps);
    assert_eq!(import_kind("ftp://example.org/map.zip", true), ImportKind::NotHttps);
    assert_eq!(import_kind("maps/sky.zip", false), ImportKind::Archive);
    assert_eq!(import_kind("/home/me/sky.zip", true), ImportKind::Archive);
    assert_eq!(import_kind("maps/sky", true), ImportKind::Folder);
    assert_eq!(import_kind("maps/sky", false), ImportKind::Invalid);
    assert_eq!(import_kind("maps/.zip", false), ImportKind::Invalid);
    assert_eq!(import_kind("sky.ZIP", false), ImportKind::Invalid);
    assert_eq!(import_kind("", false), ImportKind::Invalid);
}

#[test]
fn classifies_by_the_scheme_that_was_read() {
    assert_eq!(classify_import(Some("https"), "anything", true), ImportKind::Download);
    assert_eq!(classify_import(Some("c"), "c:/maps/sky.zip", false), ImportKind::NotHttps);
    assert_eq!(classify_import(None, "sky.zip", false), ImportKind::Archive);
    assert_eq!(classify_import(None, "a/b.zip/", true), ImportKind::Archive);
    assert_eq!(classify_import(None, "sky.zip/inner", true), ImportKind::Folder);
    assert_eq!(classify_import(None, "sky", false), ImportKind::Invalid);
}

#[test]
fn finds_and_selects_accounts() {
    let mut accounts = Accounts::single(account("Alex", Some("id-1"), false));
    assert_eq!(accounts.selected, "Alex");
    assert_eq!(accounts.find("Alex"), Some(0));
    assert_eq!(accounts.find("Steve"), None);
    accounts.upsert(account("Steve", None, true));
    assert_eq!(names(&accounts), vec!["Alex", "Steve"]);
    assert_eq!(accounts.selected, "Steve");
    assert_eq!(accounts.selected_index(), Some(1));
    accounts.upsert(account("Alex", Some("id-2"), false));
    assert_eq!(names(&accounts), vec!["Alex", "Steve"]);
    assert_eq!(accounts.accounts[0].uuid, Some("id-2".to_string()));
    assert_eq!(accounts.selected, "Alex");
    accounts.select("Nobody");
    assert_eq!(accounts.selected_index(), None);
    assert_eq!(names(&accounts), vec!["Alex", "Steve"]);
}

#[test]
fn signing_out_puts_the_first_account_left_in_use() {
    let accounts = Accounts {
        selected: "B".to_string(),
        accounts: vec![
            account("A", None, true),
            account("B", Some("b"), false),
            account("C", None, true),
            account("B", None, true),
        ],
    };
    let left = accounts.without_selected();
    assert_eq!(names(&left), vec!["A", "C"]);
    assert_eq!(left.selected, "A");
    assert_eq!(left.accounts[0].uuid, None);
    assert!(left.accounts[0].offline);
    let last = Accounts::single(account("A", None, true)).without_selected();
    assert_eq!(last.accounts.len(), 0);
    assert_eq!(last.selected, "");
}

#[test]
fn signs_in_with_the_account_in_use() {
    let mut accounts = Accounts {
        selected: "Steve".to_string(),
        accounts: vec![
            account("Alex", Some("id-1"), false),
            account("Steve", None, true),
            account("Ghost", None, false),
        ],
    };
    assert!(matches!(accounts.credential(), Credential::Offline { name } if name == "Steve"));
    accounts.select("Alex");
    assert!(matches!(accounts.credential(), Credential::Online { name, uuid } if name == "Alex" && uuid == "id-1"));
    accounts.select("Ghost");
    assert!(matches!(accounts.credential(), Credential::MissingUuid { name } if name == "Ghost"));
    accounts.select("Nobody");
    assert!(matches!(accounts.credential(), Credential::NoAccount));
}

#[test]
fn tokens_belong_to_online_accounts_with_an_identifier() {
    assert_eq!(account("Alex", Some("id-1"), false).token_owner(), Some("id-1".to_string()));
    assert_eq!(account("Alex", Some("id-1"), true).token_owner(), None);
    assert_eq!(account("Alex", None, false).token_owner(), None);
    let copy = account("Alex", Some("id-1"), false).copy();
    assert_eq!((copy.name.as_str(), copy.uuid.as_deref(), copy.offline), ("Alex", Some("id-1"), false));
}

#[test]
fn keeps_stable_loaders() {
    let catalog = vec![loader("0.16.1", false), loader("0.16.0", true), loader("0.15.9", true)];
    let stable = stable_loaders(&catalog);
    assert_eq!(
        stable.iter().map(|v| v.loader.version.as_str()).collect::<Vec<_>>(),
        vec!["0.16.0", "0.15.9"]
    );
    assert!(stable.iter().all(|v| v.loader.stable));
    assert_eq!(first_loader(&stable), Some("0.16.0".to_string()));
    assert_eq!(first_loader(&Vec::new()), None);
    assert_eq!(fabric_url("1.21.5"), "https://meta.fabricmc.net/v2/versions/loader/1.21.5");
}

#[test]
fn reads_the_device_grant() {
    let doc = parse_json(
        r#"{"user_code": "ABCD", "device_code": "dev", "verification_uri": "https://login", "interval": 5}"#,
    )
    .unwrap();
    let grant = device_grant(&doc).unwrap();
    assert_eq!(
        (grant.user_code.as_str(), grant.device_code.as_str(), grant.verification_uri.as_str()),
        ("ABCD", "dev", "https://login")
    );
    assert!(device_grant(&parse_json(r#"{"user_code": "ABCD"}"#).unwrap()).is_none());
    assert!(device_grant(&parse_json(r#"{"user_code": 1, "device_code": "d", "verification_uri": "u"}"#).unwrap()).is_none());
}

#[test]
fn reads_how_polling_ended() {
    let poll = |text: &str| poll_outcome(&parse_json(text).unwrap());
    assert!(matches!(poll(r#"{"error": "authorization_pending"}"#), Poll::Pending));
    assert!(matches!(poll(r#"{"error": "expired_token", "access_token": "t"}"#), Poll::Refused(e) if e == "expired_token"));
    assert!(matches!(poll(r#"{"access_token": "tok"}"#), Poll::Granted(t) if t == "tok"));
    assert!(matches!(poll(r#"{"error": null, "access_token": "tok"}"#), Poll::Granted(t) if t == "tok"));
    assert!(matches!(poll(r#"{}"#), Poll::Unreadable));
    assert!(matches!(poll(r#"[]"#), Poll::Unreadable));
}

#[test]
fn reads_tokens_and_the_profile() {
    let xbox = parse_json(r#"{"Token": "xbl", "DisplayClaims": {"xui": [{"uhs": "hash"}, {"uhs": "other"}]}}"#).unwrap();
    let found = xbox_token(&xbox).unwrap();
    assert_eq!((found.token.as_str(), found.user_hash.as_str()), ("xbl", "hash"));
    assert!(xbox_token(&parse_json(r#"{"Token": "xbl", "DisplayClaims": {"xui": []}}"#).unwrap()).is_none());
    assert!(xbox_token(&parse_json(r#"{"DisplayClaims": {"xui": [{"uhs": "hash"}]}}"#).unwrap()).is_none());
    assert_eq!(token_at(&xbox, "Token"), Some("xbl".to_string()));
    assert_eq!(token_at(&xbox, "access_token"), None);
    let profile = profile_account(&parse_json(r#"{"id": "uuid-1", "name": "Alex"}"#).unwrap()).unwrap();
    assert_eq!((profile.name.as_str(), profile.uuid.as_deref(), profile.offline), ("Alex", Some("uuid-1"), false));
    assert!(profile_account(&parse_json(r#"{"name": "Alex"}"#).unwrap()).is_none());
}

#[test]
fn writes_what_the_next_request_needs() {
    assert_eq!(rps_ticket("msa"), "d=msa");
    assert_eq!(identity_token("hash", "xsts"), "XBL3.0 x=hash;xsts");
    assert_eq!(bearer("tok"), "Bearer tok");
}
