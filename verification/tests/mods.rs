use ovl::json::{parse_json, Json};
use ovl::mods::{
    base_ids, base_mods, download_mods, fetch_mod_version_data, mod_file_name, select_release,
    version_query_url, ModVersionData, ModsPlan, ParseError,
};
use ovl::resolver::{get_mod_download_urls, KnownRelease, Resolver};

fn text(s: &str) -> Json {
    Json::Text(s.to_string())
}

fn object(members: Vec<(&str, Json)>) -> Json {
    Json::Object(members.into_iter().map(|(k, v)| (k.to_string(), v)).collect())
}

fn dependency(kind: &str, id: &str) -> Json {
    object(vec![("dependency_type", text(kind)), ("project_id", text(id))])
}

fn release(url: &str, deps: Vec<Json>) -> Json {
    object(vec![
        ("files", Json::Array(vec![object(vec![("url", text(url))])])),
        ("dependencies", Json::Array(deps)),
    ])
}

fn no_base() -> Vec<Vec<char>> {
    Vec::new()
}

fn known(id: &str, url: &str, deps: &[&str]) -> KnownRelease {
    KnownRelease {
        id: id.to_string(),
        url: url.to_string(),
        dependencies: deps.iter().map(|d| d.to_string()).collect(),
    }
}

fn data(url: &str, deps: &[&str]) -> ModVersionData {
    ModVersionData {
        url: url.to_string(),
        dependencies: deps.iter().map(|d| d.to_string()).collect(),
    }
}

fn seeds(list: &[&str]) -> Vec<String> {
    list.iter().map(|s| s.to_string()).collect()
}

#[test]
fn parses_json_into_the_same_tree() {
    let doc = parse_json(r#"{"a": [1, -2.5, "x", true, null], "b": {"c": "d"}}"#).unwrap();
    match &doc {
        Json::Object(members) => {
            assert_eq!(members.len(), 2);
            assert_eq!(members[0].0, "a");
            match &members[0].1 {
                Json::Array(items) => {
                    assert_eq!(items.len(), 5);
                    assert!(matches!(&items[0], Json::Number(n) if n == "1"));
                    assert!(matches!(&items[1], Json::Number(n) if n == "-2.5"));
                    assert!(matches!(&items[2], Json::Text(s) if s == "x"));
                    assert!(matches!(&items[3], Json::Bool(true)));
                    assert!(matches!(&items[4], Json::Null));
                }
                _ => panic!("a is an array"),
            }
        }
        _ => panic!("the document is an object"),
    }
    assert_eq!(doc.text_at("a"), None);
    assert_eq!(doc.get("b").unwrap().text_at("c"), Some(&"d".to_string()));
    assert!(doc.get("missing").is_none());
    assert_eq!(doc.array_at("a").unwrap().len(), 5);
    assert!(doc.array_at("b").is_none());
    assert!(doc.as_array().is_none());
    assert!(doc.as_text().is_none());
}

#[test]
fn refuses_what_is_no_json() {
    assert!(parse_json("").is_none());
    assert!(parse_json("{").is_none());
    assert!(parse_json("[1, 2,]").is_none());
    assert!(parse_json("[] []").is_none());
    assert!(matches!(parse_json(" \"x\" "), Some(Json::Text(s)) if s == "x"));
}

#[test]
fn reads_the_first_file_of_the_first_release() {
    let doc = Json::Array(vec![
        release("https://cdn/first.jar", vec![]),
        release("https://cdn/second.jar", vec![]),
    ]);
    let found = select_release(&doc, &no_base()).unwrap();
    assert_eq!(found.url, "https://cdn/first.jar");
    assert_eq!(found.dependencies.len(), 0);
}

#[test]
fn follows_required_dependencies_only() {
    let doc = Json::Array(vec![release(
        "https://cdn/a.jar",
        vec![
            dependency("required", "B"),
            dependency("optional", "C"),
            dependency("required", "D"),
            dependency("incompatible", "E"),
            object(vec![("dependency_type", text("required"))]),
            object(vec![("dependency_type", text("required")), ("project_id", Json::Null)]),
            object(vec![("project_id", text("F"))]),
        ],
    )]);
    let found = select_release(&doc, &no_base()).unwrap();
    assert_eq!(found.dependencies, vec!["B", "D"]);
}

#[test]
fn base_mods_are_never_dependencies() {
    let doc = Json::Array(vec![release(
        "https://cdn/a.jar",
        vec![dependency("required", "P7dR8mSH"), dependency("required", "other")],
    )]);
    assert_eq!(select_release(&doc, &base_ids()).unwrap().dependencies, vec!["other"]);
    assert_eq!(
        select_release(&doc, &no_base()).unwrap().dependencies,
        vec!["P7dR8mSH", "other"]
    );
}

#[test]
fn no_release_that_fits_is_none() {
    assert!(select_release(&Json::Array(vec![]), &no_base()).is_none());
    assert!(select_release(&Json::Null, &no_base()).is_none());
    assert!(select_release(&object(vec![("error", text("x"))]), &no_base()).is_none());
    assert!(select_release(&Json::Array(vec![object(vec![])]), &no_base()).is_none());
    let no_files = Json::Array(vec![object(vec![("files", Json::Array(vec![]))])]);
    assert!(select_release(&no_files, &no_base()).is_none());
    let no_url = Json::Array(vec![object(vec![("files", Json::Array(vec![object(vec![])]))])]);
    assert!(select_release(&no_url, &no_base()).is_none());
    let no_deps = Json::Array(vec![object(vec![(
        "files",
        Json::Array(vec![object(vec![("url", text("u"))])]),
    )])]);
    assert_eq!(select_release(&no_deps, &no_base()).unwrap().dependencies.len(), 0);
}

#[test]
fn reads_the_body_of_an_answer() {
    let body = r#"[{"files": [{"url": "https://cdn/x.jar", "primary": true}],
                    "dependencies": [
                      {"dependency_type": "required", "project_id": "abc"},
                      {"dependency_type": "required", "project_id": "AANobbMI"},
                      {"dependency_type": "optional", "project_id": "def"}]},
                   {"files": [{"url": "https://cdn/older.jar"}], "dependencies": []}]"#;
    let found = fetch_mod_version_data(body).unwrap().unwrap();
    assert_eq!(found.url, "https://cdn/x.jar");
    assert_eq!(found.dependencies, vec!["abc"]);
    assert!(fetch_mod_version_data("[]").unwrap().is_none());
    assert!(matches!(fetch_mod_version_data("<html>"), Err(ParseError::Malformed)));
}

#[test]
fn base_sets_are_fixed() {
    assert_eq!(
        base_mods(),
        vec!["dcwa", "fabric-api", "lithium", "iris", "modmenu", "sodium", "placeholder-api"]
    );
    let ids: Vec<String> = base_ids().iter().map(|id| id.iter().collect()).collect();
    assert_eq!(
        ids,
        vec![
            "HdwRs3kc", "P7dR8mSH", "gvQqBUqZ", "YL57xq9U", "mOgUt4GM", "AANobbMI", "eXts2L7r"
        ]
    );
}

#[test]
fn builds_names_and_addresses() {
    assert_eq!(mod_file_name("sodium"), "sodium-AUTOUPDATE.jar");
    assert_eq!(
        version_query_url("sodium", "1.21.5"),
        "https://api.modrinth.com/v2/project/sodium/version?loaders=[\"fabric\"]&game_versions=[\"1.21.5\"]"
    );
}

#[test]
fn mods_of_the_same_version_are_left_alone() {
    assert!(matches!(download_mods(Some("1.21.5"), "1.21.5"), ModsPlan::UpToDate));
    assert!(matches!(download_mods(Some(" 1.21.5\n"), "1.21.5"), ModsPlan::UpToDate));
}

#[test]
fn mods_of_another_version_are_refreshed() {
    for saved in [None, Some("1.21.4"), Some("")] {
        match download_mods(saved, "1.21.5") {
            ModsPlan::Refresh { stale } => assert_eq!(
                stale,
                vec![
                    "dcwa-AUTOUPDATE.jar",
                    "fabric-api-AUTOUPDATE.jar",
                    "lithium-AUTOUPDATE.jar",
                    "iris-AUTOUPDATE.jar",
                    "modmenu-AUTOUPDATE.jar",
                    "sodium-AUTOUPDATE.jar",
                    "placeholder-api-AUTOUPDATE.jar",
                ]
            ),
            ModsPlan::UpToDate => panic!("{:?} is not 1.21.5", saved),
        }
    }
}

#[test]
fn a_cycle_ends_and_resolves_each_mod_once() {
    let catalog = vec![known("A", "https://cdn/a.jar", &["B"]), known("B", "https://cdn/b.jar", &["A"])];
    let found = get_mod_download_urls(seeds(&["A"]), &catalog);
    let pairs: Vec<(&str, &str)> = found.iter().map(|d| (d.name.as_str(), d.url.as_str())).collect();
    assert_eq!(pairs, vec![("A", "https://cdn/a.jar"), ("B", "https://cdn/b.jar")]);
}

#[test]
fn a_cycle_ends_when_driven_step_by_step() {
    let mut resolver = Resolver::new(seeds(&["A"]));
    assert_eq!(resolver.next_request(), Some("A".to_string()));
    assert_eq!(resolver.next_request(), Some("A".to_string()));
    resolver.supply(Some(data("https://cdn/a.jar", &["B"])));
    assert_eq!(resolver.pending(), 1);
    assert_eq!(resolver.next_request(), Some("B".to_string()));
    resolver.supply(Some(data("https://cdn/b.jar", &["A"])));
    assert_eq!(resolver.pending(), 0);
    assert_eq!(resolver.next_request(), None);
    assert_eq!(resolver.next_request(), None);
    let found = resolver.finish();
    let names: Vec<&str> = found.iter().map(|d| d.name.as_str()).collect();
    assert_eq!(names, vec!["A", "B"]);
}

#[test]
fn missing_releases_are_dropped_silently() {
    let catalog = vec![known("A", "a", &["B", "C"]), known("C", "c", &[])];
    let found = get_mod_download_urls(seeds(&["A", "Z"]), &catalog);
    let names: Vec<&str> = found.iter().map(|d| d.name.as_str()).collect();
    assert_eq!(names, vec!["A", "C"]);
    assert_eq!(get_mod_download_urls(seeds(&["Z"]), &catalog).len(), 0);
    assert_eq!(get_mod_download_urls(Vec::new(), &catalog).len(), 0);
}

#[test]
fn shared_dependencies_are_resolved_once() {
    let catalog = vec![
        known("A", "a", &["C", "D"]),
        known("B", "b", &["C"]),
        known("C", "c", &["D", "D"]),
        known("D", "d", &[]),
        known("A", "shadowed", &[]),
    ];
    let found = get_mod_download_urls(seeds(&["A", "B", "A"]), &catalog);
    let mut names: Vec<&str> = found.iter().map(|d| d.name.as_str()).collect();
    assert_eq!(names, vec!["A", "D", "C", "B"]);
    names.sort();
    assert_eq!(names, vec!["A", "B", "C", "D"]);
    assert_eq!(found[0].url, "a");
}

#[test]
fn the_order_of_seeds_does_not_change_what_is_resolved() {
    let catalog = vec![
        known("A", "a", &["C"]),
        known("B", "b", &["D", "A"]),
        known("C", "c", &["B"]),
        known("D", "d", &["E"]),
    ];
    let orders: [&[&str]; 4] = [&["A", "B"], &["B", "A"], &["A"], &["C", "X", "A"]];
    for order in orders {
        let found = get_mod_download_urls(seeds(order), &catalog);
        let mut names: Vec<&str> = found.iter().map(|d| d.name.as_str()).collect();
        names.sort();
        assert_eq!(names, vec!["A", "B", "C", "D"], "{:?}", order);
    }
}

#[test]
fn an_answer_without_a_request_changes_nothing() {
    let mut resolver = Resolver::new(seeds(&["A"]));
    resolver.supply(Some(data("u", &["B"])));
    assert_eq!(resolver.pending(), 1);
    assert_eq!(resolver.downloads().len(), 0);
    assert_eq!(resolver.next_request(), Some("A".to_string()));
    resolver.supply(None);
    assert_eq!(resolver.downloads().len(), 0);
    assert_eq!(resolver.next_request(), None);
}
