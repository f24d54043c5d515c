use ovl::archive::{extract_zip, get_root_folder_name, ExtractedEntry};
use ovl::paths::{folder_name, plan_extraction, ExtractError, PlannedEntry};
use std::io::Write;

fn names(list: &[&str]) -> Vec<String> {
    list.iter().map(|s| s.to_string()).collect()
}

fn paths(plan: &[PlannedEntry]) -> Vec<(String, bool)> {
    plan.iter().map(|e| (e.path.clone(), e.is_dir)).collect()
}

fn expect(list: &[(&str, bool)]) -> Vec<(String, bool)> {
    list.iter().map(|(p, d)| (p.to_string(), *d)).collect()
}

fn zip_of(entries: &[(&str, &[u8])]) -> Vec<u8> {
    let mut writer = zip::ZipWriter::new(std::io::Cursor::new(Vec::new()));
    let options = zip::write::SimpleFileOptions::default();
    for (name, data) in entries {
        writer.start_file(name.to_string(), options).unwrap();
        writer.write_all(data).unwrap();
    }
    writer.finish().unwrap().into_inner()
}

fn unpacked(files: &[ExtractedEntry]) -> Vec<(String, bool, Vec<u8>)> {
    files.iter().map(|f| (f.path.clone(), f.is_dir, f.data.clone())).collect()
}

#[test]
fn strips_the_one_shared_top_component() {
    let plan = plan_extraction(&names(&["world/", "world/level.dat", "world/region/r.0.0.mca"]))
        .unwrap();
    assert_eq!(
        paths(&plan),
        expect(&[("", true), ("level.dat", false), ("region/r.0.0.mca", false)])
    );
}

#[test]
fn strips_nothing_with_several_top_components() {
    let plan = plan_extraction(&names(&["level.dat", "region/", "region/r.0.0.mca"])).unwrap();
    assert_eq!(
        paths(&plan),
        expect(&[("level.dat", false), ("region", true), ("region/r.0.0.mca", false)])
    );
    let plan = plan_extraction(&names(&["a/x", "b/y"])).unwrap();
    assert_eq!(paths(&plan), expect(&[("a/x", false), ("b/y", false)]));
}

#[test]
fn plans_nothing_for_an_empty_archive() {
    assert_eq!(plan_extraction(&Vec::new()).unwrap().len(), 0);
}

#[test]
fn a_single_nested_file_loses_its_top_component() {
    let plan = plan_extraction(&names(&["only/file.txt"])).unwrap();
    assert_eq!(paths(&plan), expect(&[("file.txt", false)]));
}

#[test]
fn a_single_file_at_top_level_would_name_the_destination() {
    match plan_extraction(&names(&["file.txt"])) {
        Err(e) => assert_eq!(e, ExtractError::UnsafePath(0)),
        Ok(_) => panic!("a file cannot become the destination itself"),
    }
}

#[test]
fn refuses_parent_segments_that_leave_the_destination() {
    match plan_extraction(&names(&["a/ok.txt", "b/../../evil.txt"])) {
        Err(e) => assert_eq!(e, ExtractError::UnsafePath(1)),
        Ok(_) => panic!("escaping entry was planned"),
    }
    match plan_extraction(&names(&["../evil.txt", "x/y"])) {
        Err(e) => assert_eq!(e, ExtractError::UnsafePath(0)),
        Ok(_) => panic!("escaping entry was planned"),
    }
    match plan_extraction(&names(&["top/a", "top/../../evil"])) {
        Err(e) => assert_eq!(e, ExtractError::UnsafePath(1)),
        Ok(_) => panic!("escaping entry was planned"),
    }
    match plan_extraction(&names(&["top/a", "top/.."])) {
        Err(e) => assert_eq!(e, ExtractError::UnsafePath(1)),
        Ok(_) => panic!("escaping entry was planned"),
    }
}

#[test]
fn refuses_absolute_names() {
    match plan_extraction(&names(&["a/x", "/etc/passwd"])) {
        Err(e) => assert_eq!(e, ExtractError::UnsafePath(1)),
        Ok(_) => panic!("absolute entry was planned"),
    }
    match plan_extraction(&names(&["\\windows\\system32", "b"])) {
        Err(e) => assert_eq!(e, ExtractError::UnsafePath(0)),
        Ok(_) => panic!("absolute entry was planned"),
    }
}

#[test]
fn resolves_parent_segments_that_stay_inside() {
    let plan = plan_extraction(&names(&["a/b/../c.txt", "d/./e.txt", "f//g.txt"])).unwrap();
    assert_eq!(
        paths(&plan),
        expect(&[("a/c.txt", false), ("d/e.txt", false), ("f/g.txt", false)])
    );
}

#[test]
fn parent_segments_are_judged_after_stripping() {
    let plan = plan_extraction(&names(&["../a/x", "../b/"])).unwrap();
    assert_eq!(paths(&plan), expect(&[("a/x", false), ("b", true)]));
}

#[test]
fn backslashes_separate_too() {
    let plan = plan_extraction(&names(&["world\\level.dat", "world\\data\\"])).unwrap();
    assert_eq!(paths(&plan), expect(&[("level.dat", false), ("data", true)]));
}

#[test]
fn planned_paths_never_leave_the_destination() {
    let lists: Vec<Vec<String>> = vec![
        names(&["a/b", "a/c/../d", "a/./e/"]),
        names(&["x/../y/z", "q/r"]),
        names(&["..", "../.."]),
        names(&["a/../../b", "c"]),
        names(&["/abs", "rel"]),
        names(&["top/..\\..\\evil", "top/ok"]),
    ];
    for list in lists {
        if let Ok(plan) = plan_extraction(&list) {
            for entry in plan {
                for level in entry.path.split('/') {
                    assert_ne!(level, "..");
                    assert_ne!(level, ".");
                    assert!(!level.contains('\\'));
                    assert!(!level.is_empty() || entry.path.is_empty());
                }
                assert!(!entry.path.starts_with('/'));
                assert!(entry.is_dir || !entry.path.is_empty());
            }
        }
    }
}

#[test]
fn folder_is_named_after_the_shared_component() {
    assert_eq!(folder_name(&names(&["world/", "world/level.dat"]), "archive"), "world");
    assert_eq!(folder_name(&names(&["a/x", "b/y"]), "archive"), "archive");
    assert_eq!(folder_name(&Vec::new(), "archive"), "archive");
    assert_eq!(folder_name(&names(&["level.dat"]), "archive"), "level.dat");
}

#[test]
fn folder_name_agrees_with_stripping() {
    let lists: Vec<Vec<String>> = vec![
        names(&["w/a", "w/b/c"]),
        names(&["a/x", "b/y"]),
        names(&["w/a", "w\\b"]),
        names(&["w/a", "", "w/b/"]),
    ];
    for list in lists {
        let stripped = match plan_extraction(&list) {
            Ok(plan) => plan.iter().zip(list.iter()).any(|(e, n)| {
                !n.is_empty() && e.path.split('/').count() < n.split(['/', '\\']).filter(|p| !p.is_empty()).count()
            }),
            Err(_) => continue,
        };
        assert_eq!(folder_name(&list, "fallback") != "fallback", stripped);
    }
}

#[test]
fn unpacks_an_archive_with_a_wrapping_folder() {
    let bytes = zip_of(&[
        ("world/level.dat", b"level"),
        ("world/region/r.0.0.mca", b"region data"),
        ("world/empty/", b""),
    ]);
    let files = extract_zip(bytes).unwrap();
    assert_eq!(
        unpacked(&files),
        vec![
            ("level.dat".to_string(), false, b"level".to_vec()),
            ("region/r.0.0.mca".to_string(), false, b"region data".to_vec()),
            ("empty".to_string(), true, Vec::new()),
        ]
    );
}

#[test]
fn unpacks_an_archive_without_a_wrapping_folder() {
    let big: Vec<u8> = (0..100_000u32).map(|i| (i % 251) as u8).collect();
    let bytes = zip_of(&[("level.dat", b"level"), ("data/big.bin", &big)]);
    let files = extract_zip(bytes).unwrap();
    assert_eq!(
        unpacked(&files),
        vec![
            ("level.dat".to_string(), false, b"level".to_vec()),
            ("data/big.bin".to_string(), false, big),
        ]
    );
}

#[test]
fn refuses_an_archive_that_would_write_outside() {
    let bytes = zip_of(&[("a/ok.txt", b"fine"), ("b/../../evil.txt", b"evil")]);
    match extract_zip(bytes) {
        Err(e) => assert_eq!(e, ExtractError::UnsafePath(1)),
        Ok(_) => panic!("escaping archive was unpacked"),
    }
}

#[test]
fn refuses_bytes_that_are_no_archive() {
    match extract_zip(b"this is not a zip archive".to_vec()) {
        Err(e) => assert_eq!(e, ExtractError::Unreadable),
        Ok(_) => panic!("garbage was unpacked"),
    }
    match get_root_folder_name(Vec::new(), "x") {
        Err(e) => assert_eq!(e, ExtractError::Unreadable),
        Ok(_) => panic!("garbage was named"),
    }
}

#[test]
fn names_the_root_folder_of_an_archive() {
    let wrapped = zip_of(&[("SkyWars/level.dat", b"1"), ("SkyWars/icon.png", b"2")]);
    assert_eq!(get_root_folder_name(wrapped, "sky").unwrap(), "SkyWars");
    let flat = zip_of(&[("level.dat", b"1"), ("data/x", b"2")]);
    assert_eq!(get_root_folder_name(flat, "sky").unwrap(), "sky");
    let empty = zip_of(&[]);
    assert_eq!(get_root_folder_name(empty, "sky").unwrap(), "sky");
}
