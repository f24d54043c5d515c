use ovl::dedup::{
    conflict_prone, deduplicate_libraries, find_jar_files, is_jar_file, library_artifact,
    FoundFile, LibraryArtifact,
};
use ovl::library::{extract_library_name, extract_version};

fn artifact(name: &str, version: &str, path: &str) -> LibraryArtifact {
    LibraryArtifact { name: name.to_string(), version: version.to_string(), path: path.to_string() }
}

fn found(file_name: &str, path: &str) -> FoundFile {
    FoundFile { file_name: file_name.to_string(), path: path.to_string() }
}

#[test]
fn names_plain_asm() {
    assert_eq!(extract_library_name("asm-9.6.jar"), "asm");
    assert_eq!(extract_version("asm-9.6.jar"), Some("9.6".to_string()));
    assert_eq!(extract_library_name("asm-9.1.jar"), "asm");
    assert_eq!(extract_version("asm-9.1.jar"), Some("9.1".to_string()));
    assert_eq!(extract_library_name("asm-debug-all-5.2.jar"), "asm");
    assert_eq!(extract_version("asm-debug-all-5.2.jar"), Some("debug-all-5.2".to_string()));
    assert_eq!(extract_library_name("asm-.jar"), "asm");
    assert_eq!(extract_version("asm-.jar"), Some("".to_string()));
}

#[test]
fn keeps_family_members_apart() {
    assert_eq!(extract_library_name("asm-tree-9.6.jar"), "asm-tree");
    assert_eq!(extract_version("asm-tree-9.6.jar"), Some("9.6".to_string()));
    assert_eq!(extract_library_name("asm-util-9.2.jar"), "asm-util");
    assert_eq!(extract_version("asm-util-9.2.jar"), Some("9.2".to_string()));
    assert_eq!(extract_library_name("asm-analysis-9.6.jar"), "asm-analysis");
    assert_eq!(extract_version("asm-analysis-9.6.jar"), Some("9.6".to_string()));
    assert_eq!(extract_library_name("asm-commons-9.6.jar"), "asm-commons");
    assert_eq!(extract_version("asm-commons-9.6.jar"), Some("9.6".to_string()));
}

#[test]
fn family_word_without_family_prefix_is_cut_at_hyphens() {
    assert_eq!(extract_library_name("asm-foo-tree-1.0.jar"), "asm-foo-tree");
    assert_eq!(extract_version("asm-foo-tree-1.0.jar"), Some("1.0".to_string()));
    assert_eq!(extract_library_name("asm-tree.jar"), "asm-tree");
    assert_eq!(extract_version("asm-tree.jar"), None);
}

#[test]
fn cuts_other_names_at_the_first_piece_that_leads_with_a_digit() {
    assert_eq!(extract_library_name("guava-31.1-jre.jar"), "guava");
    assert_eq!(extract_version("guava-31.1-jre.jar"), Some("31.1-jre".to_string()));
    assert_eq!(extract_library_name("commons-lang3-3.12.0.jar"), "commons-lang3");
    assert_eq!(extract_version("commons-lang3-3.12.0.jar"), Some("3.12.0".to_string()));
    assert_eq!(extract_library_name("lwjgl-glfw-3.3.1-natives-linux.jar"), "lwjgl-glfw");
    assert_eq!(
        extract_version("lwjgl-glfw-3.3.1-natives-linux.jar"),
        Some("3.3.1-natives-linux".to_string())
    );
    assert_eq!(extract_library_name("1.0-foo.jar"), "");
    assert_eq!(extract_version("1.0-foo.jar"), Some("1.0-foo".to_string()));
}

#[test]
fn names_without_version_keep_their_stem() {
    assert_eq!(extract_library_name("client.jar"), "client");
    assert_eq!(extract_version("client.jar"), None);
    assert_eq!(extract_library_name("fabric-loader.jar"), "fabric-loader");
    assert_eq!(extract_version("fabric-loader.jar"), None);
    assert_eq!(extract_library_name("9.6.jar"), "9.6");
    assert_eq!(extract_version("9.6.jar"), None);
    assert_eq!(extract_library_name("asm.jar"), "asm");
    assert_eq!(extract_version("asm.jar"), None);
    assert_eq!(extract_library_name("noextension-1.0"), "noextension");
    assert_eq!(extract_version("noextension-1.0"), Some("1.0".to_string()));
}

#[test]
fn name_hyphen_version_is_the_stem() {
    for file in ["guava-31.1-jre.jar", "asm-9.6.jar", "asm-tree-9.6.jar", "a-b-1-2-3.jar"] {
        let name = extract_library_name(file);
        let version = extract_version(file).unwrap();
        assert_eq!(format!("{}-{}.jar", name, version), file);
    }
}

#[test]
fn tells_jar_files() {
    assert!(is_jar_file("asm-9.6.jar"));
    assert!(is_jar_file("..jar"));
    assert!(!is_jar_file(".jar"));
    assert!(!is_jar_file("asm-9.6.zip"));
    assert!(!is_jar_file("jar"));
    assert!(!is_jar_file("asm.JAR"));
}

#[test]
fn describes_a_jar() {
    let a = library_artifact(&found("asm-tree-9.6.jar", "libs/org/ow2/asm-tree-9.6.jar"));
    assert_eq!(a.name, "asm-tree");
    assert_eq!(a.version, "9.6");
    assert_eq!(a.path, "libs/org/ow2/asm-tree-9.6.jar");
    let b = library_artifact(&found("client.jar", "client.jar"));
    assert_eq!(b.name, "client");
    assert_eq!(b.version, "0.0.0");
}

#[test]
fn passes_over_files_that_are_no_jars() {
    let files = vec![
        found("asm-9.1.jar", "a/asm-9.1.jar"),
        found("readme.txt", "a/readme.txt"),
        found("asm-9.6.jar", "b/asm-9.6.jar"),
        found(".jar", "b/.jar"),
    ];
    let artifacts = find_jar_files(&files);
    assert_eq!(artifacts.len(), 2);
    assert_eq!(artifacts[0].path, "a/asm-9.1.jar");
    assert_eq!(artifacts[0].version, "9.1");
    assert_eq!(artifacts[1].path, "b/asm-9.6.jar");
    assert_eq!(artifacts[1].name, "asm");
}

#[test]
fn allow_list_holds_the_asm_family_only() {
    for name in ["asm", "asm-tree", "asm-util", "asm-analysis", "asm-commons"] {
        assert!(conflict_prone(name), "{}", name);
    }
    for name in ["guava", "ASM", "asm-", "asm-debug", "", "asm-tree-"] {
        assert!(!conflict_prone(name), "{}", name);
    }
}

#[test]
fn removes_the_lower_asm_and_keeps_the_higher() {
    let files = vec![
        found("asm-9.1.jar", "libs/asm-9.1.jar"),
        found("asm-9.6.jar", "libs/asm-9.6.jar"),
        found("guava-30.0.jar", "libs/guava-30.0.jar"),
        found("guava-31.1.jar", "libs/guava-31.1.jar"),
    ];
    let doomed = deduplicate_libraries(&find_jar_files(&files));
    assert_eq!(doomed, vec!["libs/asm-9.1.jar".to_string()]);
}

#[test]
fn keeps_the_highest_wherever_it_stands() {
    let artifacts = vec![
        artifact("asm", "9.6", "p/1"),
        artifact("asm", "9.1", "p/2"),
        artifact("asm", "9.10", "p/3"),
        artifact("asm", "9.2", "p/4"),
        artifact("asm-tree", "9.1", "p/5"),
    ];
    assert_eq!(deduplicate_libraries(&artifacts), vec!["p/1", "p/2", "p/4"]);
}

#[test]
fn keeps_the_last_of_equal_versions() {
    let artifacts = vec![
        artifact("asm", "9.6", "p/1"),
        artifact("asm", "9.6.0", "p/2"),
        artifact("asm", "9.6", "p/3"),
    ];
    assert_eq!(deduplicate_libraries(&artifacts), vec!["p/1", "p/2"]);
}

#[test]
fn leaves_single_jars_and_other_names_alone() {
    let artifacts = vec![
        artifact("asm", "9.6", "p/1"),
        artifact("asm-tree", "9.1", "p/2"),
        artifact("guava", "1.0", "p/3"),
        artifact("guava", "2.0", "p/4"),
        artifact("guava", "2.0", "p/5"),
    ];
    assert_eq!(deduplicate_libraries(&artifacts).len(), 0);
    assert_eq!(deduplicate_libraries(&Vec::new()).len(), 0);
}

#[test]
fn one_jar_stays_of_every_listed_name() {
    let artifacts = vec![
        artifact("asm", "1", "a1"),
        artifact("asm-tree", "3", "t3"),
        artifact("asm", "1.0", "a2"),
        artifact("asm-tree", "2", "t2"),
        artifact("asm", "0.9", "a3"),
        artifact("asm-util", "x", "u1"),
        artifact("asm-util", "y", "u2"),
    ];
    let doomed = deduplicate_libraries(&artifacts);
    for name in ["asm", "asm-tree", "asm-util"] {
        let staying: Vec<&LibraryArtifact> = artifacts
            .iter()
            .filter(|a| a.name == name && !doomed.contains(&a.path))
            .collect();
        assert_eq!(staying.len(), 1, "{}", name);
    }
    assert_eq!(doomed, vec!["a1", "t2", "a3", "u1"]);
}
