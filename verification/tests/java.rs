use ovl::java::{
    cached_java_path, check_java_version, extract_version_from_line, get_java_executable_path,
    java_is_supported, parse_major_version,
};

#[test]
fn takes_the_version_out_of_the_quotes() {
    assert_eq!(
        extract_version_from_line("openjdk version \"21.0.1\" 2023-10-17"),
        Some("21.0.1".to_string())
    );
    assert_eq!(
        extract_version_from_line("java version \"1.8.0_391\""),
        Some("1.8.0_391".to_string())
    );
    assert_eq!(extract_version_from_line("a \"\" b"), Some("".to_string()));
    assert_eq!(extract_version_from_line("\"x\" \"y\""), Some("x".to_string()));
    assert_eq!(extract_version_from_line("no quotes"), None);
    assert_eq!(extract_version_from_line("one \" quote"), None);
    assert_eq!(extract_version_from_line(""), None);
}

#[test]
fn reads_old_and_new_major_versions() {
    assert_eq!(parse_major_version("21.0.1"), Ok(21));
    assert_eq!(parse_major_version("1.8.0_391"), Ok(8));
    assert_eq!(parse_major_version("17"), Ok(17));
    assert_eq!(parse_major_version("1"), Ok(1));
    assert_eq!(parse_major_version("1.21"), Ok(21));
    assert_eq!(
        parse_major_version("21-ea"),
        Err("Could not parse major version".to_string())
    );
    assert_eq!(parse_major_version(""), Err("Could not parse major version".to_string()));
    assert_eq!(parse_major_version("1.x"), Err("Could not parse major version".to_string()));
}

#[test]
fn reads_what_java_prints() {
    let openjdk = "openjdk version \"21.0.1\" 2023-10-17\nOpenJDK Runtime Environment\n";
    assert_eq!(check_java_version(openjdk), Ok(21));
    let old = "Picked up _JAVA_OPTIONS: -Xmx1g\r\njava version \"1.8.0_391\"\r\nJava(TM) SE\r\n";
    assert_eq!(check_java_version(old), Ok(8));
    let unquoted_first = "java version unknown\nopenjdk version \"17.0.2\"\n";
    assert_eq!(check_java_version(unquoted_first), Ok(17));
    assert_eq!(
        check_java_version("openjdk version \"ea\"\nopenjdk version \"17\"\n"),
        Err("Could not parse major version".to_string())
    );
    assert_eq!(
        check_java_version("command not found"),
        Err("Could not parse Java version from output".to_string())
    );
    assert_eq!(
        check_java_version(""),
        Err("Could not parse Java version from output".to_string())
    );
}

#[test]
fn java_21_is_the_oldest_that_will_do() {
    assert!(!java_is_supported(8));
    assert!(!java_is_supported(20));
    assert!(java_is_supported(21));
    assert!(java_is_supported(25));
}

#[test]
fn reads_the_noted_path() {
    assert_eq!(cached_java_path(" /usr/bin/java\n"), Some("/usr/bin/java".to_string()));
    assert_eq!(cached_java_path("\n"), None);
    assert_eq!(cached_java_path(""), None);
}

#[test]
fn reads_the_first_path_that_which_prints() {
    assert_eq!(get_java_executable_path("/usr/bin/java\n"), Some("/usr/bin/java".to_string()));
    assert_eq!(
        get_java_executable_path("C:\\jdk\\bin\\java.exe\r\nC:\\other\\java.exe\r\n"),
        Some("C:\\jdk\\bin\\java.exe".to_string())
    );
    assert_eq!(get_java_executable_path("  \n"), None);
    assert_eq!(get_java_executable_path(""), None);
}
