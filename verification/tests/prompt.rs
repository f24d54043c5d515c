use ovl::options::{add_resource_pack, lines_of};
use ovl::prompt::{ask_input, ask_no_yes, ask_yes_no};

#[test]
fn a_question_meant_to_be_agreed_to_takes_silence_for_yes() {
    for input in ["", "\n", "y", "Y\n", " ye ", "yes", "YES\r\n"] {
        assert!(ask_yes_no(input), "{:?}", input);
    }
    for input in ["n", "no", "N", "nope", "yess", "maybe", "1", "oui"] {
        assert!(!ask_yes_no(input), "{:?}", input);
    }
}

#[test]
fn a_question_meant_to_be_declined_takes_silence_for_no() {
    for input in ["y", "Y\n", " ye ", "yes", "YES\r\n"] {
        assert!(ask_no_yes(input), "{:?}", input);
    }
    for input in ["", "\n", "n", "no", "N", "nope", "yess", "maybe"] {
        assert!(!ask_no_yes(input), "{:?}", input);
    }
}

#[test]
fn what_is_not_understood_counts_as_no() {
    for input in ["sure", "ok", "yes please", "да", "ｙ"] {
        assert!(!ask_yes_no(input), "{:?}", input);
        assert!(!ask_no_yes(input), "{:?}", input);
    }
}

#[test]
fn an_empty_line_takes_the_default() {
    assert_eq!(ask_input("\n", Some("1.21.5")), "1.21.5");
    assert_eq!(ask_input("  1.20.1 \n", Some("1.21.5")), "1.20.1");
    assert_eq!(ask_input("\n", None), "");
    assert_eq!(ask_input(" Steve\n", None), "Steve");
}

#[test]
fn lines_end_at_line_feeds() {
    let lines = |s: &str| -> Vec<String> {
        lines_of(&s.chars().collect()).iter().map(|l| l.iter().collect()).collect()
    };
    for text in ["", "a", "a\n", "a\nb", "a\r\nb\r\n", "a\r", "\n", "\n\n", "a\n\nb", "\r\n", "a\rb\n"] {
        let expected: Vec<String> = text.lines().map(String::from).collect();
        assert_eq!(lines(text), expected, "{:?}", text);
    }
}

#[test]
fn puts_the_pack_at_the_end_of_the_list() {
    assert_eq!(
        add_resource_pack("fov:0.0\nresourcePacks:[\"vanilla\",\"fabric\"]\nsound:1\n"),
        Some("fov:0.0\nresourcePacks:[\"vanilla\", \"fabric\", \"OVP.zip\"]\nsound:1".to_string())
    );
    assert_eq!(
        add_resource_pack("resourcePacks:[]"),
        Some("resourcePacks:[\"OVP.zip\"]".to_string())
    );
    assert_eq!(
        add_resource_pack("  resourcePacks:[ \"a\" , , \"b\" ]\r\n"),
        Some("  resourcePacks:[\"a\", \"b\", \"OVP.zip\"]".to_string())
    );
    assert_eq!(add_resource_pack("resourcePacks:["), Some("resourcePacks:[\"OVP.zip\"]".to_string()));
}

#[test]
fn leaves_options_that_name_the_pack_or_list_none() {
    assert_eq!(add_resource_pack("resourcePacks:[\"vanilla\",\"file/OVP.zip\"]\n"), None);
    assert_eq!(add_resource_pack("fov:0.0\nsound:1\n"), None);
    assert_eq!(add_resource_pack(""), None);
    assert_eq!(add_resource_pack("incompatibleResourcePacks:[]\n"), None);
}

#[test]
fn a_list_without_a_bracket_counts_as_changed_but_stays() {
    assert_eq!(
        add_resource_pack("a:1\r\nresourcePacks:none\r\n"),
        Some("a:1\nresourcePacks:none".to_string())
    );
}
