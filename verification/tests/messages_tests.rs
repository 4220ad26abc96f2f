use group_chat::messages::{direct_target_conn, direct_target_token, is_direct_line};

#[test]
fn direct_lines_start_with_the_directive() {
    assert!(is_direct_line("\\w abc hello"));
    assert!(is_direct_line("\\w"));
    assert!(is_direct_line("\\whatever"));
    assert!(!is_direct_line("plain text"));
    assert!(!is_direct_line("w\\ backwards"));
    assert!(!is_direct_line(""));
    assert!(!is_direct_line("\\"));
}

#[test]
fn the_target_token_sits_after_the_first_space() {
    assert_eq!(direct_target_token("\\w abc hello"), Some(String::from("abc")));
    assert_eq!(direct_target_token("\\w abc"), Some(String::from("abc")));
    assert_eq!(direct_target_token("\\w  two spaces"), Some(String::from("")));
    assert_eq!(direct_target_token("\\w "), Some(String::from("")));
    assert_eq!(direct_target_token("\\w"), None);
    assert_eq!(direct_target_token("nospace"), None);
}

#[test]
fn the_target_token_is_parsed_as_a_uuid() {
    let line = "\\w a1a2a3a4-b1b2-c1c2-d1d2-d3d4d5d6d7d8 hello";
    assert_eq!(direct_target_conn(line), Some(0xa1a2a3a4b1b2c1c2d1d2d3d4d5d6d7d8u128));
    assert_eq!(direct_target_conn("\\w not-a-uuid hello"), None);
    assert_eq!(direct_target_conn("\\w"), None);
}
