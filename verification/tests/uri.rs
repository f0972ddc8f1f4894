use std::path::PathBuf;
use ty_resolver::uri::{absolute_uri, percent_decode, uri_to_path, uri_to_path_text};

#[test]
fn percent_encoded_paths_are_decoded() {
    assert_eq!(percent_decode("/tmp/a%20b%23c.py"), "/tmp/a b#c.py");
}

#[test]
fn plain_text_is_decoded_to_itself() {
    assert_eq!(percent_decode("/tmp/é日😀.py"), "/tmp/é日😀.py");
    assert_eq!(percent_decode(""), "");
}

#[test]
fn both_cases_of_hexadecimal_digits_are_read() {
    assert_eq!(percent_decode("%2f%2F%4a%4A"), "//JJ");
}

#[test]
fn escapes_stand_for_bytes_of_utf8() {
    assert_eq!(percent_decode("%C3%A9"), "é");
    assert_eq!(percent_decode("%F0%9F%98%80!"), "😀!");
}

#[test]
fn incomplete_escapes_stay() {
    assert_eq!(percent_decode("%"), "%");
    assert_eq!(percent_decode("100%"), "100%");
    assert_eq!(percent_decode("%2"), "%2");
    assert_eq!(percent_decode("%2g"), "%2g");
    assert_eq!(percent_decode("%g2"), "%g2");
    assert_eq!(percent_decode("%é"), "%é");
    assert_eq!(percent_decode("%%20"), "% ");
}

#[test]
fn a_plus_sign_may_stand_before_one_digit() {
    assert_eq!(percent_decode("%+A"), "\n");
    assert_eq!(percent_decode("%A+"), "%A+");
    assert_eq!(percent_decode("%++"), "%++");
    assert_eq!(percent_decode("%-1"), "%-1");
}

#[test]
fn bytes_that_are_no_utf8_are_replaced() {
    assert_eq!(percent_decode("a%FFb"), "a\u{fffd}b");
}

#[test]
fn only_file_uris_name_paths() {
    assert_eq!(uri_to_path("http://x/y"), None);
    assert_eq!(uri_to_path("file:/x"), None);
    assert_eq!(uri_to_path(""), None);
    assert_eq!(uri_to_path("file:///tmp/x.py"), Some(PathBuf::from("/tmp/x.py")));
    assert_eq!(uri_to_path("file://"), Some(PathBuf::from("")));
}

#[test]
fn drive_letters_lose_their_slash() {
    assert_eq!(uri_to_path_text("file:///C:/x.py"), Some("C:/x.py".to_owned()));
    assert_eq!(uri_to_path_text("file:///c%3A/x.py"), Some("c:/x.py".to_owned()));
    assert_eq!(uri_to_path_text("file:///z:"), Some("z:".to_owned()));
    assert_eq!(uri_to_path_text("file:///1:/x"), Some("/1:/x".to_owned()));
    assert_eq!(uri_to_path_text("file:///cc:/x"), Some("/cc:/x".to_owned()));
    assert_eq!(uri_to_path_text("file:///é:/x"), Some("/é:/x".to_owned()));
}

#[test]
fn paths_are_escaped() {
    assert_eq!(absolute_uri("/tmp/a b#c%d.py"), "file:///tmp/a%20b%23c%25d.py");
    assert_eq!(absolute_uri("/tmp/é.py"), "file:///tmp/é.py");
}

#[test]
fn windows_paths_get_slashes() {
    assert_eq!(absolute_uri("C:\\x\\y.py"), "file:///C:/x/y.py");
    assert_eq!(absolute_uri("\\x"), "file:///x");
    assert_eq!(absolute_uri(""), "file:///");
}

#[test]
fn paths_survive_their_uris() {
    for path in [
        "/tmp/a b#c%20d.py",
        "/",
        "/é/日本/😀.py",
        "/a%2",
        "C:/Program Files/x.py",
    ] {
        assert_eq!(
            uri_to_path_text(&absolute_uri(path)),
            Some(path.to_owned())
        );
    }
}

#[test]
fn other_paths_come_back_rooted_and_slashed() {
    assert_eq!(
        uri_to_path_text(&absolute_uri("a\\b")),
        Some("/a/b".to_owned())
    );
    assert_eq!(
        uri_to_path_text(&absolute_uri("/C:/x")),
        Some("C:/x".to_owned())
    );
}

#[test]
fn uris_hold_no_characters_that_need_escapes() {
    let uri = absolute_uri("/ #\\%/ #\\%");
    assert_eq!(uri, "file:///%20%23/%25/%20%23/%25");
}

#[test]
fn a_beginning_without_escapes_passes_through() {
    for rest in ["", "%20b", "%C3%A9%", "%2", "%FFb", "%e2%82", "plain"] {
        for first in ["", "/tmp/é日😀 a", "2F"] {
            assert_eq!(
                percent_decode(&format!("{first}{rest}")),
                format!("{first}{}", percent_decode(rest)),
                "{first} {rest}"
            );
        }
    }
}

#[test]
fn decoding_makes_no_text_longer() {
    for text in ["", "%20", "%2", "a%C3%A9b", "é%25é", "%FF", "%", "plain"] {
        assert!(percent_decode(text).len() <= text.len(), "{text}");
    }
}
