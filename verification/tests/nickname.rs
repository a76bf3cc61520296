use tsresolver::nickname::{nickname_addresses, nickname_url};

#[test]
fn nicknames_are_looked_up_by_name() {
    assert_eq!(
        nickname_url("example").unwrap(),
        "https://named.myteamspeak.com/lookup?name=example"
    );
    assert_eq!(
        nickname_url("a b&c=\u{e4}").unwrap(),
        "https://named.myteamspeak.com/lookup?name=a+b%26c%3D%C3%A4"
    );
    assert_eq!(nickname_url("").unwrap(), "https://named.myteamspeak.com/lookup?name=");
}

#[test]
fn each_filled_line_is_an_address() {
    assert_eq!(nickname_addresses("a\r\nb:1\n\n c \r"), vec!["a", "b:1", " c "]);
    assert_eq!(nickname_addresses("one"), vec!["one"]);
    assert!(nickname_addresses("").is_empty());
    assert!(nickname_addresses("\r\n\n\r").is_empty());
}
