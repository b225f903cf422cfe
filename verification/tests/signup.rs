use bencher_core::signup::{starts_with, Backend, BencherError, CliAuthSignup, Signup};

fn cli(url: Option<&str>) -> CliAuthSignup {
    CliAuthSignup {
        name: "Ada".to_string(),
        slug: Some("ada".to_string()),
        email: "ada@example.com".to_string(),
        url: url.map(str::to_string),
    }
}

#[test]
fn signup_takes_over_what_was_asked() {
    let command = Signup::try_from(cli(Some("https://bencher.example"))).unwrap();
    assert_eq!(command.name, "Ada");
    assert_eq!(command.slug, Some("ada".to_string()));
    assert_eq!(command.email, "ada@example.com");
    assert_eq!(command.backend.url, "https://bencher.example");
    assert_eq!(command.backend.token, None);
    let body = command.body();
    assert_eq!(body.name, "Ada");
    assert_eq!(body.slug, Some("ada".to_string()));
    assert_eq!(body.email, "ada@example.com");
    assert_eq!(Signup::path(), "/v0/auth/signup");
}

#[test]
fn signup_goes_to_the_usual_address_when_none_is_given() {
    let command = Signup::try_from(cli(None)).unwrap();
    assert_eq!(command.backend.url, "https://api.bencher.dev");
    let mut plain = cli(None);
    plain.slug = None;
    assert_eq!(Signup::try_from(plain).unwrap().body().slug, None);
}

#[test]
fn signup_refuses_what_is_no_address() {
    for url in ["", "ftp://x", "http://", "https://", "bencher.dev", "https:/x", "HTTP://x"] {
        assert_eq!(Signup::try_from(cli(Some(url))).err(), Some(BencherError::Url), "{url}");
    }
    for url in ["http://x", "https://x", "http://localhost:61016"] {
        assert!(Signup::try_from(cli(Some(url))).is_ok(), "{url}");
    }
}

#[test]
fn backend_keeps_its_token() {
    let backend = Backend::new(Some("secret".to_string()), Some("http://host".to_string())).unwrap();
    assert_eq!(backend.url, "http://host");
    assert_eq!(backend.token, Some("secret".to_string()));
    assert!(matches!(Backend::new(None, Some("host".to_string())), Err(BencherError::Url)));
}

#[test]
fn starts_with_compares_the_beginning() {
    assert!(starts_with("https://x", "https://"));
    assert!(starts_with("abc", ""));
    assert!(starts_with("abc", "abc"));
    assert!(!starts_with("ab", "abc"));
    assert!(!starts_with("xbc", "abc"));
    assert!(starts_with("µm", "µ"));
}
