use birthcal::config::{
    load_cards_url, load_config, load_search_url, require_noempty_utf8_env, Config, EnvError,
    EnvFailure, CARDS_VAR, SEARCH_VAR,
};

fn raw(text: &str) -> Option<Vec<u8>> {
    Some(text.as_bytes().to_vec())
}

#[test]
fn variable_names() {
    assert_eq!(CARDS_VAR, "BIRTHCAL_CARDS");
    assert_eq!(SEARCH_VAR, "BIRTHCAL_SEARCH");
}

#[test]
fn value_that_is_there() {
    assert_eq!(require_noempty_utf8_env("X", raw("http://u/")), Ok("http://u/".to_string()));
    assert_eq!(require_noempty_utf8_env("X", raw("Zoë")), Ok("Zoë".to_string()));
}

#[test]
fn missing_value() {
    assert_eq!(
        require_noempty_utf8_env("X", None),
        Err(EnvFailure { var: "X", err: EnvError::Missing })
    );
}

#[test]
fn empty_value() {
    assert_eq!(
        require_noempty_utf8_env("X", Some(Vec::new())),
        Err(EnvFailure { var: "X", err: EnvError::Empty })
    );
}

#[test]
fn value_that_is_not_utf8() {
    assert_eq!(
        require_noempty_utf8_env("BIRTHCAL_CARDS", Some(vec![0x68, 0xff])),
        Err(EnvFailure {
            var: "BIRTHCAL_CARDS",
            err: EnvError::BadUnicode { valid_up_to: 1, error_len: Some(1) },
        })
    );
    assert_eq!(
        require_noempty_utf8_env("X", Some(vec![0x68, 0xff, 0x69])),
        Err(EnvFailure { var: "X", err: EnvError::BadUnicode { valid_up_to: 1, error_len: Some(1) } })
    );
    assert_eq!(
        require_noempty_utf8_env("X", Some(vec![0xc3])),
        Err(EnvFailure { var: "X", err: EnvError::BadUnicode { valid_up_to: 0, error_len: None } })
    );
    assert_eq!(
        require_noempty_utf8_env("X", Some(vec![0x5a, 0x6f, 0xc3, 0xab, 0xe2, 0x82])),
        Err(EnvFailure { var: "X", err: EnvError::BadUnicode { valid_up_to: 4, error_len: None } })
    );
    assert_eq!(
        require_noempty_utf8_env("X", Some(vec![0xf0, 0x9f, 0x41])),
        Err(EnvFailure { var: "X", err: EnvError::BadUnicode { valid_up_to: 0, error_len: Some(2) } })
    );
}

#[test]
fn bad_utf8_is_told_as_the_runtime_tells_it() {
    let cases: Vec<Vec<u8>> = vec![
        vec![0x68, 0xff],
        vec![0xc3],
        vec![0x61, 0x62, 0x63, 0xe2, 0x28, 0xa1],
        vec![0xf0, 0x9f, 0x41],
        vec![0x80],
        vec![0x61; 300].into_iter().chain(vec![0xed, 0xa0, 0x80]).collect(),
    ];
    for bytes in cases {
        let error = String::from_utf8(bytes.clone()).unwrap_err().utf8_error();
        let failure = require_noempty_utf8_env("V", Some(bytes)).unwrap_err();
        assert_eq!(
            failure.err,
            EnvError::BadUnicode {
                valid_up_to: error.valid_up_to(),
                error_len: error.error_len(),
            }
        );
        assert_eq!(
            failure.message(),
            format!("Environment variable V is not valid UTF-8: {}", error)
        );
    }
}

#[test]
fn cards_url_is_required() {
    assert_eq!(load_cards_url(raw("http://u/")), Ok("http://u/".to_string()));
    assert_eq!(
        load_cards_url(None),
        Err(EnvFailure { var: "BIRTHCAL_CARDS", err: EnvError::Missing })
    );
    assert_eq!(
        load_cards_url(Some(Vec::new())),
        Err(EnvFailure { var: "BIRTHCAL_CARDS", err: EnvError::Empty })
    );
    assert_eq!(
        load_cards_url(Some(vec![0x80])),
        Err(EnvFailure {
            var: "BIRTHCAL_CARDS",
            err: EnvError::BadUnicode { valid_up_to: 0, error_len: Some(1) },
        })
    );
}

#[test]
fn search_url_may_be_missing() {
    assert_eq!(load_search_url(None), Ok(None));
    assert_eq!(load_search_url(raw("https://s/?q=")), Ok(Some("https://s/?q=".to_string())));
}

#[test]
fn search_url_must_not_be_empty_or_garbled() {
    assert_eq!(
        load_search_url(Some(Vec::new())),
        Err(EnvFailure { var: "BIRTHCAL_SEARCH", err: EnvError::Empty })
    );
    assert_eq!(
        load_search_url(Some(vec![0x71, 0xfe])),
        Err(EnvFailure {
            var: "BIRTHCAL_SEARCH",
            err: EnvError::BadUnicode { valid_up_to: 1, error_len: Some(1) },
        })
    );
}

#[test]
fn both_settings() {
    assert_eq!(
        load_config(raw("http://u/"), raw("https://s/?q=")),
        Ok(Config {
            cards_url: "http://u/".to_string(),
            search_url: Some("https://s/?q=".to_string()),
        })
    );
    assert_eq!(
        load_config(raw("http://u/"), None),
        Ok(Config { cards_url: "http://u/".to_string(), search_url: None })
    );
}

#[test]
fn cards_failure_comes_first() {
    assert_eq!(
        load_config(None, Some(Vec::new())),
        Err(EnvFailure { var: "BIRTHCAL_CARDS", err: EnvError::Missing })
    );
    assert_eq!(
        load_config(raw("http://u/"), Some(Vec::new())),
        Err(EnvFailure { var: "BIRTHCAL_SEARCH", err: EnvError::Empty })
    );
}

#[test]
fn failures_in_words() {
    assert_eq!(
        EnvFailure { var: "BIRTHCAL_CARDS", err: EnvError::Missing }.message(),
        "Environment variable BIRTHCAL_CARDS missing"
    );
    assert_eq!(
        EnvFailure { var: "BIRTHCAL_SEARCH", err: EnvError::Empty }.message(),
        "Environment variable BIRTHCAL_SEARCH is empty"
    );
    assert_eq!(
        EnvFailure { var: "X", err: EnvError::BadUnicode { valid_up_to: 1, error_len: Some(1) } }
            .message(),
        "Environment variable X is not valid UTF-8: invalid utf-8 sequence of 1 bytes from index 1"
    );
    assert_eq!(
        EnvFailure { var: "X", err: EnvError::BadUnicode { valid_up_to: 12, error_len: None } }
            .message(),
        "Environment variable X is not valid UTF-8: incomplete utf-8 byte sequence from index 12"
    );
}
