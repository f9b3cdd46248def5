use birthcal::birthday::Birthday;
use birthcal::calendar::Entry;
use birthcal::config::{EnvError, EnvFailure};
use birthcal::contact::{Contact, Property};
use birthcal::gateway::{
    calendar_rows, extract, gather, reply, rows_of_cards, upstream_rows, written, Failure, Reply,
};
use birthcal::page::{NameCell, Row};

fn contact(props: &[(&str, Option<&str>)]) -> Contact {
    Contact {
        properties: props
            .iter()
            .map(|(n, v)| Property { name: n.to_string(), value: v.map(|t| t.to_string()) })
            .collect(),
    }
}

fn card(lines: &[&str]) -> String {
    let mut text = String::from("BEGIN:VCARD\r\nVERSION:3.0\r\n");
    for line in lines {
        text.push_str(line);
        text.push_str("\r\n");
    }
    text.push_str("END:VCARD\r\n");
    text
}

fn text_row(date: &str, name: &str) -> Row {
    Row { date: date.to_string(), cell: NameCell::Text { name: name.to_string() } }
}

fn link_row(date: &str, href: &str, name: &str) -> Row {
    Row {
        date: date.to_string(),
        cell: NameCell::Link {
            href: href.to_string(),
            target: "_blank".to_string(),
            name: name.to_string(),
        },
    }
}

#[test]
fn contact_without_name_gives_nothing() {
    let mut c = contact(&[("BDAY", Some("18151210")), ("URL", Some("https://a/"))]);
    assert_eq!(extract(&mut c), Ok(None));
    let mut c = contact(&[("FN", None), ("BDAY", Some("nope"))]);
    assert_eq!(extract(&mut c), Ok(None));
    let mut c = contact(&[("FN", Some("")), ("BDAY", Some("nope"))]);
    assert_eq!(extract(&mut c), Ok(None));
}

#[test]
fn contact_without_birthday_gives_an_undated_entry() {
    let mut c = contact(&[("FN", Some("Anonymous")), ("URL", Some("https://a/"))]);
    assert_eq!(
        extract(&mut c),
        Ok(Some(Entry {
            birthday: None,
            name: "Anonymous".to_string(),
            url: Some("https://a/".to_string()),
        }))
    );
    let mut c = contact(&[("FN", Some("Anonymous")), ("BDAY", None)]);
    assert_eq!(
        extract(&mut c),
        Ok(Some(Entry { birthday: None, name: "Anonymous".to_string(), url: None }))
    );
}

#[test]
fn contact_with_birthday_gives_a_dated_entry() {
    let mut c = contact(&[("URL", Some("https://gh/")), ("BDAY", Some("--1209")), ("FN", Some("Grace"))]);
    assert_eq!(
        extract(&mut c),
        Ok(Some(Entry {
            birthday: Some(Birthday::Partial { month: 12, day: 9 }),
            name: "Grace".to_string(),
            url: Some("https://gh/".to_string()),
        }))
    );
}

#[test]
fn contact_with_bad_birthday_fails() {
    let mut c = contact(&[("FN", Some("Ada")), ("BDAY", Some("nope"))]);
    assert_eq!(extract(&mut c), Err(Failure::BadBirthday("nope".to_string())));
    let mut c = contact(&[("FN", Some("Ada")), ("BDAY", Some(""))]);
    assert_eq!(extract(&mut c), Err(Failure::BadBirthday(String::new())));
}

#[test]
fn gathering_stops_at_the_first_failure() {
    let good = contact(&[("FN", Some("Ada")), ("BDAY", Some("18151210"))]);
    let bad = contact(&[("FN", Some("Bob")), ("BDAY", Some("soon"))]);
    let worse = contact(&[("FN", Some("Cy")), ("BDAY", Some("later"))]);
    assert_eq!(
        gather(vec![Ok(good.clone()), Ok(bad.clone()), Err("broken".to_string()), Ok(worse.clone())])
            .err(),
        Some(Failure::BadBirthday("soon".to_string()))
    );
    assert_eq!(
        gather(vec![Ok(good.clone()), Err("broken".to_string()), Ok(bad)]).err(),
        Some(Failure::UpstreamParse("broken".to_string()))
    );
    let calendar = gather(vec![Ok(good), Ok(contact(&[("N", Some("x"))]))]).unwrap();
    assert_eq!(calendar.len(), 1);
    assert_eq!(gather(Vec::new()).unwrap().len(), 0);
}

#[test]
fn rows_of_given_cards() {
    let cards = vec![
        Ok(contact(&[("FN", Some("Nobody"))])),
        Ok(contact(&[("FN", Some("Ada")), ("BDAY", Some("1815-12-10"))])),
    ];
    assert_eq!(
        rows_of_cards(cards, &None),
        Ok(vec![text_row("1815-12-10", "Ada"), text_row("?", "Nobody")])
    );
    assert_eq!(
        rows_of_cards(vec![Err("broken".to_string())], &None),
        Err(Failure::UpstreamParse("broken".to_string()))
    );
}

#[test]
fn empty_upstream() {
    assert_eq!(calendar_rows(b"", &None), Ok(Vec::new()));
    let page = Ok("<table></table>".to_string());
    assert_eq!(reply(&page), Reply { status: 200, body: Some("<table></table>".to_string()) });
}

#[test]
fn single_full_birthday() {
    let bytes = card(&["FN:Ada Lovelace", "BDAY:18151210"]);
    assert_eq!(
        calendar_rows(bytes.as_bytes(), &None),
        Ok(vec![text_row("1815-12-10", "Ada Lovelace")])
    );
}

#[test]
fn partial_birthday_with_url() {
    let bytes = card(&["FN:Grace Hopper", "BDAY:--1209", "URL:https://example/gh"]);
    assert_eq!(
        calendar_rows(bytes.as_bytes(), &None),
        Ok(vec![link_row("????-12-9", "https://example/gh", "Grace Hopper")])
    );
}

#[test]
fn search_fallback_with_space_containing_name() {
    let bytes = card(&["FN:Alan Turing", "BDAY:1912-06-23"]);
    let search = Some("https://s/?q=".to_string());
    assert_eq!(
        calendar_rows(bytes.as_bytes(), &search),
        Ok(vec![link_row("1912-6-23", "https://s/?q=Alan%20Turing", "Alan Turing")])
    );
}

#[test]
fn no_birthday() {
    let mut bytes = card(&["FN:Anonymous"]);
    bytes.push_str(&card(&["FN:Ada Lovelace", "BDAY:18151210"]));
    bytes.push_str(&card(&["FN:Zed", "BDAY:--1231"]));
    assert_eq!(
        calendar_rows(bytes.as_bytes(), &None),
        Ok(vec![
            text_row("1815-12-10", "Ada Lovelace"),
            text_row("????-12-31", "Zed"),
            text_row("?", "Anonymous"),
        ])
    );
    assert_eq!(
        calendar_rows(card(&["FN:Anonymous"]).as_bytes(), &None),
        Ok(vec![text_row("?", "Anonymous")])
    );
}

#[test]
fn bad_birthday() {
    let bytes = card(&["FN:Ada Lovelace", "BDAY:nope"]);
    let outcome = calendar_rows(bytes.as_bytes(), &None);
    assert_eq!(outcome, Err(Failure::BadBirthday("nope".to_string())));
    let failure = outcome.unwrap_err();
    assert_eq!(failure.status(), 502);
    assert!(failure.message().contains("nope"));
    assert_eq!(failure.message(), "nope is not like YYYYMMDD or --MMDD");
    assert_eq!(reply(&Err(failure)), Reply { status: 502, body: None });
}

#[test]
fn card_that_cannot_be_read() {
    let outcome = calendar_rows(b"FN:Ada Lovelace\r\nEND:VCARD\r\n", &None);
    assert!(matches!(outcome, Err(Failure::UpstreamParse(_))));
    assert_eq!(outcome.unwrap_err().status(), 502);
    let unfinished = calendar_rows(b"BEGIN:VCARD\r\nFN:Ada Lovelace\r\n", &None);
    assert!(matches!(unfinished, Err(Failure::UpstreamParse(_))));
    let mut bytes = card(&["FN:Ada Lovelace", "BDAY:nope"]);
    bytes.push_str("garbage\r\n");
    assert_eq!(
        calendar_rows(bytes.as_bytes(), &None),
        Err(Failure::BadBirthday("nope".to_string()))
    );
}

#[test]
fn cards_are_read_as_the_stream_states_them() {
    let mut bytes = card(&["FN:Zoë", "BDAY:2001-02-30", "NOTE:folded", " line"]);
    bytes.push_str(&card(&["N:No;Name", "BDAY:nope"]));
    assert_eq!(
        calendar_rows(bytes.as_bytes(), &Some("https://s/".to_string())),
        Ok(vec![link_row("2001-2-30", "https://s/Zo%C3%AB", "Zoë")])
    );
}

#[test]
fn statuses_and_words_of_failures() {
    let config = Failure::Config(EnvFailure { var: "BIRTHCAL_CARDS", err: EnvError::Missing });
    assert_eq!(config.status(), 500);
    assert_eq!(config.message(), "Environment variable BIRTHCAL_CARDS missing");
    assert_eq!(Failure::RenderFormat.status(), 500);
    assert_eq!(Failure::RenderFormat.message(), "the page could not be written");
    let transport = Failure::UpstreamTransport("timed out".to_string());
    assert_eq!(transport.status(), 502);
    assert_eq!(transport.message(), "timed out");
    let parse = Failure::UpstreamParse("incomplete object".to_string());
    assert_eq!(parse.status(), 502);
    assert_eq!(parse.message(), "incomplete object");
    assert_eq!(Failure::BadBirthday("x".to_string()).status(), 502);
}

#[test]
fn replies() {
    assert_eq!(
        reply(&Ok("<html></html>".to_string())),
        Reply { status: 200, body: Some("<html></html>".to_string()) }
    );
    assert_eq!(reply(&Err(Failure::RenderFormat)), Reply { status: 500, body: None });
    assert_eq!(
        reply(&Err(Failure::UpstreamTransport("refused".to_string()))),
        Reply { status: 502, body: None }
    );
    assert_eq!(
        reply(&Err(Failure::Config(EnvFailure { var: "X", err: EnvError::Empty }))),
        Reply { status: 500, body: None }
    );
}

#[test]
fn fetch_that_failed_is_an_upstream_failure() {
    let outcome = upstream_rows("http://u/", Err("refused".to_string()), &None);
    assert_eq!(outcome, Err(Failure::UpstreamTransport("GET http://u/: refused".to_string())));
    let failure = outcome.unwrap_err();
    assert_eq!(failure.message(), "GET http://u/: refused");
    assert_eq!(reply(&Err(failure)), Reply { status: 502, body: None });
    assert_eq!(reply(&written(None)), Reply { status: 500, body: None });
}

#[test]
fn fetched_bytes_are_read_as_cards() {
    let bytes = card(&["FN:Ada Lovelace", "BDAY:18151210"]).into_bytes();
    assert_eq!(
        upstream_rows("http://u/", Ok(bytes), &None),
        Ok(vec![text_row("1815-12-10", "Ada Lovelace")])
    );
    assert_eq!(upstream_rows("http://u/", Ok(Vec::new()), &None), Ok(Vec::new()));
}

#[test]
fn unreadable_card_is_told_with_the_address() {
    let alone = calendar_rows(b"BEGIN:VCARD\r\nFN:Ada Lovelace\r\n", &None).unwrap_err();
    let reason = match &alone {
        Failure::UpstreamParse(reason) => reason.clone(),
        other => panic!("{:?}", other),
    };
    let outcome =
        upstream_rows("http://u/", Ok(b"BEGIN:VCARD\r\nFN:Ada Lovelace\r\n".to_vec()), &None);
    assert_eq!(outcome, Err(Failure::UpstreamParse(format!("GET http://u/: {}", reason))));
    assert_eq!(outcome.unwrap_err().message(), format!("GET http://u/: {}", reason));
    let bad = card(&["FN:Ada Lovelace", "BDAY:nope"]).into_bytes();
    assert_eq!(
        upstream_rows("http://u/", Ok(bad), &None),
        Err(Failure::BadBirthday("nope".to_string()))
    );
}

#[test]
fn page_that_was_written_or_not() {
    assert_eq!(written(Some("<html></html>".to_string())), Ok("<html></html>".to_string()));
    assert_eq!(written(None), Err(Failure::RenderFormat));
}
