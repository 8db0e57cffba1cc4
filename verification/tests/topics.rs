use nativeext::{get_text_topics, join_topic, ErrorKind};

#[test]
fn get_text_topics_works() {
    let long_text = "Lorem ipsum ".repeat(100) + "dolor sit amet.";
    let input = [
        (
            "https://lorem.com/index.html",
            "Lorem ipsum dolor sit amet, consectetur adipiscing elit, sed do eiusmod tempor incididunt ut labore et dolore magna aliqua. Ut enim ad minim veniam, quis nostrud exercitation ullamco laboris nisi ut aliquip ex ea commodo consequat. Duis aute irure dolor in reprehenderit in voluptate velit esse cillum dolore eu fugiat nulla pariatur. Excepteur sint occaecat cupidatat non proident, sunt in culpa qui officia deserunt mollit anim id est laborum.",
        ),
        ("https://emptytext.com", ""),
        ("https://longtext.com", long_text.as_str()),
        (
            "https://vitae.com",
            " vitae  interdum, posuere ullamcorper ac ac sit amet justo. curabitur Posuere  et ",
        ),
        ("https://foreign.lang.com", "这是.一个中文测.试文本"),
        ("https://whitespace.com", "  \n \n "),
    ];
    let expected = [
        vec![
            "FROM lorem.com".to_string(),
            "LOREM ipsum".to_string(),
            "UT enim".to_string(),
            "DUIS aute".to_string(),
            "EXCEPTEUR sint".to_string(),
        ],
        vec!["FROM emptytext.com".to_string()],
        vec!["FROM longtext.com".to_string(), "LOREM ipsum".to_string()],
        vec![
            "FROM vitae.com".to_string(),
            "VITAE interdum,".to_string(),
            "CURABITUR posuere".to_string(),
        ],
        vec![
            "FROM foreign.lang.com".to_string(),
            "这是".to_string(),
            "一个中文测".to_string(),
            "试文本".to_string(),
        ],
        vec!["FROM whitespace.com".to_string()],
    ];

    assert_eq!(input.len(), expected.len());
    for (i, (url, text)) in input.into_iter().enumerate() {
        let output = get_text_topics(url, text);
        assert_eq!(output, Ok(expected[i].clone()));
    }
}

#[test]
fn get_text_topics_returns_error() {
    assert_eq!(
        get_text_topics("", "Lorem ipsum"),
        Err(ErrorKind::ClientProcess),
    );
}

#[test]
fn get_text_topics_domain_without_scheme_or_path() {
    assert_eq!(
        get_text_topics("example.org/a/b", "x"),
        Ok(vec!["FROM example.org".to_string(), "X".to_string()])
    );
    assert_eq!(
        get_text_topics("file:///tmp/page", ""),
        Ok(vec!["FROM ".to_string()])
    );
    assert_eq!(
        get_text_topics("a://b://c/d", ""),
        Ok(vec!["FROM b:".to_string()])
    );
}

#[test]
fn get_text_topics_unicode_whitespace_and_case() {
    // U+3000 IDEOGRAPHIC SPACE and U+00A0 NO-BREAK SPACE separate words too.
    assert_eq!(
        get_text_topics("https://x.io", "straße\u{3000}ÄRGER.\u{a0}éclair  ÉCLAT."),
        Ok(vec![
            "FROM x.io".to_string(),
            "STRASSE ärger".to_string(),
            "ÉCLAIR éclat".to_string(),
        ])
    );
}

#[test]
fn join_topic_joins_with_space() {
    assert_eq!(join_topic("LOREM".to_string(), Some("ipsum".to_string())), "LOREM ipsum");
    assert_eq!(join_topic("ALONE".to_string(), None), "ALONE");
}
