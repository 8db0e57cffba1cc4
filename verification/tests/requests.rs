use nativeext::{answer_request, process_request, sleep_millis, ErrorKind, Request, Response};

fn expect_responses(requests: Vec<Request>, expected: Vec<Response>) {
    let responses: Vec<Response> = requests.into_iter().map(answer_request).collect();
    let mut remaining = responses.clone();
    for response in expected {
        let Some(index) = remaining.iter().position(|x| x == &response) else {
            panic!("Response does not contain {:#?}", response);
        };
        remaining.remove(index);
    }
}

fn ping() {
    expect_responses(
        vec![
            Request::Ping { req_id: 7 },
            Request::Ping { req_id: 14 },
            Request::Ping { req_id: 8 },
            Request::Ping { req_id: 8 },
            Request::Ping { req_id: 17 },
            Request::Ping { req_id: 24 },
            Request::Ping { req_id: 18 },
            Request::Ping { req_id: 18 },
        ],
        vec![
            Response::Pong { req_id: 7 },
            Response::Pong { req_id: 14 },
            Response::Pong { req_id: 8 },
            Response::Pong { req_id: 8 },
            Response::Pong { req_id: 17 },
            Response::Pong { req_id: 24 },
            Response::Pong { req_id: 18 },
            Response::Pong { req_id: 18 },
        ],
    );
}

fn get_topics() {
    expect_responses(
        vec![
            Request::GetTextTopics {
                req_id: 7,
                url: "https://lorem.com/index.html".to_string(),
                text: "Lorem ipsum dolor sit amet, consectetur adipiscing elit, sed do eiusmod tempor incididunt ut labore et dolore magna aliqua. Ut enim ad minim veniam, quis nostrud exercitation ullamco laboris nisi ut aliquip ex ea commodo consequat. Duis aute irure dolor in reprehenderit in voluptate velit esse cillum dolore eu fugiat nulla pariatur. Excepteur sint occaecat cupidatat non proident, sunt in culpa qui officia deserunt mollit anim id est laborum.".to_string(),
            },
            Request::GetTextTopics {
                req_id: 2,
                url: "https://emptytext.com".to_string(),
                text: "".to_string(),
            },
            Request::GetTextTopics {
                req_id: 4,
                url: "https://longtext.com".to_string(),
                text: "Lorem ipsum ".repeat(100) + "dolor sit amet.",
            },
            Request::GetTextTopics {
                req_id: 8,
                url: "https://vitae.com".to_string(),
                text: " vitae  interdum, posuere ullamcorper ac ac sit amet justo. curabitur Posuere  et ".to_string(),
            },
            Request::GetTextTopics {
                req_id: 55,
                url: "".to_string(),
                text: "Lorem ipsum".to_string(),
            },
            Request::GetTextTopics {
                req_id: 5,
                url: "https://foreign.lang.com".to_string(),
                text: "这是.一个中文测.试文本".to_string(),
            },
            Request::GetTextTopics {
                req_id: 12,
                url: "https://whitespace.com".to_string(),
                text: "  \n \n ".to_string(),
            },
        ],
        vec![
            Response::ReturnTextTopics {
                req_id: 7,
                topics: vec![
                    "FROM lorem.com".to_string(),
                    "LOREM ipsum".to_string(),
                    "UT enim".to_string(),
                    "DUIS aute".to_string(),
                    "EXCEPTEUR sint".to_string(),
                ],
            },
            Response::ReturnTextTopics {
                req_id: 2,
                topics: vec!["FROM emptytext.com".to_string()],
            },
            Response::ReturnTextTopics {
                req_id: 4,
                topics: vec!["FROM longtext.com".to_string(), "LOREM ipsum".to_string()],
            },
            Response::ReturnTextTopics {
                req_id: 8,
                topics: vec![
                    "FROM vitae.com".to_string(),
                    "VITAE interdum,".to_string(),
                    "CURABITUR posuere".to_string(),
                ],
            },
            Response::Error {
                req_id: Some(55),
                error: ErrorKind::ClientProcess,
            },
            Response::ReturnTextTopics {
                req_id: 5,
                topics: vec![
                    "FROM foreign.lang.com".to_string(),
                    "这是".to_string(),
                    "一个中文测".to_string(),
                    "试文本".to_string(),
                ],
            },
            Response::ReturnTextTopics {
                req_id: 12,
                topics: vec!["FROM whitespace.com".to_string()],
            },
        ],
    );
}

#[test]
fn ping_many() {
    for _ in 0..20 {
        ping();
    }
}

#[test]
fn get_topics_many() {
    for _ in 0..100 {
        get_topics();
    }
}

#[test]
fn invalid_topic() {
    expect_responses(
        vec![
            Request::GetTextTopics {
                req_id: 7,
                url: "".to_string(),
                text: "".to_string(),
            },
            Request::GetTextTopics {
                req_id: 8,
                url: "".to_string(),
                text: "".to_string(),
            },
        ],
        vec![
            Response::Error {
                req_id: Some(7),
                error: ErrorKind::ClientProcess,
            },
            Response::Error {
                req_id: Some(8),
                error: ErrorKind::ClientProcess,
            },
        ],
    );
}

#[test]
fn ping_multiple() {
    for _ in 0..4 {
        ping();
    }
}

#[test]
fn process_request_separates_errors() {
    assert_eq!(
        process_request(Request::Ping { req_id: 3 }),
        Ok(Response::Pong { req_id: 3 })
    );
    assert_eq!(
        process_request(Request::GetTextTopics {
            req_id: 9,
            url: "".to_string(),
            text: "a b".to_string(),
        }),
        Err(Response::Error {
            req_id: Some(9),
            error: ErrorKind::ClientProcess,
        })
    );
}

#[test]
fn error_kind_into_response_has_no_request_id() {
    assert_eq!(
        Response::from(ErrorKind::Stdout),
        Response::Error {
            req_id: None,
            error: ErrorKind::Stdout,
        }
    );
}

#[test]
fn sleep_millis_range() {
    assert_eq!(sleep_millis(0), 500);
    assert_eq!(sleep_millis(255), 1775);
    assert_eq!(sleep_millis(256), 500);
    assert_eq!(sleep_millis(1001), 500 + (1001 % 256) * 5);
}
