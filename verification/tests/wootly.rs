use goojara::error::Error;
use goojara::request_client::{Collector, HttpMethod, Reply};
use goojara::wootly::{UrlProgress, UrlStage, UrlStep, Wootly};

const PLAYER: &str = r#"<html><script>var vd="v123",cn="ck",cv="val",dd="dd1",tk="tok";</script></html>"#;

fn reply(body: &str, redirect: Result<Option<String>, String>) -> Reply {
    Reply {
        executed: Ok(()),
        data: Collector(body.as_bytes().to_vec()),
        cookies: Ok(vec![b"www.wootly.ch\tFALSE\t/\tFALSE\t0\tsess\tS1".to_vec()]),
        redirect,
    }
}

fn failed(msg: &str) -> Reply {
    Reply {
        executed: Err(msg.to_string()),
        data: Collector(vec![]),
        cookies: Err(msg.to_string()),
        redirect: Err(msg.to_string()),
    }
}

#[test]
fn url_search_walks_the_four_requests() {
    let w = Wootly::new("https://www.wootly.ch/e/x1");
    let (stage, req, cookie) = match w.get_url(UrlProgress::Begin).unwrap() {
        UrlStep::Send(s, r, c) => (s, r, c),
        UrlStep::Done(_) => panic!("expected a request"),
    };
    assert!(matches!(stage, UrlStage::Page));
    assert_eq!(req.url, "https://www.wootly.ch/e/x1");
    assert_eq!(req.method, HttpMethod::POST);
    assert_eq!(req.body, Some(b"qdf=1".to_vec()));
    assert_eq!(cookie, "");

    let (stage, req, cookie) = match w.get_url(UrlProgress::Replied(stage, reply(PLAYER, Ok(None)))).unwrap() {
        UrlStep::Send(s, r, c) => (s, r, c),
        UrlStep::Done(_) => panic!("expected a request"),
    };
    assert_eq!(req.url, "https://www.wootly.ch/grabd?t=tok&id=v123");
    assert_eq!(req.method, HttpMethod::GET);
    assert!(req.body.is_none());
    assert_eq!(cookie, "ck=val; sess=S1");

    let (stage, req, cookie) =
        match w.get_url(UrlProgress::Replied(stage, reply("https://cdn.example/data", Ok(None)))).unwrap() {
            UrlStep::Send(s, r, c) => (s, r, c),
            UrlStep::Done(_) => panic!("expected a request"),
        };
    assert!(matches!(&stage, UrlStage::DataSource(c) if c == "ck=val; sess=S1"));
    assert_eq!(req.url, "https://cdn.example/data");
    assert_eq!(req.method, HttpMethod::POST);
    assert_eq!(cookie, "ck=val; sess=S1");

    let (stage, req, cookie) = match w
        .get_url(UrlProgress::Replied(stage, reply("", Ok(Some("https://final/redirect1".to_string())))))
        .unwrap()
    {
        UrlStep::Send(s, r, c) => (s, r, c),
        UrlStep::Done(_) => panic!("expected a request"),
    };
    assert!(matches!(stage, UrlStage::RealUrl));
    assert_eq!(req.url, "https://final/redirect1");
    assert_eq!(req.headers, Some(vec!["Referer: https://www.wootly.ch/".to_string()]));
    assert_eq!(cookie, "");

    match w
        .get_url(UrlProgress::Replied(stage, reply("", Ok(Some("https://video/file.mp4".to_string())))))
        .unwrap()
    {
        UrlStep::Done(r) => assert_eq!(r, Ok("https://video/file.mp4".to_string())),
        UrlStep::Send(..) => panic!("expected the end"),
    }
}

fn done(w: &Wootly, p: UrlProgress) -> Result<String, Error> {
    match w.get_url(p).unwrap() {
        UrlStep::Done(r) => r,
        UrlStep::Send(..) => panic!("expected the end"),
    }
}

#[test]
fn url_search_errors() {
    let w = Wootly::new("https://www.wootly.ch/e/x1");
    assert_eq!(done(&w, UrlProgress::Replied(UrlStage::Page, failed("x"))), Err(Error::Unknown));
    assert_eq!(done(&w, UrlProgress::Replied(UrlStage::Page, reply("<p>no player</p>", Ok(None)))), Err(Error::Unknown));
    assert_eq!(
        done(&w, UrlProgress::Replied(UrlStage::Source("c".to_string()), failed("boom"))),
        Err(Error::Transport("boom".to_string()))
    );
    assert_eq!(
        done(&w, UrlProgress::Replied(UrlStage::DataSource("c".to_string()), reply("", Ok(None)))),
        Err(Error::NoRedirect)
    );
    assert_eq!(
        done(&w, UrlProgress::Replied(UrlStage::DataSource("c".to_string()), failed("x"))),
        Err(Error::Unknown)
    );
    assert_eq!(done(&w, UrlProgress::Replied(UrlStage::RealUrl, failed("x"))), Err(Error::FinalLinkFailed));
    assert_eq!(
        done(&w, UrlProgress::Replied(UrlStage::RealUrl, reply("", Err("bad".to_string())))),
        Err(Error::Transport("bad".to_string()))
    );
}
