use goojara::error::Error;
use goojara::request_client::{cookie_from_lines, Collector, HttpMethod, Reply, Request};

#[test]
fn collector_appends_and_reads_text() {
    let mut c = Collector(vec![]);
    assert_eq!(c.write("héllo ".as_bytes()), 7);
    assert_eq!(c.write(b"world"), 5);
    assert_eq!(c.get_text(), Ok("héllo world".to_string()));
}

#[test]
fn collector_rejects_invalid_utf8() {
    let mut c = Collector(vec![]);
    c.write(&[0x61, 0xff]);
    assert_eq!(c.get_text(), Err(Error::InvalidUtf8));
}

#[test]
fn request_holds_its_parts() {
    let r = Request::new("u".to_string(), Some(vec!["h".to_string()]), HttpMethod::PUT, Some(vec![1]));
    assert_eq!(r.url, "u");
    assert_eq!(r.headers, Some(vec!["h".to_string()]));
    assert_eq!(r.method, HttpMethod::PUT);
    assert_eq!(r.body, Some(vec![1]));
}

#[test]
fn reply_redirect() {
    let mut r = Reply { executed: Ok(()), data: Collector(vec![]), cookies: Ok(vec![]), redirect: Ok(None) };
    assert_eq!(r.redirect_url(), Err(Error::NoRedirect));
    r.redirect = Ok(Some("https://x".to_string()));
    assert_eq!(r.redirect_url(), Ok("https://x".to_string()));
    r.redirect = Err("e".to_string());
    assert_eq!(r.redirect_url(), Err(Error::Transport("e".to_string())));
}

#[test]
fn only_post_and_put_send_their_body() {
    let body = Some(b"a=1".to_vec());
    let get = Request::new("u".to_string(), None, HttpMethod::GET, body.clone());
    assert!(get.sent_body().is_none());
    let delete = Request::new("u".to_string(), None, HttpMethod::DELETE, body.clone());
    assert!(delete.sent_body().is_none());
    let post = Request::new("u".to_string(), None, HttpMethod::POST, body.clone());
    assert_eq!(post.sent_body(), Some(&b"a=1".to_vec()));
    let put = Request::new("u".to_string(), None, HttpMethod::PUT, body);
    assert_eq!(put.sent_body(), Some(&b"a=1".to_vec()));
    let empty_post = Request::new("u".to_string(), None, HttpMethod::POST, None);
    assert!(empty_post.sent_body().is_none());
}

#[test]
fn cookie_lines_give_the_last_cookie() {
    let lines = vec![b"h\tFALSE\t/\tFALSE\t0\ta\t1".to_vec(), b"h\tFALSE\t/\tFALSE\t0\tb\t2".to_vec()];
    assert_eq!(cookie_from_lines(&lines), Ok("b=2".to_string()));
    assert_eq!(cookie_from_lines(&vec![]), Err(Error::NoCookie));
}
