use goojara::error::Error;
use goojara::goojara::{
    collect_movies, Details, DetailsProgress, DetailsStage, DetailsStep, Genre, Goojara, Movie, MovieCard, Parser,
};
use goojara::request_client::{Collector, HttpMethod, Reply};

const LIST_PAGE: &str = r#"<html><body><div id="xbrd"><div class="mxwd"><div class="dflex">
<div><a href="https://ww1.goojara.to/mAbc" title="Movie A"><img data-src="//img.example/a.jpg"><span class="hd hdy">2021</span><span class="hd hda">HD</span></a></div>
<div><a href="https://ww1.goojara.to/mDef" title="Movie B"><img data-src="//img.example/b.jpg"><span class="hd hdy">2019</span><span class="hd hda">CAM</span></a></div>
</div></div></div></body></html>"#;

const DETAILS_PAGE: &str = r#"<html><body><div id="alger"><div><div class="marl"><div class="date">1h 50m | Action, Thriller | 2021</div><div class="fimm"><p>A thief steals.</p><p>Director: Jane Doe</p><p>Cast: Ann, Bob</p></div></div></div></div>
<div id="shd" data-ins="ABCDEFG0123201"></div>
<script>_3chk('abcCookie','xyz123');</script></body></html>"#;

fn movie(url: &str, title: &str, img: &str, quality: &str, year: &str) -> Movie {
    Movie {
        url: url.to_string(),
        title: title.to_string(),
        img: img.to_string(),
        quality: quality.to_string(),
        year: year.to_string(),
    }
}

fn reply(body: &str, cookies: Result<Vec<Vec<u8>>, String>) -> Reply {
    Reply {
        executed: Ok(()),
        data: Collector(body.as_bytes().to_vec()),
        cookies,
        redirect: Ok(None),
    }
}

fn failed_reply() -> Reply {
    Reply {
        executed: Err("Couldn't connect to server".to_string()),
        data: Collector(vec![]),
        cookies: Err("no transfer".to_string()),
        redirect: Err("no transfer".to_string()),
    }
}

fn same_movie(a: &Movie, b: &Movie) -> bool {
    a.url == b.url && a.title == b.title && a.img == b.img && a.quality == b.quality && a.year == b.year
}

#[test]
fn genre_names() {
    assert_eq!(Genre::ACTION.get_text(), "Action");
    assert_eq!(Genre::ADVENTURE.get_text(), "Adventure");
    assert_eq!(Genre::COMEDY.get_text(), "Comedy");
    assert_eq!(Genre::SCIFI.get_text(), "Sci-Fi");
}

#[test]
fn split_input_reads_the_details_line() {
    let (duration, genres, release) = Parser::split_input("1h 50m | Action, Thriller | 2021").unwrap();
    assert_eq!(duration, "1h 50m");
    assert_eq!(genres, vec!["Action".to_string(), "Thriller".to_string()]);
    assert_eq!(release, "2021");
    assert!(Parser::split_input("1h 50m | Action").is_none());
    let (_, genres, release) = Parser::split_input("a | b | c | d").unwrap();
    assert_eq!(genres, vec!["b".to_string()]);
    assert_eq!(release, "c");
}

#[test]
fn page_movies_are_read_in_order() {
    let movies = Parser {}.get_page_movies(LIST_PAGE.to_string()).unwrap();
    assert_eq!(movies.len(), 2);
    assert!(same_movie(
        &movies[0],
        &movie("https://ww1.goojara.to/mAbc", "Movie A", "https://img.example/a.jpg", "HD", "2021")
    ));
    assert!(same_movie(
        &movies[1],
        &movie("https://ww1.goojara.to/mDef", "Movie B", "https://img.example/b.jpg", "CAM", "2019")
    ));
}

#[test]
fn page_without_container_is_an_error() {
    let r = Parser {}.get_page_movies("<html><body><p>nothing</p></body></html>".to_string());
    assert_eq!(r.err(), Some(Error::NoMovieContainer));
}

#[test]
fn page_card_errors_come_in_order() {
    let no_img = r#"<div id="xbrd"><div class="mxwd"><div class="dflex"><div><a href="/m" title="T"><span class="hd hdy">2020</span></a></div></div></div></div>"#;
    assert_eq!(Parser {}.get_page_movies(no_img.to_string()).err(), Some(Error::NoCoverImage));
    let no_year = r#"<div id="xbrd"><div class="mxwd"><div class="dflex"><div><a href="/m" title="T"><img data-src="//i"><span class="hd hda">HD</span></a></div></div></div></div>"#;
    assert_eq!(Parser {}.get_page_movies(no_year.to_string()).err(), Some(Error::NoReleaseDate));
    let no_quality = r#"<div id="xbrd"><div class="mxwd"><div class="dflex"><div><a href="/m" title="T"><img data-src="//i"><span class="hd hdy">2020</span></a></div></div></div></div>"#;
    assert_eq!(Parser {}.get_page_movies(no_quality.to_string()).err(), Some(Error::NoQuality));
}

#[test]
fn card_without_title_is_skipped() {
    let page = r#"<div id="xbrd"><div class="mxwd"><div class="dflex"><div><a href="/m"><img data-src="//i"><span class="hd hdy">2020</span><span class="hd hda">HD</span></a></div></div></div></div>"#;
    assert_eq!(Parser {}.get_page_movies(page.to_string()).unwrap().len(), 0);
}

#[test]
fn collect_movies_stops_at_the_first_failing_card() {
    let good = MovieCard {
        url: Some("/a".to_string()),
        title: Some("A".to_string()),
        cover: Some(Some("//a.jpg".to_string())),
        year: Some("2000".to_string()),
        quality: Some("HD".to_string()),
    };
    let bad = MovieCard { url: None, title: None, cover: None, year: None, quality: None };
    let skipped = MovieCard { url: None, ..MovieCard { ..clone_card(&good) } };
    let ms = collect_movies(vec![clone_card(&good), skipped]).unwrap();
    assert_eq!(ms.len(), 1);
    assert_eq!(ms[0].img, "https://a.jpg");
    assert_eq!(collect_movies(vec![good, bad]).err(), Some(Error::NoCoverImage));
}

fn clone_card(c: &MovieCard) -> MovieCard {
    MovieCard {
        url: c.url.clone(),
        title: c.title.clone(),
        cover: c.cover.clone(),
        year: c.year.clone(),
        quality: c.quality.clone(),
    }
}

#[test]
fn woolty_url_is_the_iframe_source() {
    let p = Parser {};
    assert_eq!(
        p.get_woolty_url(r#"<div><iframe src="https://www.wootly.ch/e/x1"></iframe></div>"#.to_string()),
        Ok("https://www.wootly.ch/e/x1".to_string())
    );
    assert_eq!(p.get_woolty_url("<div></div>".to_string()), Err(Error::MissingDetails));
    assert_eq!(p.get_woolty_url("<iframe></iframe>".to_string()), Err(Error::NoUrl));
}

#[test]
fn movie_details_are_read() {
    let m = movie("https://ww1.goojara.to/mAbc", "Movie A", "https://img.example/a.jpg", "HD", "2021");
    let d: Details = Parser::try_movie_details(DETAILS_PAGE.to_string(), "c=1".to_string(), m).unwrap().unwrap();
    assert_eq!(d.description, "A thief steals.");
    assert_eq!(d.directors, vec!["Jane Doe".to_string()]);
    assert_eq!(d.casts, vec!["Ann".to_string(), "Bob".to_string()]);
    assert_eq!(d.genres, vec!["Action".to_string(), "Thriller".to_string()]);
    assert_eq!(d.duration, "1h 50m");
    assert_eq!(d.release_date, "2021");
    assert_eq!(d.id, "ABCDEFG0123201");
    assert_eq!(d.cookie, "c=1; abcCookie=xyz123;");
    assert_eq!(d.movie.title, "Movie A");
    let d2 = Parser {}.get_movie_details(DETAILS_PAGE.to_string(), String::new(), d.movie.clone()).unwrap();
    assert_eq!(d2.cookie, "; abcCookie=xyz123;");
}

#[test]
fn movie_details_errors() {
    let m = movie("u", "t", "i", "q", "y");
    let missing = Parser::try_movie_details("<p>x</p>".to_string(), String::new(), m.clone()).unwrap();
    assert_eq!(missing.err(), Some(Error::MissingDetails));
    let two_paragraphs = DETAILS_PAGE.replace("<p>Cast: Ann, Bob</p>", "");
    let r = Parser::try_movie_details(two_paragraphs, String::new(), m.clone()).unwrap();
    assert_eq!(r.err(), Some(Error::IncompleteDetails));
    let short_line = DETAILS_PAGE.replace(" | 2021", "");
    let r = Parser::try_movie_details(short_line, String::new(), m.clone()).unwrap();
    assert_eq!(r.err(), Some(Error::IncompleteDetails));
    let no_id = DETAILS_PAGE.replace(r#" data-ins="ABCDEFG0123201""#, "");
    assert!(Parser::try_movie_details(no_id, String::new(), m).is_none());
}

#[test]
fn parse_cookie_takes_the_last_line() {
    let mut g = Goojara::new();
    let list = vec![
        b"ww1.goojara.to\tFALSE\t/\tFALSE\t0\tfirst\t1".to_vec(),
        b"#HttpOnly_.goojara.to\tTRUE\t/\tFALSE\t0\taGooz\tabc123".to_vec(),
    ];
    assert_eq!(g.parse_cookie(list), Ok("aGooz=abc123".to_string()));
    assert_eq!(g.parse_cookie(vec![]), Err(Error::NoCookie));
    assert_eq!(g.parse_cookie(vec![b"a\tb".to_vec()]), Ok("a=b".to_string()));
}

#[test]
fn hash_cookie_is_generated() {
    let mut g = Goojara::new();
    let text = "Xyzabc Defghi12 klmnopqrstuv";
    assert!(Goojara::can_generate_hash_cookie(text, "ABCDEFG0123201"));
    assert_eq!(
        g.generate_hash_cookie(text, "ABCDEFG0123201"),
        Ok("_azxy=DD6E27C434A0499894CDE3CBFFF5DF78367F2F0E;".to_string())
    );
}

#[test]
fn hash_cookie_errors() {
    let mut g = Goojara::new();
    let text = "Xyzabc Defghi12 klmnopqrstuv";
    assert_eq!(g.generate_hash_cookie(text, "ABCDEFG012320x"), Err(Error::InvalidDigit));
    assert_eq!(g.generate_hash_cookie(text, "ABCDEFG0123209"), Err(Error::IndexOutOfRange));
    assert_eq!(g.generate_hash_cookie(text, "ABCDEFG012a201"), Err(Error::NotADigit));
    assert_eq!(g.generate_hash_cookie(text, "ABCDEFG0127201"), Err(Error::IndexOutOfRange));
    assert_eq!(g.generate_hash_cookie(text, "ABCDEFGx123201"), Err(Error::NotADigit));
    assert!(!Goojara::can_generate_hash_cookie(text, "ABC01"));
    assert!(!Goojara::can_generate_hash_cookie(text, "ABCDEFG0123291"));
    assert!(Goojara::can_generate_hash_cookie(text, "ABCDEFG0123299"));
}

#[test]
fn genre_request_names_the_page() {
    let g = Goojara::new();
    let (req, cookie) = g.genre_request(Genre::SCIFI, 2);
    assert_eq!(req.url, "https://www.goojara.to/watch-movies-genre-Sci-Fi?p=2");
    assert_eq!(req.method, HttpMethod::GET);
    assert!(req.headers.is_none() && req.body.is_none());
    assert_eq!(cookie, "");
}

#[test]
fn genre_movies_keep_the_transfer_cookie() {
    let mut g = Goojara::new();
    let list = vec![b"ww1.goojara.to\tFALSE\t/\tFALSE\t0\taGooz\tz9".to_vec()];
    let ms = g.get_genre_movies(reply(LIST_PAGE, Ok(list))).unwrap();
    assert_eq!(ms.len(), 2);
    assert_eq!(g.cookies(), "aGooz=z9");
    assert_eq!(g.get_genre_movies(failed_reply()).err(), Some(Error::RequestFailed));
    assert_eq!(g.cookies(), "aGooz=z9");
    let bad = Reply { data: Collector(vec![0xff, 0xfe]), ..reply("", Ok(vec![])) };
    assert_eq!(g.get_genre_movies(bad).err(), Some(Error::InvalidUtf8));
}

#[test]
fn details_flow_attaches_the_hash_cookie() {
    let mut g = Goojara::new();
    let m = movie("https://ww1.goojara.to/mAbc", "Movie A", "https://img.example/a.jpg", "HD", "2021");
    let (req, _) = g.details_request(&m);
    assert_eq!(req.url, m.url);
    let mut d = g.details(m, reply(DETAILS_PAGE, Ok(vec![]))).unwrap().unwrap();
    assert_eq!(d.cookie, "; abcCookie=xyz123;");
    let (req, cookie) = Goojara::cookie_data_request(&d.movie.url, &d.cookie);
    assert_eq!(req.url, "https://ww1.goojara.to/mAbc?p=2");
    assert_eq!(req.method, HttpMethod::POST);
    assert_eq!(req.body, Some(b"act=1".to_vec()));
    assert_eq!(
        req.headers,
        Some(vec![
            "cookie: ; abcCookie=xyz123;".to_string(),
            "Content-type: application/x-www-form-urlencoded".to_string()
        ])
    );
    assert_eq!(cookie, d.cookie);
    let id = d.id.clone();
    let hash_cookie = g.get_cookie_data(reply("Xyzabc Defghi12 klmnopqrstuv", Ok(vec![])), &id).unwrap();
    d.attach_cookie(hash_cookie);
    assert_eq!(d.cookie, "; abcCookie=xyz123; _azxy=DD6E27C434A0499894CDE3CBFFF5DF78367F2F0E;");
    d.attach_cookie(Err(Error::RequestFailed));
    assert_eq!(d.cookie, "; abcCookie=xyz123; _azxy=DD6E27C434A0499894CDE3CBFFF5DF78367F2F0E;");
    assert_eq!(g.get_cookie_data(failed_reply(), &id), Some(Err(Error::RequestFailed)));
    assert_eq!(g.get_cookie_data(reply("one two", Ok(vec![])), "short"), None);
    assert_eq!(g.details(movie("u", "t", "i", "q", "y"), failed_reply()).map(|r| r.err()), Some(Some(Error::RequestFailed)));
}

#[test]
fn woolty_request_is_signed() {
    let g = Goojara::new();
    let d = Details {
        movie: movie("https://ww1.goojara.to/mAbc", "Movie A", "i", "q", "y"),
        description: String::new(),
        casts: vec![],
        directors: vec![],
        genres: vec![],
        duration: String::new(),
        release_date: String::new(),
        id: "ABCDEFG0123201".to_string(),
        cookie: "c=1".to_string(),
    };
    let (req, cookie) = g.woolty_request(&d, 1700000000).unwrap();
    assert_eq!(
        req.url,
        "https://ww1.goojara.to/mAbc?p=2&sig=0d214db13dc8fdbe3690069aee47c270f7a103da&exp=1700000000"
    );
    assert_eq!(req.body, Some(b"act=2&ogn=mAbc&hash=f63c91592de0eb662cbafd9fa1b21df10cdfb1c9".to_vec()));
    assert_eq!(req.method, HttpMethod::GET);
    let headers = req.headers.unwrap();
    assert_eq!(headers.len(), 9);
    assert_eq!(headers[0], "cookie: c=1");
    assert_eq!(headers[8], "Sec-Fetch-Site: same-origin");
    assert_eq!(cookie, "c=1");
    let (req, _) = g.woolty_request(&d, -5).unwrap();
    assert!(req.url.ends_with("&exp=-5"));
    assert!(req.url.contains("sig=f3d02455844567ce6ef1ac7615ccbd653058892e"));
    assert!(g.woolty_request_now(&d).is_some());
}

#[test]
fn woolty_reads_the_player() {
    let mut g = Goojara::new();
    let w = g.woolty(reply(r#"<iframe src="https://www.wootly.ch/e/x1"></iframe>"#, Ok(vec![])));
    assert!(w.is_ok());
    assert_eq!(g.woolty(failed_reply()).err(), Some(Error::WoolySendFailed));
    assert_eq!(g.woolty(reply("<p></p>", Ok(vec![]))).err(), Some(Error::MissingDetails));
}

#[test]
fn parsed_cookie_has_no_tab() {
    let mut g = Goojara::new();
    let c = g.parse_cookie(vec![b"host\tFALSE\t/\tFALSE\t0\tname\tva\tlue".to_vec()]).unwrap();
    assert_eq!(c, "name=va=lue");
    assert!(!c.contains('\t'));
}

fn details_of(step: Option<DetailsStep>) -> Result<Details, Error> {
    match step {
        Some(DetailsStep::Done(r)) => r,
        _ => panic!("expected the end of the reading"),
    }
}

#[test]
fn details_step_walks_the_two_requests() {
    let mut g = Goojara::new();
    let m = movie("https://ww1.goojara.to/mAbc", "Movie A", "https://img.example/a.jpg", "HD", "2021");
    let (stage, req, cookie) = match g.details_step(&m, DetailsProgress::Begin) {
        Some(DetailsStep::Send(stage, req, cookie)) => (stage, req, cookie),
        _ => panic!("expected the page request"),
    };
    assert!(matches!(stage, DetailsStage::Page));
    assert_eq!(req.url, "https://ww1.goojara.to/mAbc");
    assert_eq!(req.method, HttpMethod::GET);
    assert!(req.headers.is_none() && req.body.is_none());
    assert_eq!(cookie, "");
    let page = DetailsProgress::Replied(stage, reply(DETAILS_PAGE, Ok(vec![])));
    let (stage, req, cookie) = match g.details_step(&m, page) {
        Some(DetailsStep::Send(stage, req, cookie)) => (stage, req, cookie),
        _ => panic!("expected the cookie data request"),
    };
    match &stage {
        DetailsStage::CookieData(d) => {
            assert_eq!(d.id, "ABCDEFG0123201");
            assert_eq!(d.cookie, "; abcCookie=xyz123;");
        }
        DetailsStage::Page => panic!("expected the cookie data stage"),
    }
    assert_eq!(req.url, "https://ww1.goojara.to/mAbc?p=2");
    assert_eq!(req.method, HttpMethod::POST);
    assert_eq!(req.body, Some(b"act=1".to_vec()));
    assert_eq!(cookie, "; abcCookie=xyz123;");
    let data = DetailsProgress::Replied(stage, reply("Xyzabc Defghi12 klmnopqrstuv", Ok(vec![])));
    let d = details_of(g.details_step(&m, data)).unwrap();
    assert_eq!(d.cookie, "; abcCookie=xyz123; _azxy=DD6E27C434A0499894CDE3CBFFF5DF78367F2F0E;");
    assert_eq!(d.description, "A thief steals.");
    assert_eq!(d.movie.title, "Movie A");
    assert_eq!(g.cookies(), "");
}

#[test]
fn details_step_stops_after_a_failed_page() {
    let mut g = Goojara::new();
    let m = movie("u", "t", "i", "q", "y");
    let r = details_of(g.details_step(&m, DetailsProgress::Replied(DetailsStage::Page, failed_reply())));
    assert_eq!(r.err(), Some(Error::RequestFailed));
    let bad = Reply { data: Collector(vec![0xff]), ..reply("", Ok(vec![])) };
    let r = details_of(g.details_step(&m, DetailsProgress::Replied(DetailsStage::Page, bad)));
    assert_eq!(r.err(), Some(Error::InvalidUtf8));
    let r = details_of(g.details_step(&m, DetailsProgress::Replied(DetailsStage::Page, reply("<p>x</p>", Ok(vec![])))));
    assert_eq!(r.err(), Some(Error::MissingDetails));
    let no_id = DETAILS_PAGE.replace(r#" data-ins="ABCDEFG0123201""#, "");
    assert!(g.details_step(&m, DetailsProgress::Replied(DetailsStage::Page, reply(&no_id, Ok(vec![])))).is_none());
}

#[test]
fn details_step_keeps_the_cookie_when_the_cookie_data_fails() {
    let mut g = Goojara::new();
    let m = movie("https://ww1.goojara.to/mAbc", "Movie A", "i", "q", "y");
    let d = Parser::try_movie_details(DETAILS_PAGE.to_string(), String::new(), m.clone()).unwrap().unwrap();
    let r = details_of(g.details_step(&m, DetailsProgress::Replied(DetailsStage::CookieData(d.clone()), failed_reply())));
    assert_eq!(r.unwrap().cookie, "; abcCookie=xyz123;");
    let r = details_of(g.details_step(
        &m,
        DetailsProgress::Replied(DetailsStage::CookieData(d.clone()), reply("Xyzabc", Ok(vec![]))),
    ));
    assert_eq!(r.unwrap().cookie, "; abcCookie=xyz123;");
    let mut odd = d;
    odd.id = "ABCDEFG0123291".to_string();
    let text = reply("Xyzabc Defghi12 klmnopqrstuv", Ok(vec![]));
    assert!(g.details_step(&m, DetailsProgress::Replied(DetailsStage::CookieData(odd), text)).is_none());
}

#[test]
fn woolty_request_at_expires_a_minute_later() {
    let g = Goojara::new();
    let d = Details {
        movie: movie("https://ww1.goojara.to/mAbc", "Movie A", "i", "q", "y"),
        description: String::new(),
        casts: vec![],
        directors: vec![],
        genres: vec![],
        duration: String::new(),
        release_date: String::new(),
        id: "ABCDEFG0123201".to_string(),
        cookie: "c=1".to_string(),
    };
    let (req, cookie) = g.woolty_request_at(&d, 1699999940).unwrap();
    assert_eq!(
        req.url,
        "https://ww1.goojara.to/mAbc?p=2&sig=0d214db13dc8fdbe3690069aee47c270f7a103da&exp=1700000000"
    );
    assert_eq!(cookie, "c=1");
    assert!(req.sent_body().is_none());
    assert!(g.woolty_request_at(&d, i64::MAX - 59).is_none());
    assert!(g.woolty_request_at(&d, i64::MAX - 60).is_some());
}
