use vstd::prelude::*;

use crate::error::Error;
use crate::pattern::{compile, regex_captures, regex_valid};
use crate::request_client::{
    body_text, cookie_from_lines, spec_parse_cookie, spec_redirect_url, spec_sent_body, HttpMethod, Reply,
    Request, RequestSpec,
};
use crate::text::{spec_split, spec_trim_quotes, split, str_eq, trim_quotes, utf8_bytes};
use vstd::utf8::*;

verus! {

/// Reads the player parameters out of a player page.
#[derive(Clone, Copy, Debug)]
struct Parser;

/// The player page pattern: the `var vd=...,cn=...,cv=...,dd=...,tk=...";`
/// declaration.
pub open spec fn player_pattern() -> Seq<char> {
    "var\\svd.+?,cn.+?,cv.+?,dd.+?,tk.+?\";"@
}

/// The value the declaration gives `key`: the right side of the last of
/// the first `n` pieces that is `key=value` (one `=` only); empty when
/// none is.
pub open spec fn field_value(pieces: Seq<Seq<char>>, key: Seq<char>, n: nat) -> Seq<char>
    decreases n,
{
    if n == 0 {
        seq![]
    } else {
        let kv = spec_split(pieces[n - 1], "="@);
        if kv.len() == 2 && kv[0] == key {
            kv[1]
        } else {
            field_value(pieces, key, (n - 1) as nat)
        }
    }
}

/// The value the declaration `data` gives `key`, quotes and semicolons
/// trimmed.
pub open spec fn declared(data: Seq<char>, key: Seq<char>) -> Seq<char> {
    let pieces = spec_split(data, ","@);
    spec_trim_quotes(field_value(pieces, key, pieces.len()))
}

/// What a player page gives: the grab URL built from the `tk` and `vd`
/// values and the cookie `cn=cv;`; an error when the page holds no
/// declaration. `None` where the pattern does not compile.
pub open spec fn spec_player(html: Seq<char>) -> Option<Result<(Seq<char>, Seq<char>), Error>> {
    if !regex_valid(player_pattern()) {
        None
    } else {
        match regex_captures(player_pattern(), html) {
            None => Some(Err(Error::NoUrl)),
            Some(g) => {
                let data = g[0]->Some_0;
                Some(
                    Ok(
                        (
                            "https://www.wootly.ch/grabd?t="@ + declared(data, "tk"@) + "&id="@
                                + declared(data, "var vd"@),
                            declared(data, "cn"@) + "="@ + declared(data, "cv"@) + ";"@,
                        ),
                    ),
                )
            },
        }
    }
}

impl Parser {
    /// The grab URL and the cookie of a player page.
    fn get_url(&self, html: &str) -> (r: Option<Result<(String, String), Error>>)
        ensures
            match r {
                None => spec_player(html@) is None,
                Some(Err(e)) => spec_player(html@) == Some(Err::<(Seq<char>, Seq<char>), Error>(e)),
                Some(Ok((u, c))) => spec_player(html@) == Some(Ok::<(Seq<char>, Seq<char>), Error>((u@, c@))),
            },
    {
        let regex = match compile("var\\svd.+?,cn.+?,cv.+?,dd.+?,tk.+?\";") {
            Some(p) => p,
            None => return None,
        };
        let capture = match regex.captures(html) {
            Some(g) => g,
            None => return Some(Err(Error::NoUrl)),
        };
        let data = capture[0].clone().unwrap();
        proof {
            reveal_strlit(",");
            reveal_strlit("=");
        }
        let pieces = split(data.as_str(), ",");
        let ghost pv = pieces.deep_view();
        let mut vd = String::new();
        let mut cn = String::new();
        let mut cv = String::new();
        let mut tk = String::new();
        for i in 0..pieces.len()
            invariant
                pv == pieces.deep_view(),
                pv.len() == pieces@.len(),
                vd@ == field_value(pv, "var vd"@, i as nat),
                cn@ == field_value(pv, "cn"@, i as nat),
                cv@ == field_value(pv, "cv"@, i as nat),
                tk@ == field_value(pv, "tk"@, i as nat),
        {
            proof {
                reveal_strlit("=");
                reveal_strlit("var vd");
                reveal_strlit("cn");
                reveal_strlit("cv");
                reveal_strlit("tk");
                assert("var vd"@.len() == 6 && "cn"@.len() == 2 && "cv"@.len() == 2 && "tk"@.len() == 2);
                assert("var vd"@ != "cn"@ && "var vd"@ != "cv"@ && "var vd"@ != "tk"@);
                assert("cn"@[1] != "cv"@[1] && "cn"@[0] != "tk"@[0] && "cv"@[0] != "tk"@[0]);
            }
            let parts = split(pieces[i].as_str(), "=");
            assert(pv[i as int] == pieces@[i as int]@);
            assert(spec_split(pv[i as int], "="@) == parts.deep_view());
            if parts.len() == 2 {
                let key = parts[0].as_str();
                assert(key@ == parts.deep_view()[0]);
                assert(parts[1]@ == parts.deep_view()[1]);
                if str_eq(key, "var vd") {
                    vd = parts[1].clone();
                } else if str_eq(key, "cn") {
                    cn = parts[1].clone();
                } else if str_eq(key, "cv") {
                    cv = parts[1].clone();
                } else if str_eq(key, "tk") {
                    tk = parts[1].clone();
                }
            }
        }
        let mut url = String::new();
        url.append("https://www.wootly.ch/grabd?t=");
        url.append(trim_quotes(tk.as_str()).as_str());
        url.append("&id=");
        url.append(trim_quotes(vd.as_str()).as_str());
        let mut cookie = trim_quotes(cn.as_str());
        cookie.append("=");
        cookie.append(trim_quotes(cv.as_str()).as_str());
        cookie.append(";");
        Some(Ok((url, cookie)))
    }
}


/// The player link of a movie and the cookie to send with it.
#[derive(Clone, Debug)]
pub struct Wootly {
    url: String,
    cookie: String,
    parser: Parser,
}

/// Which reply `Wootly::get_url` waits for: the player page, the grab
/// response (with the cookie to keep), the data source (with the cookie),
/// or the final redirect.
pub enum UrlStage {
    Page,
    Source(String),
    DataSource(String),
    RealUrl,
}

/// Where the search for the video link stands: at its beginning, or with
/// the reply to the request of a stage.
pub enum UrlProgress {
    Begin,
    Replied(UrlStage, Reply),
}

/// What to do next: send a request with a cookie and then report its reply
/// for the given stage, or stop with the link or the error.
pub enum UrlStep {
    Send(UrlStage, Request, String),
    Done(Result<String, Error>),
}

/// The view of a `UrlStage`.
pub enum StageSpec {
    Page,
    Source(Seq<char>),
    DataSource(Seq<char>),
    RealUrl,
}

impl View for UrlStage {
    type V = StageSpec;

    open spec fn view(&self) -> StageSpec {
        match self {
            UrlStage::Page => StageSpec::Page,
            UrlStage::Source(c) => StageSpec::Source(c@),
            UrlStage::DataSource(c) => StageSpec::DataSource(c@),
            UrlStage::RealUrl => StageSpec::RealUrl,
        }
    }
}

/// The view of a `UrlStep`.
pub enum StepSpec {
    Send(StageSpec, RequestSpec, Seq<char>),
    Done(Result<Seq<char>, Error>),
}

impl View for UrlStep {
    type V = StepSpec;

    open spec fn view(&self) -> StepSpec {
        match self {
            UrlStep::Send(s, r, c) => StepSpec::Send(s@, r@, c@),
            UrlStep::Done(Ok(u)) => StepSpec::Done(Ok(u@)),
            UrlStep::Done(Err(e)) => StepSpec::Done(Err(*e)),
        }
    }
}

/// The form body `qdf=1`.
pub open spec fn qdf_body() -> Seq<u8> {
    encode_utf8("qdf=1"@)
}

/// The cookie after a page: the page's cookie, followed by a space and the
/// transfer's own cookie when it holds one (see `spec_parse_cookie`).
pub open spec fn spec_merged_cookie(cookie: Seq<char>, cookies: Result<Vec<Vec<u8>>, String>) -> Seq<char> {
    match cookies {
        Err(_) => cookie,
        Ok(list) => match spec_parse_cookie(list.deep_view()) {
            Ok(c) => cookie + " "@ + c,
            Err(_) => cookie,
        },
    }
}

/// The next step of the search for the video link of the player at `url`,
/// sent with `cookie` first. `None` where the player page pattern does not
/// compile.
pub open spec fn spec_get_url(url: Seq<char>, cookie: Seq<char>, progress: UrlProgress) -> Option<StepSpec> {
    match progress {
        UrlProgress::Begin => Some(
            StepSpec::Send(
                StageSpec::Page,
                RequestSpec { url, headers: None, method: HttpMethod::POST, body: Some(qdf_body()) },
                cookie,
            ),
        ),
        UrlProgress::Replied(stage, r) => match stage {
            UrlStage::Page => if r.executed is Err {
                Some(StepSpec::Done(Err(Error::Unknown)))
            } else {
                match body_text(r) {
                    None => Some(StepSpec::Done(Err(Error::InvalidUtf8))),
                    Some(html) => match spec_player(html) {
                        None => None,
                        Some(Err(_)) => Some(StepSpec::Done(Err(Error::Unknown))),
                        Some(Ok((source, c0))) => {
                            let ck = spec_merged_cookie(c0, r.cookies);
                            Some(
                                StepSpec::Send(
                                    StageSpec::Source(ck),
                                    RequestSpec {
                                        url: source,
                                        headers: None,
                                        method: HttpMethod::GET,
                                        body: None,
                                    },
                                    ck,
                                ),
                            )
                        },
                    },
                }
            },
            UrlStage::Source(ck) => match r.executed {
                Err(m) => Some(StepSpec::Done(Err(Error::Transport(m)))),
                Ok(_) => match body_text(r) {
                    None => Some(StepSpec::Done(Err(Error::InvalidUtf8))),
                    Some(u) => Some(
                        StepSpec::Send(
                            StageSpec::DataSource(ck@),
                            RequestSpec {
                                url: u,
                                headers: None,
                                method: HttpMethod::POST,
                                body: Some(qdf_body()),
                            },
                            ck@,
                        ),
                    ),
                },
            },
            UrlStage::DataSource(_) => if r.executed is Err {
                Some(StepSpec::Done(Err(Error::Unknown)))
            } else {
                match spec_redirect_url(r.redirect) {
                    Err(e) => Some(StepSpec::Done(Err(e))),
                    Ok(u) => Some(
                        StepSpec::Send(
                            StageSpec::RealUrl,
                            RequestSpec {
                                url: u,
                                headers: Some(seq!["Referer: https://www.wootly.ch/"@]),
                                method: HttpMethod::POST,
                                body: Some(qdf_body()),
                            },
                            seq![],
                        ),
                    ),
                }
            },
            UrlStage::RealUrl => if r.executed is Err {
                Some(StepSpec::Done(Err(Error::FinalLinkFailed)))
            } else {
                Some(StepSpec::Done(spec_redirect_url(r.redirect)))
            },
        },
    }
}

/// The form body `qdf=1` as bytes.
fn qdf() -> (b: Vec<u8>)
    ensures
        b@ == qdf_body(),
{
    utf8_bytes("qdf=1")
}

impl Wootly {
    /// A player at `url`, with no cookie yet.
    pub fn new(url: &str) -> (w: Self)
        ensures
            w.spec_url() == url@,
            w.spec_cookie() == Seq::<char>::empty(),
    {
        Self { url: String::from_str(url), cookie: String::new(), parser: Parser {} }
    }

    /// The player link.
    pub closed spec fn spec_url(&self) -> Seq<char> {
        self.url@
    }

    /// The cookie sent with the player page.
    pub closed spec fn spec_cookie(&self) -> Seq<char> {
        self.cookie@
    }

    /// The next step of the search for the video link: the player page,
    /// then the grab URL it names, then the data source that answers, then
    /// the redirect of that source, which is the link. `None` where the
    /// player page pattern does not compile.
    pub fn get_url(&self, progress: UrlProgress) -> (r: Option<UrlStep>)
        ensures
            match r {
                Some(step) => spec_get_url(self.spec_url(), self.spec_cookie(), progress) == Some(step@),
                None => spec_get_url(self.spec_url(), self.spec_cookie(), progress) is None,
            },
    {
        match progress {
            UrlProgress::Begin => Some(
                UrlStep::Send(
                    UrlStage::Page,
                    Request::new(self.url.clone(), None, HttpMethod::POST, Some(qdf())),
                    self.cookie.clone(),
                ),
            ),
            UrlProgress::Replied(stage, reply) => match stage {
                UrlStage::Page => {
                    if reply.executed.is_err() {
                        return Some(UrlStep::Done(Err(Error::Unknown)));
                    }
                    let html = match reply.data.get_text() {
                        Ok(h) => h,
                        Err(e) => return Some(UrlStep::Done(Err(e))),
                    };
                    match self.parser.get_url(html.as_str()) {
                        None => None,
                        Some(Err(_)) => Some(UrlStep::Done(Err(Error::Unknown))),
                        Some(Ok((source, cookie))) => {
                            let merged = merge_cookie(cookie, &reply.cookies);
                            Some(
                                UrlStep::Send(
                                    UrlStage::Source(merged.clone()),
                                    Request::new(source, None, HttpMethod::GET, None),
                                    merged,
                                ),
                            )
                        },
                    }
                },
                UrlStage::Source(cookie) => {
                    match &reply.executed {
                        Err(m) => return Some(UrlStep::Done(Err(Error::Transport(m.clone())))),
                        Ok(_) => {},
                    }
                    let url = match reply.data.get_text() {
                        Ok(u) => u,
                        Err(e) => return Some(UrlStep::Done(Err(e))),
                    };
                    Some(
                        UrlStep::Send(
                            UrlStage::DataSource(cookie.clone()),
                            Request::new(url, None, HttpMethod::POST, Some(qdf())),
                            cookie,
                        ),
                    )
                },
                UrlStage::DataSource(_) => {
                    if reply.executed.is_err() {
                        return Some(UrlStep::Done(Err(Error::Unknown)));
                    }
                    match reply.redirect_url() {
                        Err(e) => Some(UrlStep::Done(Err(e))),
                        Ok(u) => {
                            let mut headers: Vec<String> = Vec::new();
                            headers.push(String::from_str("Referer: https://www.wootly.ch/"));
                            assert(headers.deep_view() =~= seq!["Referer: https://www.wootly.ch/"@]);
                            let empty = String::new();
                            assert(empty@ =~= seq![]);
                            let step = UrlStep::Send(
                                UrlStage::RealUrl,
                                Request::new(u, Some(headers), HttpMethod::POST, Some(qdf())),
                                empty,
                            );
                            assert(step@ == StepSpec::Send(
                                StageSpec::RealUrl,
                                RequestSpec {
                                    url: u@,
                                    headers: Some(seq!["Referer: https://www.wootly.ch/"@]),
                                    method: HttpMethod::POST,
                                    body: Some(qdf_body()),
                                },
                                seq![],
                            ));
                            Some(step)
                        },
                    }
                },
                UrlStage::RealUrl => {
                    if reply.executed.is_err() {
                        return Some(UrlStep::Done(Err(Error::FinalLinkFailed)));
                    }
                    Some(UrlStep::Done(reply.redirect_url()))
                },
            },
        }
    }
}

/// The page's cookie merged with the transfer's own cookie.
fn merge_cookie(cookie: String, cookies: &Result<Vec<Vec<u8>>, String>) -> (r: String)
    ensures
        r@ == spec_merged_cookie(cookie@, *cookies),
{
    match cookies {
        Err(_) => cookie,
        Ok(list) => match cookie_from_lines(list) {
            Ok(c) => {
                let mut out = cookie;
                out.append(" ");
                out.append(c.as_str());
                out
            },
            Err(_) => cookie,
        },
    }
}


/// The requests of the link search: the grab URL is fetched with a plain
/// `GET` that sends no body; every other request (the player page, the
/// data source and its redirect target) is a `POST` of the form `qdf=1`.
/// The last one goes to the data source's redirect target, with the
/// wootly referer and no cookie.
pub proof fn lemma_url_search_requests(url: Seq<char>, cookie: Seq<char>, progress: UrlProgress)
    ensures
        spec_get_url(url, cookie, progress) matches Some(StepSpec::Send(s, req, _)) ==> if s is Source {
            req.method == HttpMethod::GET && spec_sent_body(req) is None
        } else {
            req.method == HttpMethod::POST && spec_sent_body(req) == Some(encode_utf8("qdf=1"@))
        },
        progress matches UrlProgress::Replied(UrlStage::DataSource(_), r) ==> (spec_get_url(
            url,
            cookie,
            progress,
        ) matches Some(StepSpec::Send(s, req, c)) ==> {
            &&& s == StageSpec::RealUrl
            &&& r.executed is Ok
            &&& r.redirect matches Ok(Some(target)) && req.url == target@
            &&& req.headers == Some(seq!["Referer: https://www.wootly.ch/"@])
            &&& c == Seq::<char>::empty()
        }),
        progress is Begin ==> (spec_get_url(url, cookie, progress) matches Some(StepSpec::Send(_, req, c))
            && req.url == url && c == cookie),
{
}

/// The order of the stages of the link search.
pub open spec fn stage_rank(s: StageSpec) -> int {
    match s {
        StageSpec::Page => 1,
        StageSpec::Source(_) => 2,
        StageSpec::DataSource(_) => 3,
        StageSpec::RealUrl => 4,
    }
}

/// The link search only moves forward: it begins with the player page, and
/// each reply leads to a later stage or to the end, so it sends at most
/// four requests.
pub proof fn lemma_url_search_moves_forward(url: Seq<char>, cookie: Seq<char>, progress: UrlProgress)
    ensures
        progress is Begin ==> (spec_get_url(url, cookie, progress) matches Some(StepSpec::Send(s, _, _))
            && s == StageSpec::Page),
        progress matches UrlProgress::Replied(stage, _) ==> (spec_get_url(url, cookie, progress) matches Some(
            StepSpec::Send(next, _, _),
        ) ==> stage_rank(next) > stage_rank(stage@)),
        progress matches UrlProgress::Replied(UrlStage::RealUrl, _) ==> !(spec_get_url(url, cookie, progress) matches Some(
            StepSpec::Send(_, _, _),
        )),
{
}

} // verus!
