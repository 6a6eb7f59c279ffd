use vstd::prelude::*;
use chrono::Local;

use crate::error::Error;
use crate::html::{
    css_selector_valid, document_match_count, element_attribute, element_match_count, element_text,
    parse_document, parse_selector, Steps,
};
use crate::pattern::{compile, regex_captures, regex_last_captures, regex_valid};
use crate::hashing::{spec_hash, SimpleHash};
use crate::text::{
    ascii_uppercase, byte_range, byte_slice, chars_of, last_piece, lemma_decode_len,
    lemma_split_nonempty, push_char, replace, spec_ascii_uppercase, spec_last_piece, spec_replace,
    spec_split, split, to_lowercase, unicode_lowercase,
};
use crate::request_client::{
    body_text, cookie_from_lines, spec_parse_cookie, spec_sent_body, HttpMethod, Reply,
    Request, RequestSpec,
};
use crate::text::{push_decimal, push_signed_decimal, spec_decimal, spec_signed_decimal, utf8_bytes};
use crate::wootly::Wootly;
use vstd::string::StringSliceAdditionalSpecFns;
use vstd::utf8::*;

verus! {

/// A client of the movie site: its page parser and the cookies it holds.
#[derive(Clone, Debug)]
pub struct Goojara {
    parser: Parser,
    cookies: String,
}

/// Reads movie lists and movie details out of the site's pages.
#[derive(Clone, Copy, Debug)]
pub struct Parser {}

/// A movie as a list page shows it.
#[derive(Clone, Debug)]
pub struct Movie {
    pub url: String,
    pub title: String,
    pub img: String,
    pub quality: String,
    pub year: String,
}

/// The view of a `Movie`.
pub struct MovieSpec {
    pub url: Seq<char>,
    pub title: Seq<char>,
    pub img: Seq<char>,
    pub quality: Seq<char>,
    pub year: Seq<char>,
}

impl View for Movie {
    type V = MovieSpec;

    open spec fn view(&self) -> MovieSpec {
        MovieSpec {
            url: self.url@,
            title: self.title@,
            img: self.img@,
            quality: self.quality@,
            year: self.year@,
        }
    }
}

/// The genres whose movie lists can be read.
#[derive(Clone, Copy, Debug, PartialEq, Eq)]
pub enum Genre {
    ACTION,
    ADVENTURE,
    COMEDY,
    SCIFI,
}

/// The name of a genre as the site writes it.
pub open spec fn genre_text(g: Genre) -> Seq<char> {
    match g {
        Genre::ACTION => "Action"@,
        Genre::ADVENTURE => "Adventure"@,
        Genre::COMEDY => "Comedy"@,
        Genre::SCIFI => "Sci-Fi"@,
    }
}

impl Genre {
    /// The name of this genre as the site writes it.
    pub fn get_text(&self) -> (r: &'static str)
        ensures
            r@ == genre_text(*self),
    {
        match self {
            Genre::ACTION => "Action",
            Genre::ADVENTURE => "Adventure",
            Genre::COMEDY => "Comedy",
            Genre::SCIFI => "Sci-Fi",
        }
    }
}

/// The details page of a movie, read.
#[derive(Clone, Debug)]
pub struct Details {
    pub movie: Movie,
    pub description: String,
    pub casts: Vec<String>,
    pub directors: Vec<String>,
    pub genres: Vec<String>,
    pub duration: String,
    pub release_date: String,
    pub id: String,
    pub cookie: String,
}

/// The view of `Details`.
pub struct DetailsSpec {
    pub movie: MovieSpec,
    pub description: Seq<char>,
    pub casts: Seq<Seq<char>>,
    pub directors: Seq<Seq<char>>,
    pub genres: Seq<Seq<char>>,
    pub duration: Seq<char>,
    pub release_date: Seq<char>,
    pub id: Seq<char>,
    pub cookie: Seq<char>,
}

impl View for Details {
    type V = DetailsSpec;

    open spec fn view(&self) -> DetailsSpec {
        DetailsSpec {
            movie: self.movie@,
            description: self.description@,
            casts: self.casts.deep_view(),
            directors: self.directors.deep_view(),
            genres: self.genres.deep_view(),
            duration: self.duration@,
            release_date: self.release_date@,
            id: self.id@,
            cookie: self.cookie@,
        }
    }
}

/// Which reply `Goojara::details_step` waits for: the movie's page, or its
/// cookie data, with the details read from the page.
pub enum DetailsStage {
    Page,
    CookieData(Details),
}

/// Where the reading of a movie's details stands: at its beginning, or
/// with the reply to the request of a stage.
pub enum DetailsProgress {
    Begin,
    Replied(DetailsStage, Reply),
}

/// What to do next: send a request with a cookie and then report its reply
/// for the given stage, or stop with the details or the error.
pub enum DetailsStep {
    Send(DetailsStage, Request, String),
    Done(Result<Details, Error>),
}

/// The view of a `DetailsStage`.
pub enum DetailsStageSpec {
    Page,
    CookieData(DetailsSpec),
}

impl View for DetailsStage {
    type V = DetailsStageSpec;

    open spec fn view(&self) -> DetailsStageSpec {
        match self {
            DetailsStage::Page => DetailsStageSpec::Page,
            DetailsStage::CookieData(d) => DetailsStageSpec::CookieData(d@),
        }
    }
}

/// The view of a `DetailsStep`.
pub enum DetailsStepSpec {
    Send(DetailsStageSpec, RequestSpec, Seq<char>),
    Done(Result<DetailsSpec, Error>),
}

impl View for DetailsStep {
    type V = DetailsStepSpec;

    open spec fn view(&self) -> DetailsStepSpec {
        match self {
            DetailsStep::Send(s, r, c) => DetailsStepSpec::Send(s@, r@, c@),
            DetailsStep::Done(r) => DetailsStepSpec::Done(details_view(*r)),
        }
    }
}

/// What one movie link of a list page holds: its `href` and `title`,
/// the `data-src` of its first image (`None` when it has no image), and
/// the texts of its first year and quality badges.
pub struct MovieCard {
    pub url: Option<String>,
    pub title: Option<String>,
    pub cover: Option<Option<String>>,
    pub year: Option<String>,
    pub quality: Option<String>,
}

/// The view of an optional string.
pub open spec fn opt_view(o: Option<String>) -> Option<Seq<char>> {
    match o {
        Some(s) => Some(s@),
        None => None,
    }
}

/// The view of a `MovieCard`.
pub struct CardSpec {
    pub url: Option<Seq<char>>,
    pub title: Option<Seq<char>>,
    pub cover: Option<Option<Seq<char>>>,
    pub year: Option<Seq<char>>,
    pub quality: Option<Seq<char>>,
}

impl View for MovieCard {
    type V = CardSpec;

    open spec fn view(&self) -> CardSpec {
        CardSpec {
            url: opt_view(self.url),
            title: opt_view(self.title),
            cover: match self.cover {
                Some(c) => Some(opt_view(c)),
                None => None,
            },
            year: opt_view(self.year),
            quality: opt_view(self.quality),
        }
    }
}

/// The movie a card gives: an error when it lacks the image, the year or
/// the quality badge (checked in that order); no movie when its link,
/// title or image source is missing; else the movie, whose image URL is
/// the source with `https:` before it.
pub open spec fn card_movie(c: CardSpec) -> Result<Option<MovieSpec>, Error> {
    match c.cover {
        None => Err(Error::NoCoverImage),
        Some(cover) => match c.year {
            None => Err(Error::NoReleaseDate),
            Some(year) => match c.quality {
                None => Err(Error::NoQuality),
                Some(quality) => match (c.url, cover, c.title) {
                    (Some(url), Some(img), Some(title)) => Ok(
                        Some(
                            MovieSpec { url, title, img: "https:"@ + img, quality, year },
                        ),
                    ),
                    _ => Ok(None),
                },
            },
        },
    }
}

/// The movies of the first `n` cards, in order, or the error of the first
/// card that fails.
pub open spec fn movies_upto(cards: Seq<CardSpec>, n: nat) -> Result<Seq<MovieSpec>, Error>
    decreases n,
{
    if n == 0 {
        Ok(seq![])
    } else {
        match movies_upto(cards, (n - 1) as nat) {
            Err(e) => Err(e),
            Ok(ms) => match card_movie(cards[n - 1]) {
                Err(e) => Err(e),
                Ok(None) => Ok(ms),
                Ok(Some(m)) => Ok(ms.push(m)),
            },
        }
    }
}

/// Once a card fails, the list fails with its error.
proof fn lemma_movies_error_stays(cards: Seq<CardSpec>, k: nat, n: nat)
    requires
        k <= n,
        movies_upto(cards, k) is Err,
    ensures
        movies_upto(cards, n) == movies_upto(cards, k),
    decreases n - k,
{
    if k < n {
        lemma_movies_error_stays(cards, k, (n - 1) as nat);
    }
}

/// The view of a list of movies, or the error.
pub open spec fn movies_view(r: Result<Vec<Movie>, Error>) -> Result<Seq<MovieSpec>, Error> {
    match r {
        Ok(v) => Ok(v@.map_values(|m: Movie| m@)),
        Err(e) => Err(e),
    }
}

/// The steps to the `i`-th movie link of a list page.
pub open spec fn card_steps(i: nat) -> Steps {
    seq![("#xbrd > div.mxwd > div.dflex"@, 0nat), ("div > a"@, i)]
}

/// What the `i`-th movie link of the list page `src` holds.
pub open spec fn page_card(src: Seq<char>, i: nat) -> CardSpec {
    let s = card_steps(i);
    CardSpec {
        url: element_attribute(src, s, "href"@),
        title: element_attribute(src, s, "title"@),
        cover: if element_match_count(src, s, "img"@) > 0 {
            Some(element_attribute(src, s.push(("img"@, 0nat)), "data-src"@))
        } else {
            None
        },
        year: if element_match_count(src, s, ".hd.hdy"@) > 0 {
            Some(element_text(src, s.push((".hd.hdy"@, 0nat))))
        } else {
            None
        },
        quality: if element_match_count(src, s, ".hd.hda"@) > 0 {
            Some(element_text(src, s.push((".hd.hda"@, 0nat))))
        } else {
            None
        },
    }
}

/// The movie links of the list page `src`, in document order.
pub open spec fn page_cards(src: Seq<char>) -> Seq<CardSpec> {
    Seq::new(
        element_match_count(src, seq![("#xbrd > div.mxwd > div.dflex"@, 0nat)], "div > a"@),
        |i: int| page_card(src, i as nat),
    )
}

/// The movies of the list page `src`: an error when a selector does not
/// parse or the page has no movie container, else the movies of its
/// cards.
pub open spec fn spec_page_movies(src: Seq<char>) -> Result<Seq<MovieSpec>, Error> {
    if !css_selector_valid("#xbrd > div.mxwd > div.dflex"@) || !css_selector_valid("div > a"@) {
        Err(Error::InvalidSelector)
    } else if document_match_count(src, "#xbrd > div.mxwd > div.dflex"@) == 0 {
        Err(Error::NoMovieContainer)
    } else if !css_selector_valid("img"@) || !css_selector_valid(".hd.hdy"@) || !css_selector_valid(
        ".hd.hda"@,
    ) {
        Err(Error::InvalidSelector)
    } else {
        movies_upto(page_cards(src), page_cards(src).len())
    }
}

/// The page's `iframe` target: an error when the selector does not parse,
/// when there is no `iframe`, or when the first has no `src`.
pub open spec fn spec_woolty_url(src: Seq<char>) -> Result<Seq<char>, Error> {
    if !css_selector_valid("iframe"@) {
        Err(Error::InvalidSelector)
    } else if document_match_count(src, "iframe"@) == 0 {
        Err(Error::MissingDetails)
    } else {
        match element_attribute(src, seq![("iframe"@, 0nat)], "src"@) {
            Some(u) => Ok(u),
            None => Err(Error::NoUrl),
        }
    }
}

/// The parts of a details line `duration | genres | release date`; the
/// genres are cut at `, `. `None` when the line has fewer than three parts.
pub open spec fn spec_split_input(input: Seq<char>) -> Option<(Seq<char>, Seq<Seq<char>>, Seq<char>)> {
    let parts = spec_split(input, " | "@);
    if parts.len() >= 3 {
        Some((parts[0], spec_split(parts[1], ", "@), parts[2]))
    } else {
        None
    }
}


/// The steps to the first match of `selector` in a document.
pub open spec fn first_of(selector: Seq<char>) -> Steps {
    seq![(selector, 0nat)]
}

/// The paragraphs of a details page's info box, each with the
/// `Director: ` and `Cast: ` labels removed and cut at `, `.
pub open spec fn paragraph_fields(src: Seq<char>) -> Seq<Seq<Seq<char>>> {
    let s2 = first_of("#alger > div > div.marl > div.fimm"@);
    Seq::new(
        element_match_count(src, s2, "p"@),
        |i: int|
            spec_split(
                spec_replace(
                    spec_replace(element_text(src, s2.push(("p"@, i as nat))), "Director: "@, ""@),
                    "Cast: "@,
                    ""@,
                ),
                ", "@,
            ),
    )
}

/// The cookie of a details page: the given cookie, extended with
/// `; name=value;` when the page's last `_3chk(...);` call names a
/// cookie. `None` where the page holds such a call whose two quoted names
/// the second pattern cannot give (where reading them would fail).
pub open spec fn spec_details_cookie(src: Seq<char>, cookie: Seq<char>) -> Option<Seq<char>> {
    match regex_last_captures("_3chk.+?\\);"@, src) {
        None => Some(cookie),
        Some(g) => if !regex_valid("'(\\w+)',\\s*'(\\w+)'"@) {
            None
        } else {
            match regex_captures("'(\\w+)',\\s*'(\\w+)'"@, g[0]->Some_0) {
                None => Some(cookie),
                Some(g2) => if g2.len() > 2 && g2[1] is Some && g2[2] is Some {
                    Some(cookie + "; "@ + g2[1]->Some_0 + "="@ + g2[2]->Some_0 + ";"@)
                } else {
                    None
                },
            }
        },
    }
}

/// What reading the details page `src` gives, for a movie and the
/// client's cookie: an error when a selector or the cookie pattern does not
/// parse, when a part of the page is missing, or when the info box does
/// not hold exactly description, directors and cast. `None` where the page
/// lacks what the reading takes for granted: the movie id in the `data-ins`
/// attribute of `#shd`, or the names in a `_3chk` call.
pub open spec fn spec_details_outcome(src: Seq<char>, cookie: Seq<char>, movie: MovieSpec) -> Option<
    Result<DetailsSpec, Error>,
> {
    let s1 = "#alger > div > div.marl > div.date"@;
    let s2 = "#alger > div > div.marl > div.fimm"@;
    let s3 = "#shd"@;
    if !css_selector_valid(s1) || !css_selector_valid(s2) || !css_selector_valid(s3) {
        Some(Err(Error::InvalidSelector))
    } else if document_match_count(src, s1) == 0 || document_match_count(src, s2) == 0
        || document_match_count(src, s3) == 0 {
        Some(Err(Error::MissingDetails))
    } else {
        match spec_split_input(element_text(src, first_of(s1))) {
            None => Some(Err(Error::IncompleteDetails)),
            Some((duration, genres, release_date)) => if !css_selector_valid("p"@) {
                Some(Err(Error::InvalidSelector))
            } else if !regex_valid("_3chk.+?\\);"@) {
                Some(Err(Error::InvalidPattern))
            } else {
                match spec_details_cookie(src, cookie) {
                    None => None,
                    Some(ck) => match element_attribute(src, first_of(s3), "data-ins"@) {
                        None => None,
                        Some(id) => {
                            let data = paragraph_fields(src);
                            if data.len() == 3 {
                                Some(
                                    Ok(
                                        DetailsSpec {
                                            movie,
                                            description: data[0][0],
                                            casts: data[2],
                                            directors: data[1],
                                            genres,
                                            duration,
                                            release_date,
                                            id,
                                            cookie: ck,
                                        },
                                    ),
                                )
                            } else {
                                Some(Err(Error::IncompleteDetails))
                            }
                        },
                    },
                }
            },
        }
    }
}

/// The view of details read, or the error.
pub open spec fn details_view(r: Result<Details, Error>) -> Result<DetailsSpec, Error> {
    match r {
        Ok(d) => Ok(d@),
        Err(e) => Err(e),
    }
}

/// The value of a decimal digit character.
pub open spec fn digit_of(c: char) -> Option<nat> {
    if '0' <= c && c <= '9' {
        Some((c as nat - '0' as nat) as nat)
    } else {
        None
    }
}

/// The number a one-character string stands for, when it is a digit.
pub open spec fn one_digit(s: Seq<char>) -> Option<nat> {
    if s.len() == 1 {
        digit_of(s[0])
    } else {
        None
    }
}

/// For each key character, in order, the character of `source` at the
/// position the key's digit gives; the first key that is not a digit, or
/// that points past `source`, fails. Only the first `n` keys are taken.
pub open spec fn pick_upto(keys: Seq<char>, source: Seq<char>, n: nat) -> Result<Seq<char>, Error>
    decreases n,
{
    if n == 0 {
        Ok(seq![])
    } else {
        match pick_upto(keys, source, (n - 1) as nat) {
            Err(e) => Err(e),
            Ok(acc) => match digit_of(keys[n - 1]) {
                None => Err(Error::NotADigit),
                Some(k) => if k < source.len() {
                    Ok(acc.push(source[k as int]))
                } else {
                    Err(Error::IndexOutOfRange)
                },
            },
        }
    }
}

/// The characters of `source` that the digits of `keys` point at.
pub open spec fn pick_chars(keys: Seq<char>, source: Seq<char>) -> Result<Seq<char>, Error> {
    pick_upto(keys, source, keys.len())
}

/// The byte length of `id` in UTF-8.
pub open spec fn id_bytes(id: Seq<char>) -> int {
    encode_utf8(id).len() as int
}

/// The word of the page text that the last character of the id picks,
/// when it picks one.
pub open spec fn code_word_index(text: Seq<char>, id: Seq<char>) -> Option<nat> {
    match one_digit(byte_range(id, id_bytes(id) - 1, id_bytes(id))) {
        Some(k) => if k < spec_split(text, " "@).len() {
            Some(k)
        } else {
            None
        },
        None => None,
    }
}

/// The inputs on which the hash cookie can be computed: the id has at
/// least ten bytes, it can be cut at bytes 7 and 10 and at its last four,
/// two and one bytes, and once its last character picks a word of the page
/// text, the one before it picks a word too.
pub open spec fn hash_cookie_defined(text: Seq<char>, id: Seq<char>) -> bool {
    let bytes = encode_utf8(id);
    let n = bytes.len() as int;
    &&& n >= 10
    &&& is_char_boundary(bytes, 7)
    &&& is_char_boundary(bytes, 10)
    &&& is_char_boundary(bytes, n - 4)
    &&& is_char_boundary(bytes, n - 2)
    &&& is_char_boundary(bytes, n - 1)
    &&& code_word_index(text, id) is Some ==> match one_digit(byte_range(id, n - 2, n - 1)) {
        Some(k) => k < spec_split(text, " "@).len(),
        None => false,
    }
}

/// The hash cookie of a movie page: `_<name>=<DIGEST>;`. The id's last
/// four bytes pick the name's characters out of the lowercased word that
/// its second-last character points at; bytes 7..10 and the last four pick
/// the code out of the word its last character points at; the digest is
/// the uppercase hash of the code.
pub open spec fn spec_hash_cookie(text: Seq<char>, id: Seq<char>) -> Result<Seq<char>, Error> {
    let n = id_bytes(id);
    let parts = spec_split(text, " "@);
    let b = byte_range(id, n - 4, n);
    let c = byte_range(id, 7, 10) + b;
    match one_digit(byte_range(id, n - 1, n)) {
        None => Err(Error::InvalidDigit),
        Some(gi) => if gi >= parts.len() {
            Err(Error::IndexOutOfRange)
        } else {
            let g = parts[gi as int];
            let f = parts[one_digit(byte_range(id, n - 2, n - 1))->Some_0 as int];
            match pick_chars(b, unicode_lowercase(f)) {
                Err(e) => Err(e),
                Ok(h) => match pick_chars(c, g) {
                    Err(e) => Err(e),
                    Ok(code) => Ok(
                        "_"@ + h + "="@ + spec_ascii_uppercase(spec_hash(code)) + ";"@,
                    ),
                },
            }
        },
    }
}

/// The view of a text result.
pub open spec fn text_view(r: Result<String, Error>) -> Result<Seq<char>, Error> {
    match r {
        Ok(s) => Ok(s@),
        Err(e) => Err(e),
    }
}

/// The number a one-character string stands for, when it is a digit.
fn parse_one_digit(s: &str) -> (r: Option<usize>)
    ensures
        match r {
            Some(k) => one_digit(s@) == Some(k as nat),
            None => one_digit(s@) is None,
        },
{
    let v = chars_of(s);
    if v.len() == 1 {
        digit_value(v[0])
    } else {
        None
    }
}

/// The value of a decimal digit character.
fn digit_value(c: char) -> (r: Option<usize>)
    ensures
        match r {
            Some(k) => digit_of(c) == Some(k as nat),
            None => digit_of(c) is None,
        },
{
    if '0' <= c && c <= '9' {
        Some((c as u32 - '0' as u32) as usize)
    } else {
        None
    }
}

/// For each key character, the character of `source` its digit points at.
fn pick(keys: &str, source: &str) -> (r: Result<String, Error>)
    ensures
        text_view(r) == pick_chars(keys@, source@),
{
    let kv = chars_of(keys);
    let sv = chars_of(source);
    let mut out = String::new();
    for i in 0..kv.len()
        invariant
            kv@ == keys@,
            sv@ == source@,
            pick_upto(keys@, source@, i as nat) == Ok::<Seq<char>, Error>(out@),
    {
        match digit_value(kv[i]) {
            None => {
                proof {
                    lemma_pick_error_stays(keys@, source@, (i + 1) as nat, keys@.len());
                }
                return Err(Error::NotADigit);
            },
            Some(k) => {
                if k < sv.len() {
                    push_char(&mut out, sv[k]);
                } else {
                    proof {
                        lemma_pick_error_stays(keys@, source@, (i + 1) as nat, keys@.len());
                    }
                    return Err(Error::IndexOutOfRange);
                }
            },
        }
    }
    Ok(out)
}

/// Once a key fails, the picking fails with its error.
proof fn lemma_pick_error_stays(keys: Seq<char>, source: Seq<char>, k: nat, n: nat)
    requires
        k <= n,
        pick_upto(keys, source, k) is Err,
    ensures
        pick_upto(keys, source, n) == pick_upto(keys, source, k),
    decreases n - k,
{
    if k < n {
        lemma_pick_error_stays(keys, source, k, (n - 1) as nat);
    }
}

/// A copy of a movie.
fn copy_movie(m: &Movie) -> (r: Movie)
    ensures
        r@ == m@,
{
    Movie {
        url: m.url.clone(),
        title: m.title.clone(),
        img: m.img.clone(),
        quality: m.quality.clone(),
        year: m.year.clone(),
    }
}

impl Parser {
    /// The details of `movie` read from its page, with the client's
    /// `cookie` extended by the page's own cookie.
    pub fn get_movie_details(&self, html: String, cookie: String, movie: Movie) -> (r: Result<Details, Error>)
        requires
            spec_details_outcome(html@, cookie@, movie@) is Some,
        ensures
            Some(details_view(r)) == spec_details_outcome(html@, cookie@, movie@),
    {
        match read_details(html.as_str(), cookie.as_str(), &movie) {
            Some(r) => r,
            None => vstd::pervasive::unreached(),
        }
    }

    /// The details of `movie` read from its page, or `None` where the page
    /// lacks what the reading takes for granted (see `spec_details_outcome`).
    pub fn try_movie_details(html: String, cookie: String, movie: Movie) -> (r: Option<Result<Details, Error>>)
        ensures
            match r {
                Some(r) => spec_details_outcome(html@, cookie@, movie@) == Some(details_view(r)),
                None => spec_details_outcome(html@, cookie@, movie@) is None,
            },
    {
        if read_details(html.as_str(), cookie.as_str(), &movie).is_none() {
            return None;
        }
        Some(Parser {}.get_movie_details(html, cookie, movie))
    }
}

/// Reads the details of `movie` from its page (see `spec_details_outcome`).
fn read_details(html: &str, cookie: &str, movie: &Movie) -> (r: Option<Result<Details, Error>>)
    ensures
        match r {
            Some(r) => spec_details_outcome(html@, cookie@, movie@) == Some(details_view(r)),
            None => spec_details_outcome(html@, cookie@, movie@) is None,
        },
{
    let document = parse_document(html);
    let s1 = match parse_selector("#alger > div > div.marl > div.date") {
        Some(q) => q,
        None => return Some(Err(Error::InvalidSelector)),
    };
    let s2 = match parse_selector("#alger > div > div.marl > div.fimm") {
        Some(q) => q,
        None => return Some(Err(Error::InvalidSelector)),
    };
    let s3 = match parse_selector("#shd") {
        Some(q) => q,
        None => return Some(Err(Error::InvalidSelector)),
    };
    let f1 = document.select(&s1);
    let f2 = document.select(&s2);
    let f3 = document.select(&s3);
    if f1.len() == 0 || f2.len() == 0 || f3.len() == 0 {
        return Some(Err(Error::MissingDetails));
    }
    let e1 = &f1[0];
    let e2 = &f2[0];
    let e3 = &f3[0];
    let line = e1.text();
    let (duration, genres, release_date) = match Parser::split_input(line.as_str()) {
        Some(parts) => parts,
        None => return Some(Err(Error::IncompleteDetails)),
    };
    let paragraph = match parse_selector("p") {
        Some(q) => q,
        None => return Some(Err(Error::InvalidSelector)),
    };
    let ps = e2.select(&paragraph);
    let ghost src = html@;
    proof {
        reveal_strlit("Director: ");
        reveal_strlit("Cast: ");
        reveal_strlit(", ");
    }
    let mut data: Vec<Vec<String>> = Vec::new();
    for i in 0..ps.len()
        invariant
            ps@.len() == paragraph_fields(src).len(),
            forall|k: int|
                0 <= k < ps@.len() ==> (#[trigger] ps@[k])@ == (src, first_of(
                    "#alger > div > div.marl > div.fimm"@,
                ).push(("p"@, k as nat))),
            data@.len() == i,
            forall|k: int| 0 <= k < i ==> (#[trigger] data@[k]).deep_view() == paragraph_fields(src)[k],
    {
        proof {
            reveal_strlit("Director: ");
            reveal_strlit("Cast: ");
            reveal_strlit(", ");
        }
        let t = ps[i].text();
        let t1 = replace(t.as_str(), "Director: ", "");
        let t2 = replace(t1.as_str(), "Cast: ", "");
        let fields = split(t2.as_str(), ", ");
        data.push(fields);
    }
    let regex = match compile("_3chk.+?\\);") {
        Some(p) => p,
        None => return Some(Err(Error::InvalidPattern)),
    };
    let cookie = match regex.last_captures(html) {
        None => String::from_str(cookie),
        Some(groups) => {
            let input_str = groups[0].clone().unwrap();
            let regex2 = match compile("'(\\w+)',\\s*'(\\w+)'") {
                Some(p) => p,
                None => return None,
            };
            match regex2.captures(input_str.as_str()) {
                None => String::from_str(cookie),
                Some(g2) => {
                    if g2.len() > 2 && g2[1].is_some() && g2[2].is_some() {
                        let mut c = String::from_str(cookie);
                        c.append("; ");
                        c.append(g2[1].as_ref().unwrap().as_str());
                        c.append("=");
                        c.append(g2[2].as_ref().unwrap().as_str());
                        c.append(";");
                        c
                    } else {
                        return None;
                    }
                },
            }
        },
    };
    let id = match e3.attr("data-ins") {
        Some(v) => v,
        None => return None,
    };
    if data.len() == 3 {
        proof {
            lemma_split_nonempty(paragraph_fields(src)[0][0], ", "@);
        }
        assert(data@[0].deep_view() == paragraph_fields(src)[0]);
        let description = data[0][0].clone();
        let directors = data[1].clone();
        let casts = data[2].clone();
        return Some(Ok(Details {
            id,
            movie: copy_movie(movie),
            genres,
            duration,
            release_date,
            cookie,
            description,
            directors,
            casts,
        }));
    }
    Some(Err(Error::IncompleteDetails))
}

impl Parser {
    /// The movies listed on a genre page.
    pub fn get_page_movies(&self, html: String) -> (r: Result<Vec<Movie>, Error>)
        ensures
            movies_view(r) == spec_page_movies(html@),
    {
        let document = parse_document(html.as_str());
        let container = match parse_selector("#xbrd > div.mxwd > div.dflex") {
            Some(q) => q,
            None => return Err(Error::InvalidSelector),
        };
        let movie_container = match parse_selector("div > a") {
            Some(q) => q,
            None => return Err(Error::InvalidSelector),
        };
        let found = document.select(&container);
        if found.len() == 0 {
            return Err(Error::NoMovieContainer);
        }
        let element = &found[0];
        let img_selector = match parse_selector("img") {
            Some(q) => q,
            None => return Err(Error::InvalidSelector),
        };
        let year_selector = match parse_selector(".hd.hdy") {
            Some(q) => q,
            None => return Err(Error::InvalidSelector),
        };
        let quality_selector = match parse_selector(".hd.hda") {
            Some(q) => q,
            None => return Err(Error::InvalidSelector),
        };
        let divs = element.select(&movie_container);
        let ghost src = html@;
        let mut cards: Vec<MovieCard> = Vec::new();
        for i in 0..divs.len()
            invariant
                divs@.len() == page_cards(src).len(),
                forall|k: int| 0 <= k < divs@.len() ==> (#[trigger] divs@[k])@ == (src, card_steps(k as nat)),
                img_selector@ == "img"@,
                year_selector@ == ".hd.hdy"@,
                quality_selector@ == ".hd.hda"@,
                cards@.len() == i,
                forall|k: int| 0 <= k < i ==> (#[trigger] cards@[k])@ == page_card(src, k as nat),
        {
            let d = &divs[i];
            let url = d.attr("href");
            let title = d.attr("title");
            let imgs = d.select(&img_selector);
            let cover = if imgs.len() > 0 {
                Some(imgs[0].attr("data-src"))
            } else {
                None
            };
            let years = d.select(&year_selector);
            let year = if years.len() > 0 {
                Some(years[0].text())
            } else {
                None
            };
            let qualities = d.select(&quality_selector);
            let quality = if qualities.len() > 0 {
                Some(qualities[0].text())
            } else {
                None
            };
            let card = MovieCard { url, title, cover, year, quality };
            assert(card@ == page_card(src, i as nat));
            cards.push(card);
        }
        assert(cards@.map_values(|c: MovieCard| c@) =~= page_cards(src));
        collect_movies(cards)
    }

    /// The player URL of a movie page: the `src` of its first `iframe`.
    pub fn get_woolty_url(&self, html: String) -> (r: Result<String, Error>)
        ensures
            match (r, spec_woolty_url(html@)) {
                (Ok(u), Ok(v)) => u@ == v,
                (Err(e), Err(f)) => e == f,
                _ => false,
            },
    {
        let document = parse_document(html.as_str());
        let s1 = match parse_selector("iframe") {
            Some(q) => q,
            None => return Err(Error::InvalidSelector),
        };
        let found = document.select(&s1);
        if found.len() == 0 {
            return Err(Error::MissingDetails);
        }
        match found[0].attr("src") {
            Some(url) => Ok(url),
            None => Err(Error::NoUrl),
        }
    }

    /// The parts of a details line `duration | genres | release date`.
    pub fn split_input(input: &str) -> (r: Option<(String, Vec<String>, String)>)
        ensures
            match r {
                Some((d, g, rd)) => spec_split_input(input@) == Some((d@, g.deep_view(), rd@)),
                None => spec_split_input(input@) is None,
            },
    {
        proof {
            reveal_strlit(" | ");
            reveal_strlit(", ");
        }
        let parts = split(input, " | ");
        if parts.len() >= 3 {
            let duration = parts[0].clone();
            let genres = split(parts[1].as_str(), ", ");
            let release_date = parts[2].clone();
            Some((duration, genres, release_date))
        } else {
            None
        }
    }
}

/// The movie one card gives (see `card_movie`).
fn movie_of_card(c: &MovieCard) -> (r: Result<Option<Movie>, Error>)
    ensures
        match (r, card_movie(c@)) {
            (Ok(Some(m)), Ok(Some(n))) => m@ == n,
            (Ok(None), Ok(None)) => true,
            (Err(e), Err(f)) => e == f,
            _ => false,
        },
{
    let cover = match &c.cover {
        None => return Err(Error::NoCoverImage),
        Some(cover) => cover,
    };
    let year = match &c.year {
        None => return Err(Error::NoReleaseDate),
        Some(year) => year,
    };
    let quality = match &c.quality {
        None => return Err(Error::NoQuality),
        Some(quality) => quality,
    };
    match (&c.url, cover, &c.title) {
        (Some(url), Some(src), Some(title)) => {
            let mut img = String::from_str("https:");
            img.append(src.as_str());
            Ok(
                Some(
                    Movie {
                        url: url.clone(),
                        title: title.clone(),
                        img,
                        quality: quality.clone(),
                        year: year.clone(),
                    },
                ),
            )
        },
        _ => Ok(None),
    }
}

/// The movies of the cards, in order, or the error of the first card that
/// fails.
pub fn collect_movies(cards: Vec<MovieCard>) -> (r: Result<Vec<Movie>, Error>)
    ensures
        movies_view(r) == movies_upto(cards@.map_values(|c: MovieCard| c@), cards@.len()),
{
    let ghost cv = cards@.map_values(|c: MovieCard| c@);
    let mut movies: Vec<Movie> = Vec::new();
    let mut i: usize = 0;
    assert(movies@.map_values(|m: Movie| m@) =~= seq![]);
    while i < cards.len()
        invariant
            cv == cards@.map_values(|c: MovieCard| c@),
            i <= cards@.len(),
            movies_upto(cv, i as nat) == Ok::<Seq<MovieSpec>, Error>(movies@.map_values(|m: Movie| m@)),
        decreases cards.len() - i,
    {
        let ghost before = movies@.map_values(|m: Movie| m@);
        match movie_of_card(&cards[i]) {
            Err(e) => {
                proof {
                    lemma_movies_error_stays(cv, (i + 1) as nat, cards@.len());
                }
                return Err(e);
            },
            Ok(None) => {},
            Ok(Some(m)) => {
                movies.push(m);
                assert(movies@.map_values(|m: Movie| m@) =~= before.push(m@));
            },
        }
        i = i + 1;
    }
    Ok(movies)
}

/// How many characters the picking yields: one per key.
proof fn lemma_pick_len(keys: Seq<char>, source: Seq<char>, n: nat)
    ensures
        pick_upto(keys, source, n) matches Ok(acc) ==> acc.len() == n,
    decreases n,
{
    if n > 0 {
        lemma_pick_len(keys, source, (n - 1) as nat);
    }
}

impl Goojara {
    /// A client with no cookies yet.
    pub fn new() -> (g: Self)
        ensures
            g.spec_cookies() == Seq::<char>::empty(),
    {
        Self { parser: Parser {}, cookies: String::new() }
    }

    /// The cookies the client holds.
    pub closed spec fn spec_cookies(&self) -> Seq<char> {
        self.cookies@
    }

    /// The cookies the client holds.
    pub fn cookies(&self) -> (c: &String)
        ensures
            c@ == self.spec_cookies(),
    {
        &self.cookies
    }

    /// The cookie a transfer holds, from its cookie list: the part of the
    /// last line after its last `0<TAB>`, with each tab made `=`.
    pub fn parse_cookie(&mut self, cookie_list: Vec<Vec<u8>>) -> (r: Result<String, Error>)
        ensures
            text_view(r) == spec_parse_cookie(cookie_list.deep_view()),
            final(self).spec_cookies() == old(self).spec_cookies(),
    {
        cookie_from_lines(&cookie_list)
    }

    /// Whether `generate_hash_cookie` can work on `text` and `id`.
    pub fn can_generate_hash_cookie(text: &str, id: &str) -> (b: bool)
        ensures
            b == hash_cookie_defined(text@, id@),
    {
        proof {
            reveal_strlit(" ");
        }
        let n = id.as_bytes().len();
        assert(id.spec_bytes() == encode_utf8(id@));
        if n < 10 || !id.is_char_boundary(7) || !id.is_char_boundary(10) || !id.is_char_boundary(n - 4)
            || !id.is_char_boundary(n - 2) || !id.is_char_boundary(n - 1) {
            return false;
        }
        proof {
            encode_utf8_valid_utf8(id@);
            is_char_boundary_start_end_of_seq(encode_utf8(id@));
        }
        let parts = split(text, " ");
        let d1 = byte_slice(id, n - 1, n);
        match parse_one_digit(d1) {
            Some(g) => {
                if g < parts.len() {
                    let d0 = byte_slice(id, n - 2, n - 1);
                    match parse_one_digit(d0) {
                        Some(f) => f < parts.len(),
                        None => false,
                    }
                } else {
                    true
                }
            },
            None => true,
        }
    }

    /// The hash cookie of a movie page (see `spec_hash_cookie`).
    pub fn generate_hash_cookie(&mut self, text: &str, id: &str) -> (r: Result<String, Error>)
        requires
            hash_cookie_defined(text@, id@),
        ensures
            text_view(r) == spec_hash_cookie(text@, id@),
            final(self).spec_cookies() == old(self).spec_cookies(),
    {
        proof {
            reveal_strlit(" ");
            encode_utf8_valid_utf8(id@);
            is_char_boundary_start_end_of_seq(encode_utf8(id@));
        }
        let text_parts = split(text, " ");
        let n = id.as_bytes().len();
        assert(id.spec_bytes() == encode_utf8(id@));
        let b = byte_slice(id, n - 4, n);
        let c7 = byte_slice(id, 7, 10);
        let mut c = String::new();
        c.append(c7);
        c.append(b);
        let d1 = byte_slice(id, n - 1, n);
        let gi = match parse_one_digit(d1) {
            Some(k) => k,
            None => return Err(Error::InvalidDigit),
        };
        if gi >= text_parts.len() {
            return Err(Error::IndexOutOfRange);
        }
        let g = &text_parts[gi];
        let d0 = byte_slice(id, n - 2, n - 1);
        let fi = match parse_one_digit(d0) {
            Some(k) => k,
            None => vstd::pervasive::unreached(),
        };
        let f = &text_parts[fi];
        let lower_f = to_lowercase(f.as_str());
        let h = match pick(b, lower_f.as_str()) {
            Ok(h) => h,
            Err(e) => return Err(e),
        };
        let code = match pick(c.as_str(), g.as_str()) {
            Ok(code) => code,
            Err(e) => return Err(e),
        };
        proof {
            lemma_pick_len(c@, g@, c@.len());
        }
        let digest = SimpleHash::hash(code.as_str());
        let upper = ascii_uppercase(digest.as_str());
        let mut out = String::new();
        out.append("_");
        out.append(h.as_str());
        out.append("=");
        out.append(upper.as_str());
        out.append(";");
        Ok(out)
    }
}


/// The list page of `genre`, page `page`.
pub open spec fn genre_url(genre: Genre, page: nat) -> Seq<char> {
    "https://www.goojara.to/watch-movies-genre-"@ + genre_text(genre) + "?p="@ + spec_decimal(page)
}

/// The cookies a client keeps after a list page: the transfer's cookie
/// when it has one, else the ones it held.
pub open spec fn kept_cookies(old: Seq<char>, cookies: Result<Vec<Vec<u8>>, String>) -> Seq<char> {
    match cookies {
        Ok(list) => match spec_parse_cookie(list.deep_view()) {
            Ok(c) => c,
            Err(_) => old,
        },
        Err(_) => old,
    }
}

/// The headers of the cookie data request.
pub open spec fn cookie_data_headers(old_cookie: Seq<char>) -> Seq<Seq<char>> {
    seq!["cookie: "@ + old_cookie, "Content-type: application/x-www-form-urlencoded"@]
}

/// The movie id in a movie URL: its last `/`-separated part.
pub open spec fn movie_id(url: Seq<char>) -> Seq<char> {
    spec_last_piece(url, "/"@)
}

/// The headers of the player request.
pub open spec fn woolty_headers(cookie: Seq<char>) -> Seq<Seq<char>> {
    seq![
        "cookie: "@ + cookie,
        "User-Agent: Mozilla/5.0 (Macintosh; Intel Mac OS X 10.15; rv:109.0) Gecko/20100101 Firefox/118.0"@,
        "Accept: */*"@,
        "Accept-Language: en-US,en;q=0.5"@,
        "Content-type: application/x-www-form-urlencoded"@,
        "Alt-Used: ww1.goojara.to"@,
        "Sec-Fetch-Dest: empty"@,
        "Sec-Fetch-Mode: cors"@,
        "Sec-Fetch-Site: same-origin"@,
    ]
}

/// Whether the signature input of the player request is short enough for
/// the hash (its bit length must fit 32 bits).
pub open spec fn woolty_fits(d: DetailsSpec, timestamp: int) -> bool {
    8 * (movie_id(d.movie.url) + spec_signed_decimal(timestamp) + d.id).len() <= u32::MAX
}

/// The player request of a movie, expiring at `timestamp`: the movie URL
/// signed with the hash of id, expiry and page id, and a form body with the
/// hash of id and page id.
pub open spec fn woolty_request_spec(d: DetailsSpec, timestamp: int) -> RequestSpec {
    let id = movie_id(d.movie.url);
    let ts = spec_signed_decimal(timestamp);
    let sig = spec_hash(id + ts + d.id);
    let hash = spec_hash(id + d.id);
    RequestSpec {
        url: d.movie.url + "?p=2&sig="@ + sig + "&exp="@ + ts,
        headers: Some(woolty_headers(d.cookie)),
        method: HttpMethod::GET,
        body: Some(encode_utf8("act=2&ogn="@ + id + "&hash="@ + hash)),
    }
}

/// What the reply to `cookie_data_request` gives for the movie id `id`:
/// an error when the request failed or the body is not UTF-8, the hash
/// cookie of the body where the body and the id allow it, else `None`.
pub open spec fn spec_cookie_data(reply: Reply, id: Seq<char>) -> Option<Result<Seq<char>, Error>> {
    if reply.executed is Err {
        Some(Err(Error::RequestFailed))
    } else {
        match body_text(reply) {
            None => Some(Err(Error::InvalidUtf8)),
            Some(text) => if hash_cookie_defined(text, id) {
                Some(spec_hash_cookie(text, id))
            } else {
                None
            },
        }
    }
}

/// Details with the hash cookie appended after a space, when there is one.
pub open spec fn with_hash_cookie(d: DetailsSpec, cookie: Result<Seq<char>, Error>) -> DetailsSpec {
    match cookie {
        Ok(c) => DetailsSpec { cookie: d.cookie + " "@ + c, ..d },
        Err(_) => d,
    }
}

/// The cookie data request for details read from a page: a `POST` of
/// `act=1` to the movie URL with `?p=2`, with the details' cookie.
pub open spec fn cookie_data_request_spec(url: Seq<char>, old_cookie: Seq<char>) -> RequestSpec {
    RequestSpec {
        url: url + "?p=2"@,
        headers: Some(cookie_data_headers(old_cookie)),
        method: HttpMethod::POST,
        body: Some(encode_utf8("act=1"@)),
    }
}

/// The next step of reading the details of `movie` for a client holding
/// `cookies`: its page is asked for first; a page read into details leads
/// to the cookie data request, whose reply completes the details with the
/// hash cookie (an error there leaves them as read). Any failure before
/// ends the reading with that error. `None` where the page or the cookie
/// data lack what the reading takes for granted.
pub open spec fn spec_details_step(cookies: Seq<char>, movie: MovieSpec, progress: DetailsProgress) -> Option<
    DetailsStepSpec,
> {
    match progress {
        DetailsProgress::Begin => Some(
            DetailsStepSpec::Send(
                DetailsStageSpec::Page,
                RequestSpec { url: movie.url, headers: None, method: HttpMethod::GET, body: None },
                cookies,
            ),
        ),
        DetailsProgress::Replied(stage, r) => match stage {
            DetailsStage::Page => if r.executed is Err {
                Some(DetailsStepSpec::Done(Err(Error::RequestFailed)))
            } else {
                match body_text(r) {
                    None => Some(DetailsStepSpec::Done(Err(Error::InvalidUtf8))),
                    Some(html) => match spec_details_outcome(html, cookies, movie) {
                        None => None,
                        Some(Err(e)) => Some(DetailsStepSpec::Done(Err(e))),
                        Some(Ok(d)) => Some(
                            DetailsStepSpec::Send(
                                DetailsStageSpec::CookieData(d),
                                cookie_data_request_spec(d.movie.url, d.cookie),
                                d.cookie,
                            ),
                        ),
                    },
                }
            },
            DetailsStage::CookieData(d) => match spec_cookie_data(r, d.id@) {
                None => None,
                Some(c) => Some(DetailsStepSpec::Done(Ok(with_hash_cookie(d@, c)))),
            },
        },
    }
}

/// The player request asked for at time `now`: the request expiring
/// `PLAYER_REQUEST_LIFETIME` seconds later, where that expiry fits an `i64`
/// and the signature input fits the hash.
pub open spec fn player_request(d: DetailsSpec, now: int) -> Option<RequestSpec> {
    let expiry = now + PLAYER_REQUEST_LIFETIME;
    if expiry <= i64::MAX && woolty_fits(d, expiry) {
        Some(woolty_request_spec(d, expiry))
    } else {
        None
    }
}

/// `chrono::Local::now().timestamp()`: the clock's current time as a Unix
/// timestamp in seconds. Nothing is stated of the value: it is the clock's.
#[verifier::external_body]
fn clock_now() -> i64 {
    Local::now().timestamp()
}

/// Whether `t` is a value `clock_now` can return: a reading of the clock.
pub closed spec fn clock_reading(t: i64) -> bool {
    call_ensures(clock_now, (), t)
}

/// How long a player request stays valid, in seconds.
pub const PLAYER_REQUEST_LIFETIME: i64 = 60;

impl Goojara {
    /// The request for page `page` of the movies of `genre`, and the
    /// cookies to send with it.
    pub fn genre_request(&self, genre: Genre, page: usize) -> (r: (Request, String))
        ensures
            r.0@ == (RequestSpec {
                url: genre_url(genre, page as nat),
                headers: None,
                method: HttpMethod::GET,
                body: None,
            }),
            r.1@ == self.spec_cookies(),
    {
        let mut url = String::from_str("https://www.goojara.to/watch-movies-genre-");
        url.append(genre.get_text());
        url.append("?p=");
        push_decimal(&mut url, page as u64);
        (Request::new(url, None, HttpMethod::GET, None), self.cookies.clone())
    }

    /// The movies of a list page, from the reply to `genre_request`; the
    /// client keeps the transfer's cookie when it has one.
    pub fn get_genre_movies(&mut self, reply: Reply) -> (r: Result<Vec<Movie>, Error>)
        ensures
            reply.executed is Err ==> r == Err::<Vec<Movie>, Error>(Error::RequestFailed)
                && final(self).spec_cookies() == old(self).spec_cookies(),
            reply.executed is Ok && body_text(reply) is None ==> r == Err::<Vec<Movie>, Error>(
                Error::InvalidUtf8,
            ) && final(self).spec_cookies() == old(self).spec_cookies(),
            reply.executed is Ok && body_text(reply) is Some ==> movies_view(r) == spec_page_movies(
                body_text(reply)->Some_0,
            ) && final(self).spec_cookies() == kept_cookies(old(self).spec_cookies(), reply.cookies),
    {
        if reply.executed.is_err() {
            return Err(Error::RequestFailed);
        }
        let html = match reply.data.get_text() {
            Ok(h) => h,
            Err(e) => return Err(e),
        };
        match reply.cookies {
            Ok(list) => {
                match self.parse_cookie(list) {
                    Ok(cookie) => {
                        self.cookies = cookie;
                    },
                    Err(_) => {},
                }
            },
            Err(_) => {},
        }
        self.parser.get_page_movies(html)
    }

    /// The request for the page of `movie`, and the cookies to send with it.
    pub fn details_request(&self, movie: &Movie) -> (r: (Request, String))
        ensures
            r.0@ == (RequestSpec { url: movie.url@, headers: None, method: HttpMethod::GET, body: None }),
            r.1@ == self.spec_cookies(),
    {
        (Request::new(movie.url.clone(), None, HttpMethod::GET, None), self.cookies.clone())
    }

    /// The details of `movie`, from the reply to `details_request`, with
    /// the client's cookies extended by the page's. `None` where the page
    /// lacks what the reading takes for granted (see `spec_details_outcome`).
    pub fn details(&mut self, movie: Movie, reply: Reply) -> (r: Option<Result<Details, Error>>)
        ensures
            final(self).spec_cookies() == old(self).spec_cookies(),
            reply.executed is Err ==> r == Some(Err::<Details, Error>(Error::RequestFailed)),
            reply.executed is Ok && body_text(reply) is None ==> r == Some(
                Err::<Details, Error>(Error::InvalidUtf8),
            ),
            reply.executed is Ok && body_text(reply) is Some ==> match r {
                Some(r) => spec_details_outcome(
                    body_text(reply)->Some_0,
                    old(self).spec_cookies(),
                    movie@,
                ) == Some(details_view(r)),
                None => spec_details_outcome(
                    body_text(reply)->Some_0,
                    old(self).spec_cookies(),
                    movie@,
                ) is None,
            },
    {
        if reply.executed.is_err() {
            return Some(Err(Error::RequestFailed));
        }
        let html = match reply.data.get_text() {
            Ok(h) => h,
            Err(e) => return Some(Err(e)),
        };
        Parser::try_movie_details(html, self.cookies.clone(), movie)
    }

    /// The next step of reading the details of `movie`: its page, then
    /// the cookie data of the details read from it, whose hash cookie is
    /// appended to them (see `spec_details_step`). The client's cookies
    /// stay as they are.
    pub fn details_step(&mut self, movie: &Movie, progress: DetailsProgress) -> (r: Option<DetailsStep>)
        ensures
            final(self).spec_cookies() == old(self).spec_cookies(),
            match r {
                Some(step) => spec_details_step(old(self).spec_cookies(), movie@, progress) == Some(
                    step@,
                ),
                None => spec_details_step(old(self).spec_cookies(), movie@, progress) is None,
            },
    {
        match progress {
            DetailsProgress::Begin => {
                let (request, cookie) = self.details_request(movie);
                Some(DetailsStep::Send(DetailsStage::Page, request, cookie))
            },
            DetailsProgress::Replied(stage, reply) => match stage {
                DetailsStage::Page => match self.details(copy_movie(movie), reply) {
                    None => None,
                    Some(Err(e)) => Some(DetailsStep::Done(Err(e))),
                    Some(Ok(d)) => {
                        let (request, cookie) = Goojara::cookie_data_request(
                            d.movie.url.as_str(),
                            d.cookie.as_str(),
                        );
                        Some(DetailsStep::Send(DetailsStage::CookieData(d), request, cookie))
                    },
                },
                DetailsStage::CookieData(d) => {
                    let mut d = d;
                    let cookie = match self.get_cookie_data(reply, d.id.as_str()) {
                        None => return None,
                        Some(c) => c,
                    };
                    d.attach_cookie(cookie);
                    Some(DetailsStep::Done(Ok(d)))
                },
            },
        }
    }

    /// The request for the cookie data of the movie at `url`, sent with
    /// `old_cookie`.
    pub fn cookie_data_request(url: &str, old_cookie: &str) -> (r: (Request, String))
        ensures
            r.0@ == cookie_data_request_spec(url@, old_cookie@),
            r.1@ == old_cookie@,
    {
        let mut u = String::from_str(url);
        u.append("?p=2");
        let mut first = String::from_str("cookie: ");
        first.append(old_cookie);
        let mut headers: Vec<String> = Vec::new();
        headers.push(first);
        headers.push(String::from_str("Content-type: application/x-www-form-urlencoded"));
        assert(headers.deep_view() =~= cookie_data_headers(old_cookie@));
        (Request::new(u, Some(headers), HttpMethod::POST, Some(utf8_bytes("act=1"))), String::from_str(old_cookie))
    }

    /// The hash cookie of a movie, from the reply to `cookie_data_request`.
    /// `None` where the page and the id do not allow it (see
    /// `hash_cookie_defined`).
    pub fn get_cookie_data(&mut self, reply: Reply, id: &str) -> (r: Option<Result<String, Error>>)
        ensures
            final(self).spec_cookies() == old(self).spec_cookies(),
            match r {
                Some(r) => spec_cookie_data(reply, id@) == Some(text_view(r)),
                None => spec_cookie_data(reply, id@) is None,
            },
    {
        if reply.executed.is_err() {
            return Some(Err(Error::RequestFailed));
        }
        let html = match reply.data.get_text() {
            Ok(h) => h,
            Err(e) => return Some(Err(e)),
        };
        if !Goojara::can_generate_hash_cookie(html.as_str(), id) {
            return None;
        }
        Some(self.generate_hash_cookie(html.as_str(), id))
    }

    /// The player request of a movie, expiring at `timestamp`, and the
    /// cookie to send with it. `None` where the signature input is too
    /// long for the hash.
    pub fn woolty_request(&self, details: &Details, timestamp: i64) -> (r: Option<(Request, String)>)
        ensures
            match r {
                Some((req, cookie)) => woolty_fits(details@, timestamp as int) && req@
                    == woolty_request_spec(details@, timestamp as int) && cookie@ == details.cookie@,
                None => !woolty_fits(details@, timestamp as int),
            },
    {
        proof {
            reveal_strlit("/");
        }
        let id = last_piece(details.movie.url.as_str(), "/");
        let mut ts = String::new();
        push_signed_decimal(&mut ts, timestamp);
        let mut sig_input = id.clone();
        sig_input.append(ts.as_str());
        sig_input.append(details.id.as_str());
        let sig_len = chars_of(sig_input.as_str()).len();
        if sig_len > 536870911 {
            return None;
        }
        let sig = SimpleHash::hash(sig_input.as_str());
        let mut hash_input = id.clone();
        hash_input.append(details.id.as_str());
        let hash = SimpleHash::hash(hash_input.as_str());
        let mut url = details.movie.url.clone();
        url.append("?p=2&sig=");
        url.append(sig.as_str());
        url.append("&exp=");
        url.append(ts.as_str());
        let mut body = String::from_str("act=2&ogn=");
        body.append(id.as_str());
        body.append("&hash=");
        body.append(hash.as_str());
        let mut first = String::from_str("cookie: ");
        first.append(details.cookie.as_str());
        let mut headers: Vec<String> = Vec::new();
        headers.push(first);
        headers.push(String::from_str("User-Agent: Mozilla/5.0 (Macintosh; Intel Mac OS X 10.15; rv:109.0) Gecko/20100101 Firefox/118.0"));
        headers.push(String::from_str("Accept: */*"));
        headers.push(String::from_str("Accept-Language: en-US,en;q=0.5"));
        headers.push(String::from_str("Content-type: application/x-www-form-urlencoded"));
        headers.push(String::from_str("Alt-Used: ww1.goojara.to"));
        headers.push(String::from_str("Sec-Fetch-Dest: empty"));
        headers.push(String::from_str("Sec-Fetch-Mode: cors"));
        headers.push(String::from_str("Sec-Fetch-Site: same-origin"));
        assert(headers.deep_view() =~= woolty_headers(details.cookie@));
        let req = Request::new(url, Some(headers), HttpMethod::GET, Some(utf8_bytes(body.as_str())));
        Some((req, details.cookie.clone()))
    }

    /// The player request of a movie asked for at time `now` (a Unix
    /// timestamp), expiring a minute later, and the cookie to send with it.
    /// `None` where that expiry does not fit an `i64` or the signature input
    /// is too long for the hash.
    pub fn woolty_request_at(&self, details: &Details, now: i64) -> (r: Option<(Request, String)>)
        ensures
            match r {
                Some((req, cookie)) => player_request(details@, now as int) == Some(req@) && cookie@
                    == details.cookie@,
                None => player_request(details@, now as int) is None,
            },
    {
        if now > i64::MAX - PLAYER_REQUEST_LIFETIME {
            return None;
        }
        self.woolty_request(details, now + PLAYER_REQUEST_LIFETIME)
    }

    /// The player request of a movie, expiring a minute from now by the
    /// clock, and the cookie to send with it. `None` where the signature
    /// input is too long for the hash.
    pub fn woolty_request_now(&self, details: &Details) -> (r: Option<(Request, String)>)
        ensures
            exists|now: i64|
                #[trigger] player_request(details@, now as int) == match r {
                    Some((req, _)) => Some(req@),
                    None => None,
                },
            r matches Some((_, cookie)) ==> cookie@ == details.cookie@,
            exists|now: i64| clock_reading(now) && #[trigger] player_request(details@, now as int) == match r {
                    Some((req, _)) => Some(req@),
                    None => None,
                },
    {
        let now = clock_now();
        let r = self.woolty_request_at(details, now);
        assert(player_request(details@, now as int) == match r {
            Some((req, _)) => Some(req@),
            None => None::<RequestSpec>,
        });
        r
    }

    /// The player of a movie, from the reply to `woolty_request`: the
    /// target of the page's first `iframe`.
    pub fn woolty(&mut self, reply: Reply) -> (r: Result<Wootly, Error>)
        ensures
            final(self).spec_cookies() == old(self).spec_cookies(),
            reply.executed is Err ==> r is Err && r->Err_0 == Error::WoolySendFailed,
            reply.executed is Ok && body_text(reply) is None ==> r is Err && r->Err_0
                == Error::InvalidUtf8,
            reply.executed is Ok && body_text(reply) is Some ==> match spec_woolty_url(
                body_text(reply)->Some_0,
            ) {
                Ok(u) => r is Ok && r->Ok_0.spec_url() == u && r->Ok_0.spec_cookie()
                    == Seq::<char>::empty(),
                Err(e) => r is Err && r->Err_0 == e,
            },
    {
        if reply.executed.is_err() {
            return Err(Error::WoolySendFailed);
        }
        let html = match reply.data.get_text() {
            Ok(h) => h,
            Err(e) => return Err(e),
        };
        match self.parser.get_woolty_url(html) {
            Ok(url) => Ok(Wootly::new(url.as_str())),
            Err(e) => Err(e),
        }
    }
}

impl Details {
    /// Appends the hash cookie, after a space, when there is one; the
    /// details are otherwise unchanged.
    pub fn attach_cookie(&mut self, cookie: Result<String, Error>)
        ensures
            final(self)@ == with_hash_cookie(old(self)@, text_view(cookie)),
    {
        match cookie {
            Ok(c) => {
                self.cookie.append(" ");
                self.cookie.append(c.as_str());
            },
            Err(_) => {},
        }
    }
}

/// Reading details sends at most two requests: it begins with the movie's
/// page; the page's reply leads to a further request only when the page was
/// read into details, and that request is their cookie data; the cookie
/// data's reply always ends the reading, with the details read from the
/// page, their cookie at most extended.
pub proof fn lemma_details_reading_ends(cookies: Seq<char>, movie: MovieSpec, progress: DetailsProgress)
    ensures
        progress is Begin ==> spec_details_step(cookies, movie, progress) == Some(
            DetailsStepSpec::Send(
                DetailsStageSpec::Page,
                RequestSpec { url: movie.url, headers: None, method: HttpMethod::GET, body: None },
                cookies,
            ),
        ),
        progress matches DetailsProgress::Replied(DetailsStage::Page, r) ==> (spec_details_step(
            cookies,
            movie,
            progress,
        ) matches Some(DetailsStepSpec::Send(s, req, c)) ==> {
            &&& r.executed is Ok
            &&& body_text(r) is Some
            &&& spec_details_outcome(body_text(r)->Some_0, cookies, movie) == Some(
                Ok::<DetailsSpec, Error>(s->CookieData_0),
            )
            &&& req == cookie_data_request_spec(s->CookieData_0.movie.url, s->CookieData_0.cookie)
            &&& c == s->CookieData_0.cookie
        }),
        progress matches DetailsProgress::Replied(DetailsStage::CookieData(d), _) ==> match spec_details_step(
            cookies,
            movie,
            progress,
        ) {
            Some(DetailsStepSpec::Send(_, _, _)) => false,
            Some(DetailsStepSpec::Done(res)) => res matches Ok(e) && e == DetailsSpec {
                cookie: e.cookie,
                ..d@
            } && d@.cookie.is_prefix_of(e.cookie),
            None => true,
        },
{
    if let DetailsProgress::Replied(DetailsStage::CookieData(d), r) = progress {
        if let Some(Ok(c)) = spec_cookie_data(r, d.id@) {
            assert(d@.cookie.is_prefix_of(d@.cookie + " "@ + c)) by {
                assert((d@.cookie + " "@ + c).take(d@.cookie.len() as int) =~= d@.cookie);
            }
        }
    }
}

/// The player request asked for at `now` expires sixty seconds later: its
/// URL is the movie URL with `?p=2`, the signature (the hash of the movie's
/// last URL part, the expiry in decimal and the page id) and that expiry;
/// its first header sends the details' cookie. It is built exactly when
/// the expiry fits an `i64` and the signature input fits the hash.
pub proof fn lemma_player_request_is_signed(d: DetailsSpec, now: int)
    ensures
        player_request(d, now) matches Some(r) ==> {
            let exp = spec_signed_decimal(now + 60);
            let id = spec_last_piece(d.movie.url, "/"@);
            &&& r.url == d.movie.url + "?p=2&sig="@ + spec_hash(id + exp + d.id) + "&exp="@ + exp
            &&& r.headers matches Some(h) && h.len() == 9 && h[0] == "cookie: "@ + d.cookie
            &&& r.method == HttpMethod::GET
        },
        player_request(d, now) is None <==> (now + 60 > i64::MAX || 8 * (spec_last_piece(
            d.movie.url,
            "/"@,
        ) + spec_signed_decimal(now + 60) + d.id).len() > u32::MAX),
{
}

/// The site's list and cookie data requests: page `page` of a genre is
/// `https://www.goojara.to/watch-movies-genre-<Name>?p=<page>`, with the
/// genre's name as the site writes it; the cookie data of a movie is a
/// `POST` of `act=1` to its URL with `?p=2`, sending its cookie in a header
/// and as a form.
pub proof fn lemma_site_requests(genre: Genre, page: nat, url: Seq<char>, cookie: Seq<char>)
    ensures
        genre_url(genre, page) == "https://www.goojara.to/watch-movies-genre-"@ + match genre {
            Genre::ACTION => "Action"@,
            Genre::ADVENTURE => "Adventure"@,
            Genre::COMEDY => "Comedy"@,
            Genre::SCIFI => "Sci-Fi"@,
        } + "?p="@ + spec_decimal(page),
        cookie_data_request_spec(url, cookie) == (RequestSpec {
            url: url + "?p=2"@,
            headers: Some(
                seq!["cookie: "@ + cookie, "Content-type: application/x-www-form-urlencoded"@],
            ),
            method: HttpMethod::POST,
            body: Some(encode_utf8("act=1"@)),
        }),
        spec_sent_body(cookie_data_request_spec(url, cookie)) == Some(encode_utf8("act=1"@)),
{
}

/// The player request sends no body: it is a `GET`.
pub proof fn lemma_player_request_sends_no_body(d: DetailsSpec, now: int)
    ensures
        player_request(d, now) matches Some(r) ==> r.method == HttpMethod::GET && spec_sent_body(r) is None,
{
}

proof fn lemma_movies_upto_images(cards: Seq<CardSpec>, n: nat)
    requires
        n <= cards.len(),
    ensures
        movies_upto(cards, n) matches Ok(ms) ==> forall|i: int|
            0 <= i < ms.len() ==> (#[trigger] ms[i]).img.len() >= 6 && ms[i].img.take(6) == "https:"@,
    decreases n,
{
    reveal_strlit("https:");
    if n > 0 {
        lemma_movies_upto_images(cards, (n - 1) as nat);
        match movies_upto(cards, (n - 1) as nat) {
            Err(_) => {},
            Ok(ms) => match card_movie(cards[n - 1]) {
                Ok(Some(m)) => {
                    assert(m.img.take(6) =~= "https:"@);
                    let all = ms.push(m);
                    assert forall|i: int| 0 <= i < all.len() implies (#[trigger] all[i]).img.len() >= 6
                        && all[i].img.take(6) == "https:"@ by {
                        if i < ms.len() {
                            assert(all[i] == ms[i]);
                        }
                    }
                },
                _ => {},
            },
        }
    }
}

/// Every movie read from a list page has an `https:` image URL.
pub proof fn lemma_page_movie_images_are_https(src: Seq<char>)
    ensures
        spec_page_movies(src) matches Ok(ms) ==> forall|i: int|
            0 <= i < ms.len() ==> (#[trigger] ms[i]).img.len() >= 6 && ms[i].img.take(6) == "https:"@,
{
    lemma_movies_upto_images(page_cards(src), page_cards(src).len());
}

/// The characters a digit key string picks out of `source`: for each key,
/// the character at the position its digit names.
pub open spec fn digit_picks(keys: Seq<char>, source: Seq<char>) -> Seq<char> {
    Seq::new(keys.len(), |k: int| source[keys[k] as int - '0' as int])
}

/// Whether every key is a decimal digit naming a position of `source`.
pub open spec fn keys_fit(keys: Seq<char>, source: Seq<char>) -> bool {
    forall|k: int|
        0 <= k < keys.len() ==> '0' <= #[trigger] keys[k] && keys[k] <= '9' && (keys[k] as int - '0' as int)
            < source.len()
}

proof fn lemma_pick_upto_picks(keys: Seq<char>, source: Seq<char>, n: nat)
    requires
        n <= keys.len(),
    ensures
        pick_upto(keys, source, n) matches Ok(acc) ==> keys_fit(keys.take(n as int), source) && acc
            == digit_picks(keys.take(n as int), source),
    decreases n,
{
    if n > 0 {
        lemma_pick_upto_picks(keys, source, (n - 1) as nat);
        if let Ok(acc) = pick_upto(keys, source, n) {
            let prev = pick_upto(keys, source, (n - 1) as nat)->Ok_0;
            let t = keys.take(n as int);
            assert(keys.take(n - 1) =~= t.take(n - 1));
            assert forall|k: int| 0 <= k < t.len() implies '0' <= #[trigger] t[k] && t[k] <= '9' && (t[k] as int
                - '0' as int) < source.len() by {
                if k < n - 1 {
                    assert(t[k] == keys.take(n - 1)[k]);
                }
            }
            assert(acc =~= digit_picks(t, source)) by {
                assert forall|k: int| 0 <= k < acc.len() implies acc[k] == digit_picks(t, source)[k] by {
                    if k < n - 1 {
                        assert(acc[k] == prev[k]);
                        assert(t[k] == keys.take(n - 1)[k]);
                    }
                }
            }
        }
    } else {
        assert(keys.take(0) =~= seq![]);
        assert(digit_picks(keys.take(0), source) =~= seq![]);
    }
}

/// What picking with digit keys gives: the keys are all digits within
/// `source`, and each picks the character at its position.
proof fn lemma_pick_chars_picks(keys: Seq<char>, source: Seq<char>)
    ensures
        pick_chars(keys, source) matches Ok(acc) ==> keys_fit(keys, source) && acc == digit_picks(keys, source),
{
    lemma_pick_upto_picks(keys, source, keys.len());
    assert(keys.take(keys.len() as int) =~= keys);
}

/// The hash cookie of a movie page is built from the id's digits alone:
/// the id's last digit names the word of the page text that the code comes
/// from, its second-last the word (lowercased) that the name comes from;
/// the last four digits pick the name's characters, and the digits at
/// bytes 7..10 followed by those four pick the code's; the cookie is
/// `_<name>=<SHA-1 style digest of the code, uppercase>;`.
pub proof fn lemma_hash_cookie_picks(text: Seq<char>, id: Seq<char>)
    requires
        hash_cookie_defined(text, id),
    ensures
        spec_hash_cookie(text, id) matches Ok(c) ==> {
            let n = id_bytes(id);
            let words = spec_split(text, " "@);
            let last = byte_range(id, n - 1, n);
            let second_last = byte_range(id, n - 2, n - 1);
            let name_keys = byte_range(id, n - 4, n);
            let code_keys = byte_range(id, 7, 10) + name_keys;
            let code_word = words[last[0] as int - '0' as int];
            let name_word = unicode_lowercase(words[second_last[0] as int - '0' as int]);
            &&& last.len() == 1 && '0' <= last[0] && last[0] <= '9'
            &&& (last[0] as int - '0' as int) < words.len()
            &&& second_last.len() == 1 && '0' <= second_last[0] && second_last[0] <= '9'
            &&& (second_last[0] as int - '0' as int) < words.len()
            &&& keys_fit(name_keys, name_word)
            &&& keys_fit(code_keys, code_word)
            &&& c == "_"@ + digit_picks(name_keys, name_word) + "="@ + spec_ascii_uppercase(
                spec_hash(digit_picks(code_keys, code_word)),
            ) + ";"@
        },
{
    let n = id_bytes(id);
    let words = spec_split(text, " "@);
    let b = byte_range(id, n - 4, n);
    let cc = byte_range(id, 7, 10) + b;
    if let Ok(c) = spec_hash_cookie(text, id) {
        let f = words[one_digit(byte_range(id, n - 2, n - 1))->Some_0 as int];
        let g = words[one_digit(byte_range(id, n - 1, n))->Some_0 as int];
        lemma_pick_chars_picks(b, unicode_lowercase(f));
        lemma_pick_chars_picks(cc, g);
        let last = byte_range(id, n - 1, n);
        let second_last = byte_range(id, n - 2, n - 1);
        assert(one_digit(last) is Some);
        assert(code_word_index(text, id) is Some);
        assert(one_digit(second_last) is Some);
        assert(one_digit(last)->Some_0 == last[0] as int - '0' as int);
        assert(one_digit(second_last)->Some_0 == second_last[0] as int - '0' as int);
    }
}

/// An uppercase hexadecimal digit.
pub open spec fn is_upper_hex(c: char) -> bool {
    ('0' <= c && c <= '9') || ('A' <= c && c <= 'F')
}

/// The player link is the `src` of the page's first `iframe` in document
/// order, whatever iframes follow it; a page whose first `iframe` has no
/// `src` has no link, and one without `iframe` misses its details.
pub proof fn lemma_player_link_is_the_first_iframe_src(src: Seq<char>)
    ensures
        spec_woolty_url(src) matches Ok(u) ==> document_match_count(src, "iframe"@) > 0
            && element_attribute(src, seq![("iframe"@, 0nat)], "src"@) == Some(u),
        spec_woolty_url(src) == Err::<Seq<char>, Error>(Error::NoUrl) ==> document_match_count(
            src,
            "iframe"@,
        ) > 0 && element_attribute(src, seq![("iframe"@, 0nat)], "src"@) is None,
        spec_woolty_url(src) == Err::<Seq<char>, Error>(Error::MissingDetails) ==> document_match_count(
            src,
            "iframe"@,
        ) == 0,
{
}

/// The names a paragraph of the info box lists: its text without the
/// `Director: ` and `Cast: ` labels, cut at `, `.
pub open spec fn listed_names(text: Seq<char>) -> Seq<Seq<char>> {
    spec_split(spec_replace(spec_replace(text, "Director: "@, ""@), "Cast: "@, ""@), ", "@)
}

/// Details read from a page come from their own parts of it: the info box
/// (the first `#alger > div > div.marl > div.fimm`) holds exactly three
/// `p` elements, read in order as description, directors and cast, so no
/// paragraph elsewhere on the page counts; duration, genres and release
/// date are the parts of the first `div.date` line; the id is the
/// `data-ins` of the first `#shd`; the movie is the one given, and the
/// client's cookie is only extended.
pub proof fn lemma_details_come_from_their_parts(src: Seq<char>, cookie: Seq<char>, movie: MovieSpec)
    ensures
        spec_details_outcome(src, cookie, movie) matches Some(Ok(d)) ==> {
            let info = seq![("#alger > div > div.marl > div.fimm"@, 0nat)];
            let line = element_text(src, seq![("#alger > div > div.marl > div.date"@, 0nat)]);
            &&& element_match_count(src, info, "p"@) == 3
            &&& d.description == listed_names(element_text(src, info.push(("p"@, 0nat))))[0]
            &&& d.directors == listed_names(element_text(src, info.push(("p"@, 1nat))))
            &&& d.casts == listed_names(element_text(src, info.push(("p"@, 2nat))))
            &&& spec_split(line, " | "@).len() >= 3
            &&& d.duration == spec_split(line, " | "@)[0]
            &&& d.genres == spec_split(spec_split(line, " | "@)[1], ", "@)
            &&& d.release_date == spec_split(line, " | "@)[2]
            &&& element_attribute(src, seq![("#shd"@, 0nat)], "data-ins"@) == Some(d.id)
            &&& d.movie == movie
            &&& cookie.is_prefix_of(d.cookie)
        },
{
    if let Some(Ok(d)) = spec_details_outcome(src, cookie, movie) {
        if let Some(g) = regex_last_captures("_3chk.+?\\);"@, src) {
            if let Some(g2) = regex_captures("'(\\w+)',\\s*'(\\w+)'"@, g[0]->Some_0) {
                let c = cookie + "; "@ + g2[1]->Some_0 + "="@ + g2[2]->Some_0 + ";"@;
                assert(c.take(cookie.len() as int) =~= cookie);
            }
        } else {
            assert(d.cookie.take(cookie.len() as int) =~= cookie);
        }
    }
}

/// The movie the `i`-th link of the list container stands for, read from
/// the link alone.
pub open spec fn container_link_movie(src: Seq<char>, i: nat) -> MovieSpec {
    let link = seq![("#xbrd > div.mxwd > div.dflex"@, 0nat), ("div > a"@, i)];
    MovieSpec {
        url: element_attribute(src, link, "href"@)->Some_0,
        title: element_attribute(src, link, "title"@)->Some_0,
        img: "https:"@ + element_attribute(src, link.push(("img"@, 0nat)), "data-src"@)->Some_0,
        quality: element_text(src, link.push((".hd.hda"@, 0nat))),
        year: element_text(src, link.push((".hd.hdy"@, 0nat))),
    }
}

/// Whether `idx` picks, in increasing order, links among the first `n` of
/// the list container whose movies are `ms`.
pub open spec fn picked_links(src: Seq<char>, ms: Seq<MovieSpec>, idx: Seq<nat>, n: nat) -> bool {
    &&& idx.len() == ms.len()
    &&& forall|j: int, k: int| 0 <= j < k < idx.len() ==> idx[j] < idx[k]
    &&& forall|j: int| #![trigger idx[j]] 0 <= j < idx.len() ==> idx[j] < n && ms[j] == container_link_movie(src, idx[j])
}

proof fn lemma_movies_upto_links(src: Seq<char>, n: nat) -> (idx: Seq<nat>)
    requires
        n <= page_cards(src).len(),
    ensures
        movies_upto(page_cards(src), n) matches Ok(ms) ==> picked_links(src, ms, idx, n),
    decreases n,
{
    if n == 0 {
        seq![]
    } else {
        let idx = lemma_movies_upto_links(src, (n - 1) as nat);
        if let Ok(ms) = movies_upto(page_cards(src), (n - 1) as nat) {
            assert forall|j: int| 0 <= j < idx.len() implies #[trigger] idx[j] < n && ms[j]
                == container_link_movie(src, idx[j]) by {
                assert(idx[j] < n - 1 && ms[j] == container_link_movie(src, idx[j]));
            }
            if let Ok(Some(m)) = card_movie(page_cards(src)[n - 1]) {
                let idx2 = idx.push((n - 1) as nat);
                let ms2 = ms.push(m);
                assert(m == container_link_movie(src, (n - 1) as nat));
                assert forall|j: int, k: int| 0 <= j < k < idx2.len() implies idx2[j] < idx2[k] by {
                    if k < idx.len() {
                        assert(idx[j] < idx[k]);
                    } else {
                        assert(idx[j] < n - 1 && ms[j] == container_link_movie(src, idx[j]));
                    }
                }
                assert forall|j: int| 0 <= j < idx2.len() implies #[trigger] idx2[j] < n && ms2[j]
                    == container_link_movie(src, idx2[j]) by {
                    if j < idx.len() {
                        assert(ms2[j] == ms[j]);
                        assert(idx[j] < n - 1 && ms[j] == container_link_movie(src, idx[j]));
                    }
                }
                assert(picked_links(src, ms2, idx2, n));
                assert(movies_upto(page_cards(src), n) == Ok::<Seq<MovieSpec>, Error>(ms2));
                return idx2;
            }
            assert(picked_links(src, ms, idx, n));
        }
        idx
    }
}

/// Whether a link of the list container lacks the part whose absence gives
/// error `e`: its image, its year badge or its quality badge.
pub open spec fn link_lacks(src: Seq<char>, i: nat, e: Error) -> bool {
    let link = seq![("#xbrd > div.mxwd > div.dflex"@, 0nat), ("div > a"@, i)];
    match e {
        Error::NoCoverImage => element_match_count(src, link, "img"@) == 0,
        Error::NoReleaseDate => element_match_count(src, link, ".hd.hdy"@) == 0,
        Error::NoQuality => element_match_count(src, link, ".hd.hda"@) == 0,
        _ => false,
    }
}

proof fn lemma_movies_upto_errors(src: Seq<char>, n: nat)
    requires
        n <= page_cards(src).len(),
    ensures
        movies_upto(page_cards(src), n) matches Err(e) ==> exists|i: nat| i < n && #[trigger] link_lacks(src, i, e),
    decreases n,
{
    if n > 0 {
        lemma_movies_upto_errors(src, (n - 1) as nat);
        if let Err(e) = movies_upto(page_cards(src), (n - 1) as nat) {
            let i = choose|i: nat| i < n - 1 && #[trigger] link_lacks(src, i, e);
            assert(link_lacks(src, i, e));
        } else if let Err(e) = card_movie(page_cards(src)[n - 1]) {
            assert(link_lacks(src, (n - 1) as nat, e));
        }
    }
}

/// The movies of a list page are read from the links of its container (the
/// first `#xbrd > div.mxwd > div.dflex`) alone, in their order: each is the
/// movie of a distinct container link, later links giving later movies;
/// and a card error names a container link that lacks that part. Links
/// elsewhere on the page never count.
pub proof fn lemma_page_movies_come_from_the_container(src: Seq<char>)
    ensures
        spec_page_movies(src) matches Ok(ms) ==> exists|idx: Seq<nat>|
            #[trigger] picked_links(
                src,
                ms,
                idx,
                element_match_count(src, seq![("#xbrd > div.mxwd > div.dflex"@, 0nat)], "div > a"@),
            ),
        spec_page_movies(src) matches Err(e) ==> (e is NoCoverImage || e is NoReleaseDate || e is NoQuality)
            ==> exists|i: nat|
            i < element_match_count(src, seq![("#xbrd > div.mxwd > div.dflex"@, 0nat)], "div > a"@)
                && #[trigger] link_lacks(src, i, e),
{
    let idx = lemma_movies_upto_links(src, page_cards(src).len());
    if let Ok(ms) = spec_page_movies(src) {
        assert(picked_links(src, ms, idx, page_cards(src).len()));
    }
    lemma_movies_upto_errors(src, page_cards(src).len());
}

/// A hash cookie is `_`, a name, `=`, forty uppercase hex digits and `;`.
pub proof fn lemma_hash_cookie_shape(text: Seq<char>, id: Seq<char>)
    ensures
        spec_hash_cookie(text, id) matches Ok(c) ==> {
            &&& c.len() >= 43
            &&& c[0] == '_'
            &&& c[c.len() - 42] == '='
            &&& c[c.len() - 1] == ';'
            &&& forall|j: int| c.len() - 41 <= j < c.len() - 1 ==> is_upper_hex(#[trigger] c[j])
        },
{
    reveal_strlit("_");
    reveal_strlit("=");
    reveal_strlit(";");
    if let Ok(c) = spec_hash_cookie(text, id) {
        let n = id_bytes(id);
        let parts = spec_split(text, " "@);
        let b = byte_range(id, n - 4, n);
        let cc = byte_range(id, 7, 10) + b;
        let gi = one_digit(byte_range(id, n - 1, n))->Some_0;
        let f = parts[one_digit(byte_range(id, n - 2, n - 1))->Some_0 as int];
        let h = pick_chars(b, unicode_lowercase(f))->Ok_0;
        let code = pick_chars(cc, parts[gi as int])->Ok_0;
        let d = spec_hash(code);
        crate::hashing::lemma_hash_is_forty_hex_digits(code);
        let u = spec_ascii_uppercase(d);
        assert(c == "_"@ + h + "="@ + u + ";"@);
        assert forall|j: int| c.len() - 41 <= j < c.len() - 1 implies is_upper_hex(#[trigger] c[j]) by {
            let k = j - (c.len() - 41);
            assert(c[j] == u[k]);
            assert(crate::hashing::is_lower_hex(d[k]));
        }
    }
}

} // verus!
