# goojara

A client library for a movie streaming site, with its logic verified by
Verus.

- `src/hashing.rs`: `SimpleHash`, a SHA-1 style digest over the code points of
  a string, proved equal to FIPS 180-4 SHA-1 on text whose code points fit
  one byte (so on ASCII text).
- `src/text.rs`: string splitting, joining, replacing and trimming with their
  specifications, and the std conversions the library relies on.
- `src/html.rs`, `src/pattern.rs`: the calls into `scraper` and `regex`, with
  names for what they return.
- `src/goojara.rs`: reading movie lists and movie details out of the site's
  pages, the site's hash cookie, and the requests each operation sends; the
  reading of a movie's details (its page, then its cookie data) is a step
  function from the reply of one request to the next request.
- `src/wootly.rs`: the player, whose search for the video link is a step
  function from the reply of one request to the next request.
- `src/request_client.rs`: requests (and which body each method sends),
  replies, the body collector and the cookie lines of a transfer.
- `app/`: the program: performs the requests with `curl`, downloads, prints.
