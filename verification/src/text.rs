use vstd::prelude::*;
use vstd::utf8::*;
use vstd::string::StringSliceAdditionalSpecFns;

verus! {

/// `String::push` from std: appends one character.
#[verifier::external_body]
pub(crate) fn push_char(s: &mut String, c: char)
    ensures
        final(s)@ == old(s)@.push(c),
{
    s.push(c);
}

/// `String::from_utf8` from std: the bytes as text when they are valid
/// UTF-8, an error otherwise.
#[verifier::external_body]
pub(crate) fn string_from_utf8(bytes: Vec<u8>) -> (res: Result<String, ()>)
    ensures
        res is Ok <==> valid_utf8(bytes@),
        res matches Ok(s) ==> s@ == decode_utf8(bytes@),
{
    String::from_utf8(bytes).map_err(|_| ())
}

/// The characters of `s`, in order.
pub fn chars_of(s: &str) -> (v: Vec<char>)
    ensures
        v@ == s@,
{
    let mut v: Vec<char> = Vec::new();
    for c in it: s.chars()
        invariant
            v@ == it.seq().take(it.index() as int),
            it.seq() == s@,
    {
        v.push(c);
    }
    v
}

/// A `String` holding exactly the characters of `v`.
pub fn string_of(v: &Vec<char>) -> (s: String)
    ensures
        s@ == v@,
{
    let mut s = String::new();
    for i in 0..v.len()
        invariant
            s@ == v@.take(i as int),
    {
        push_char(&mut s, v[i]);
        assert(v@.take(i + 1) == v@.take(i as int).push(v@[i as int]));
    }
    assert(v@.take(v.len() as int) == v@);
    s
}


/// `sep` occurs in `s` at position `i`.
pub open spec fn matches_at(s: Seq<char>, sep: Seq<char>, i: int) -> bool {
    0 <= i && i + sep.len() <= s.len() && s.subrange(i, i + sep.len()) == sep
}

/// The first position at or after `i` where `sep` occurs in `s`, or -1.
pub open spec fn find_from(s: Seq<char>, sep: Seq<char>, i: int) -> int
    decreases s.len() - i,
{
    if sep.len() == 0 || i < 0 || i + sep.len() > s.len() {
        -1
    } else if matches_at(s, sep, i) {
        i
    } else {
        find_from(s, sep, i + 1)
    }
}

/// The pieces of `s` from position `start` on, cut at each occurrence of
/// `sep`, scanning left to right.
pub open spec fn split_from(s: Seq<char>, sep: Seq<char>, start: int) -> Seq<Seq<char>>
    decreases s.len() - start,
{
    let k = find_from(s, sep, start);
    if sep.len() == 0 || start < 0 || start > s.len() || k < start || k + sep.len() > s.len() {
        seq![s.subrange(start, s.len() as int)]
    } else {
        seq![s.subrange(start, k)] + split_from(s, sep, k + sep.len())
    }
}

/// `s` cut at each occurrence of the non-empty `sep`, as `str::split` does.
pub open spec fn spec_split(s: Seq<char>, sep: Seq<char>) -> Seq<Seq<char>> {
    split_from(s, sep, 0)
}

/// The pieces joined with `sep` between each two of them.
pub open spec fn spec_join(parts: Seq<Seq<char>>, sep: Seq<char>) -> Seq<char>
    decreases parts.len(),
{
    if parts.len() == 0 {
        seq![]
    } else if parts.len() == 1 {
        parts[0]
    } else {
        spec_join(parts.drop_last(), sep) + sep + parts.last()
    }
}

/// Every occurrence of `from` in `s` replaced by `to`, as `str::replace` does.
pub open spec fn spec_replace(s: Seq<char>, from: Seq<char>, to: Seq<char>) -> Seq<char> {
    spec_join(spec_split(s, from), to)
}

/// The last piece of `s` cut at `sep`.
pub open spec fn spec_last_piece(s: Seq<char>, sep: Seq<char>) -> Seq<char> {
    spec_split(s, sep).last()
}

/// A found position lies at or after the start and holds an occurrence.
pub proof fn lemma_find_from(s: Seq<char>, sep: Seq<char>, i: int)
    ensures
        find_from(s, sep, i) == -1 || (i <= find_from(s, sep, i) && find_from(s, sep, i) + sep.len()
            <= s.len() && matches_at(s, sep, find_from(s, sep, i))),
    decreases s.len() - i,
{
    if sep.len() == 0 || i < 0 || i + sep.len() > s.len() {
    } else if matches_at(s, sep, i) {
    } else {
        lemma_find_from(s, sep, i + 1);
    }
}

proof fn lemma_split_from_nonempty(s: Seq<char>, sep: Seq<char>, start: int)
    ensures
        split_from(s, sep, start).len() >= 1,
    decreases s.len() - start,
{
    let k = find_from(s, sep, start);
    if sep.len() == 0 || start < 0 || start > s.len() || k < start || k + sep.len() > s.len() {
    } else {
        lemma_split_from_nonempty(s, sep, k + sep.len());
    }
}

/// Cutting a string always gives at least one piece.
pub proof fn lemma_split_nonempty(s: Seq<char>, sep: Seq<char>)
    ensures
        spec_split(s, sep).len() >= 1,
{
    lemma_split_from_nonempty(s, sep, 0);
}

/// Whether `sep` occurs in `s` at position `i`.
fn matches_here(s: &Vec<char>, sep: &Vec<char>, i: usize) -> (r: bool)
    ensures
        r == matches_at(s@, sep@, i as int),
{
    if i > s.len() || sep.len() > s.len() - i {
        return false;
    }
    let mut j: usize = 0;
    while j < sep.len()
        invariant
            i + sep.len() <= s.len(),
            j <= sep.len(),
            s@.subrange(i as int, i + j) == sep@.take(j as int),
        decreases sep.len() - j,
    {
        if s[i + j] != sep[j] {
            assert(s@.subrange(i as int, i + sep.len())[j as int] != sep@[j as int]);
            return false;
        }
        j = j + 1;
        assert(s@.subrange(i as int, i + j) =~= sep@.take(j as int));
    }
    assert(sep@.take(j as int) =~= sep@);
    true
}

/// The first position at or after `start` where `sep` occurs.
fn find(s: &Vec<char>, sep: &Vec<char>, start: usize) -> (r: Option<usize>)
    requires
        sep@.len() > 0,
        start <= s@.len(),
    ensures
        match r {
            Some(k) => k as int == find_from(s@, sep@, start as int) && start <= k && k + sep@.len()
                <= s@.len(),
            None => find_from(s@, sep@, start as int) == -1,
        },
{
    proof {
        lemma_find_from(s@, sep@, start as int);
    }
    let mut i = start;
    while i <= s.len() && sep.len() <= s.len() - i
        invariant
            sep@.len() > 0,
            start <= i,
            find_from(s@, sep@, start as int) == find_from(s@, sep@, i as int),
        decreases s.len() + 1 - i,
    {
        if matches_here(s, sep, i) {
            return Some(i);
        }
        i = i + 1;
    }
    None
}

/// `s` cut at each occurrence of the non-empty `sep`.
pub fn split(s: &str, sep: &str) -> (parts: Vec<String>)
    requires
        sep@.len() > 0,
    ensures
        parts.deep_view() == spec_split(s@, sep@),
{
    let sc = chars_of(s);
    let pc = chars_of(sep);
    let mut parts: Vec<String> = Vec::new();
    let mut start: usize = 0;
    loop
        invariant
            sc@ == s@,
            pc@ == sep@,
            sep@.len() > 0,
            start <= sc@.len(),
            spec_split(s@, sep@) == parts.deep_view() + split_from(s@, sep@, start as int),
        decreases sc@.len() - start,
    {
        let found = find(&sc, &pc, start);
        match found {
            Some(k) => {
                assert(k + pc.len() <= sc.len());
                let piece = string_of_range(&sc, start, k);
                let ghost before = parts.deep_view();
                let ghost old_start = start;
                parts.push(piece);
                assert(parts.deep_view() =~= before.push(s@.subrange(start as int, k as int)));
                assert(split_from(s@, sep@, start as int) == seq![s@.subrange(start as int, k as int)]
                    + split_from(s@, sep@, k + sep@.len()));
                start = k + pc.len();
                assert(parts.deep_view() + split_from(s@, sep@, start as int) =~= before + (seq![
                    s@.subrange(old_start as int, k as int)] + split_from(s@, sep@, start as int)));
            },
            None => {
                let piece = string_of_range(&sc, start, sc.len());
                let ghost before = parts.deep_view();
                parts.push(piece);
                assert(parts.deep_view() =~= before.push(s@.subrange(start as int, s@.len() as int)));
                assert(split_from(s@, sep@, start as int) == seq![s@.subrange(start as int, s@.len() as int)]);
                assert(spec_split(s@, sep@) =~= parts.deep_view());
                return parts;
            },
        }
    }
}

/// A `String` of the characters of `v` in `from..to`.
pub fn string_of_range(v: &Vec<char>, from: usize, to: usize) -> (s: String)
    requires
        from <= to <= v@.len(),
    ensures
        s@ == v@.subrange(from as int, to as int),
{
    let mut s = String::new();
    let mut i = from;
    while i < to
        invariant
            from <= i <= to <= v@.len(),
            s@ == v@.subrange(from as int, i as int),
        decreases to - i,
    {
        push_char(&mut s, v[i]);
        i = i + 1;
        assert(s@ =~= v@.subrange(from as int, i as int));
    }
    s
}


/// `spec_join` of the first `i + 1` pieces extends that of the first `i`.
proof fn lemma_join_take(parts: Seq<Seq<char>>, sep: Seq<char>, i: int)
    requires
        0 < i < parts.len(),
    ensures
        spec_join(parts.take(i + 1), sep) == spec_join(parts.take(i), sep) + sep + parts[i],
{
    assert(parts.take(i + 1).drop_last() =~= parts.take(i));
}

/// The pieces joined with `sep` between each two of them.
pub fn join(parts: &Vec<String>, sep: &str) -> (r: String)
    ensures
        r@ == spec_join(parts.deep_view(), sep@),
{
    let mut r = String::new();
    let ghost dv = parts.deep_view();
    for i in 0..parts.len()
        invariant
            dv == parts.deep_view(),
            dv.len() == parts@.len(),
            r@ == spec_join(dv.take(i as int), sep@),
    {
        if i > 0 {
            r.append(sep);
            r.append(parts[i].as_str());
            proof {
                lemma_join_take(dv, sep@, i as int);
            }
        } else {
            r.append(parts[i].as_str());
            assert(dv.take(1) =~= seq![dv[0]]);
        }
    }
    assert(dv.take(parts.len() as int) =~= dv);
    r
}

/// Every occurrence of the non-empty `from` in `s` replaced by `to`.
pub fn replace(s: &str, from: &str, to: &str) -> (r: String)
    requires
        from@.len() > 0,
    ensures
        r@ == spec_replace(s@, from@, to@),
{
    let parts = split(s, from);
    join(&parts, to)
}

/// The last piece of `s` cut at the non-empty `sep`.
pub fn last_piece(s: &str, sep: &str) -> (r: String)
    requires
        sep@.len() > 0,
    ensures
        r@ == spec_last_piece(s@, sep@),
{
    let mut parts = split(s, sep);
    proof {
        lemma_split_nonempty(s@, sep@);
    }
    let ghost dv = parts.deep_view();
    let last = parts.pop();
    match last {
        Some(p) => {
            assert(dv[dv.len() - 1] == p@);
            p
        },
        None => String::new(),
    }
}

/// A character that `trim_quotes` strips: `"` or `;`.
pub open spec fn is_quote_or_semicolon(c: char) -> bool {
    c == '"' || c == ';'
}

/// `s` without its leading quotes and semicolons.
pub open spec fn trim_start_quotes(s: Seq<char>) -> Seq<char>
    decreases s.len(),
{
    if s.len() > 0 && is_quote_or_semicolon(s[0]) {
        trim_start_quotes(s.drop_first())
    } else {
        s
    }
}

/// `s` without its trailing quotes and semicolons.
pub open spec fn trim_end_quotes(s: Seq<char>) -> Seq<char>
    decreases s.len(),
{
    if s.len() > 0 && is_quote_or_semicolon(s.last()) {
        trim_end_quotes(s.drop_last())
    } else {
        s
    }
}

/// `s` with quotes and semicolons trimmed from both ends, as
/// `trim_matches(|p| p == '"' || p == ';')` does.
pub open spec fn spec_trim_quotes(s: Seq<char>) -> Seq<char> {
    trim_end_quotes(trim_start_quotes(s))
}

/// `s` with quotes and semicolons trimmed from both ends.
pub fn trim_quotes(s: &str) -> (r: String)
    ensures
        r@ == spec_trim_quotes(s@),
{
    let v = chars_of(s);
    let n = v.len();
    let mut i: usize = 0;
    assert(s@.subrange(0, n as int) =~= s@);
    while i < n && (v[i] == '"' || v[i] == ';')
        invariant
            v@ == s@,
            n == v@.len(),
            i <= n,
            trim_start_quotes(s@) == trim_start_quotes(s@.subrange(i as int, n as int)),
        decreases n - i,
    {
        assert(s@.subrange(i as int, n as int).drop_first() =~= s@.subrange(i + 1, n as int));
        i = i + 1;
    }
    assert(trim_start_quotes(s@) == s@.subrange(i as int, n as int));
    let mut j: usize = n;
    while j > i && (v[j - 1] == '"' || v[j - 1] == ';')
        invariant
            v@ == s@,
            n == v@.len(),
            i <= j <= n,
            spec_trim_quotes(s@) == trim_end_quotes(s@.subrange(i as int, j as int)),
        decreases j,
    {
        assert(s@.subrange(i as int, j as int).drop_last() =~= s@.subrange(i as int, j - 1));
        j = j - 1;
    }
    string_of_range(&v, i, j)
}

/// A hex digit, lowercase (decimal digits for values below ten).
pub open spec fn hex_digit(v: u32) -> char {
    if v == 0 { '0' } else if v == 1 { '1' } else if v == 2 { '2' } else if v == 3 { '3' }
    else if v == 4 { '4' } else if v == 5 { '5' } else if v == 6 { '6' } else if v == 7 { '7' }
    else if v == 8 { '8' } else if v == 9 { '9' } else if v == 10 { 'a' } else if v == 11 { 'b' }
    else if v == 12 { 'c' } else if v == 13 { 'd' } else if v == 14 { 'e' } else { 'f' }
}

/// The lowercase hex digit of `v`.
pub fn hex_char(v: u32) -> (c: char)
    requires
        v < 16,
    ensures
        c == hex_digit(v),
{
    if v == 0 { '0' } else if v == 1 { '1' } else if v == 2 { '2' } else if v == 3 { '3' }
    else if v == 4 { '4' } else if v == 5 { '5' } else if v == 6 { '6' } else if v == 7 { '7' }
    else if v == 8 { '8' } else if v == 9 { '9' } else if v == 10 { 'a' } else if v == 11 { 'b' }
    else if v == 12 { 'c' } else if v == 13 { 'd' } else if v == 14 { 'e' } else { 'f' }
}

/// The decimal digits of `n`, without leading zeros.
pub open spec fn spec_decimal(n: nat) -> Seq<char>
    decreases n,
{
    if n < 10 {
        seq![hex_digit(n as u32)]
    } else {
        spec_decimal(n / 10).push(hex_digit((n % 10) as u32))
    }
}

/// The decimal form of a signed integer, with `-` before a negative one.
pub open spec fn spec_signed_decimal(x: int) -> Seq<char> {
    if x < 0 {
        seq!['-'] + spec_decimal((-x) as nat)
    } else {
        spec_decimal(x as nat)
    }
}

/// Appends the decimal digits of `n`.
pub fn push_decimal(s: &mut String, n: u64)
    ensures
        final(s)@ == old(s)@ + spec_decimal(n as nat),
    decreases n,
{
    if n >= 10 {
        push_decimal(s, n / 10);
    }
    push_char(s, hex_char((n % 10) as u32));
    assert(final(s)@ =~= old(s)@ + spec_decimal(n as nat)) by {
        if n >= 10 {
        } else {
        }
    }
}

/// Appends the decimal form of `x`.
pub fn push_signed_decimal(s: &mut String, x: i64)
    ensures
        final(s)@ == old(s)@ + spec_signed_decimal(x as int),
{
    if x < 0 {
        push_char(s, '-');
        let mag: u64 = (-(x as i128)) as u64;
        push_decimal(s, mag);
        assert(final(s)@ =~= old(s)@ + spec_signed_decimal(x as int));
    } else {
        push_decimal(s, x as u64);
    }
}

/// The characters whose UTF-8 encoding is bytes `from..to` of the
/// encoding of `s`.
pub open spec fn byte_range(s: Seq<char>, from: int, to: int) -> Seq<char> {
    decode_utf8(encode_utf8(s).subrange(from, to))
}

/// `&s[from..to]`: the text between two byte offsets that are character
/// boundaries.
pub fn byte_slice<'a>(s: &'a str, from: usize, to: usize) -> (r: &'a str)
    requires
        from <= to <= s.spec_bytes().len(),
        is_char_boundary(s.spec_bytes(), from as int),
        is_char_boundary(s.spec_bytes(), to as int),
    ensures
        r@ == byte_range(s@, from as int, to as int),
        r@.len() <= to - from,
{
    let ghost bytes = s.spec_bytes();
    proof {
        encode_utf8_valid_utf8(s@);
        valid_utf8_split(bytes, to as int);
        let pre = bytes.subrange(0, to as int);
        if from < to {
            is_char_boundary_iff_not_is_continuation_byte(bytes, from as int);
            is_char_boundary_iff_not_is_continuation_byte(pre, from as int);
        } else {
            is_char_boundary_start_end_of_seq(pre);
        }
    }
    let (left, _) = s.split_at(to);
    let (_, r) = left.split_at(from);
    proof {
        encode_utf8_decode_utf8(r@);
        assert(r.spec_bytes() =~= bytes.subrange(from as int, to as int));
        encode_utf8_valid_utf8(r@);
        lemma_decode_len(encode_utf8(r@));
    }
    r
}

/// Decoding never yields more characters than there are bytes.
pub proof fn lemma_decode_len(bytes: Seq<u8>)
    requires
        valid_utf8(bytes),
    ensures
        decode_utf8(bytes).len() <= bytes.len(),
    decreases bytes.len(),
{
    if bytes.len() > 0 {
        let rest = pop_first_scalar(bytes);
        assert(1 <= length_of_first_scalar(bytes) <= bytes.len());
        assert(rest.len() == bytes.len() - length_of_first_scalar(bytes));
        lemma_decode_len(rest);
    }
}

/// The UTF-8 encoding of `s`.
pub fn utf8_bytes(s: &str) -> (res: Vec<u8>)
    ensures
        res@ == encode_utf8(s@),
{
    let bytes = s.as_bytes();
    let mut res: Vec<u8> = Vec::new();
    for i in 0..bytes.len()
        invariant
            bytes@ == encode_utf8(s@),
            res@ == bytes@.take(i as int),
    {
        res.push(bytes[i]);
        assert(res@ =~= bytes@.take(i + 1));
    }
    assert(res@ =~= bytes@);
    res
}

/// Text from bytes as `String::from_utf8_lossy` gives it.
pub uninterp spec fn utf8_lossy(bytes: Seq<u8>) -> Seq<char>;

/// `String::from_utf8_lossy` from std: the bytes as text, each invalid
/// sequence replaced by U+FFFD. The contract names the result; for valid
/// UTF-8 it is the decoded text, as std documents.
#[verifier::external_body]
pub(crate) fn from_utf8_lossy(bytes: &[u8]) -> (s: String)
    ensures
        s@ == utf8_lossy(bytes@),
        valid_utf8(bytes@) ==> s@ == decode_utf8(bytes@),
{
    String::from_utf8_lossy(bytes).to_string()
}

/// Text as `str::to_lowercase` gives it.
pub uninterp spec fn unicode_lowercase(s: Seq<char>) -> Seq<char>;

/// Text whose characters are all ASCII.
pub open spec fn is_ascii_text(s: Seq<char>) -> bool {
    forall|i: int| 0 <= i < s.len() ==> (s[i] as u32) < 128
}

/// `c` with ASCII uppercase letters made lowercase.
pub open spec fn ascii_lower(c: char) -> char {
    if 'A' <= c && c <= 'Z' {
        ((c as u32) + 32) as char
    } else {
        c
    }
}

/// `s` with ASCII uppercase letters made lowercase.
pub open spec fn spec_ascii_lowercase(s: Seq<char>) -> Seq<char> {
    Seq::new(s.len(), |i: int| ascii_lower(s[i]))
}

/// `str::to_lowercase` from std: the Unicode lowercase of `s`. The
/// contract names the result and states the ASCII case (`A`..`Z` become
/// `a`..`z`, every other ASCII character stays); the Unicode case tables
/// beyond ASCII are left unsaid.
#[verifier::external_body]
pub(crate) fn to_lowercase(s: &str) -> (r: String)
    ensures
        r@ == unicode_lowercase(s@),
        is_ascii_text(s@) ==> r@ == spec_ascii_lowercase(s@),
{
    s.to_lowercase()
}

/// `c` with ASCII lowercase letters made uppercase.
pub open spec fn ascii_upper(c: char) -> char {
    if 'a' <= c && c <= 'z' {
        ((c as u32) - 32) as char
    } else {
        c
    }
}

/// `s` with ASCII lowercase letters made uppercase; `str::to_uppercase`
/// agrees with it on ASCII text.
pub open spec fn spec_ascii_uppercase(s: Seq<char>) -> Seq<char> {
    Seq::new(s.len(), |i: int| ascii_upper(s[i]))
}

/// `s` with ASCII lowercase letters made uppercase.
pub fn ascii_uppercase(s: &str) -> (r: String)
    ensures
        r@ == spec_ascii_uppercase(s@),
{
    let v = chars_of(s);
    let mut r = String::new();
    for i in 0..v.len()
        invariant
            v@ == s@,
            r@ == spec_ascii_uppercase(s@).take(i as int),
    {
        let c = v[i];
        let u = if 'a' <= c && c <= 'z' {
            char_from_ascii((c as u32 - 32) as u8)
        } else {
            c
        };
        push_char(&mut r, u);
        assert(r@ =~= spec_ascii_uppercase(s@).take(i + 1));
    }
    assert(spec_ascii_uppercase(s@).take(v.len() as int) =~= spec_ascii_uppercase(s@));
    r
}

/// The character of an ASCII byte.
fn char_from_ascii(b: u8) -> (c: char)
    requires
        b < 128,
    ensures
        c == (b as u32) as char,
{
    b as char
}


/// Whether two strings hold the same characters.
pub fn str_eq(a: &str, b: &str) -> (r: bool)
    ensures
        r == (a@ == b@),
{
    let av = chars_of(a);
    let bv = chars_of(b);
    if av.len() != bv.len() {
        return false;
    }
    for i in 0..av.len()
        invariant
            av@ == a@,
            bv@ == b@,
            av@.len() == bv@.len(),
            av@.take(i as int) == bv@.take(i as int),
    {
        if av[i] != bv[i] {
            assert(a@[i as int] != b@[i as int]);
            return false;
        }
        assert(av@.take(i + 1) =~= bv@.take(i + 1));
    }
    assert(av@ =~= av@.take(av@.len() as int));
    assert(bv@ =~= bv@.take(bv@.len() as int));
    true
}


/// Joining a first piece in front of at least one more.
proof fn lemma_join_prepend(a: Seq<char>, rest: Seq<Seq<char>>, sep: Seq<char>)
    requires
        rest.len() >= 1,
    ensures
        spec_join(seq![a] + rest, sep) == a + sep + spec_join(rest, sep),
    decreases rest.len(),
{
    let all = seq![a] + rest;
    if rest.len() == 1 {
        assert(all.drop_last() =~= seq![a]);
        assert(all.last() == rest[0]);
    } else {
        lemma_join_prepend(a, rest.drop_last(), sep);
        assert(all.drop_last() =~= seq![a] + rest.drop_last());
        assert(all.last() == rest.last());
        assert(spec_join(all, sep) == spec_join(all.drop_last(), sep) + sep + all.last());
        assert(spec_join(rest, sep) == spec_join(rest.drop_last(), sep) + sep + rest.last());
        assert(spec_join(all, sep) =~= a + sep + spec_join(rest, sep));
    }
}

proof fn lemma_join_split_from(s: Seq<char>, sep: Seq<char>, start: int)
    requires
        sep.len() > 0,
        0 <= start <= s.len(),
    ensures
        spec_join(split_from(s, sep, start), sep) == s.subrange(start, s.len() as int),
    decreases s.len() - start,
{
    let k = find_from(s, sep, start);
    lemma_find_from(s, sep, start);
    if k < start || k + sep.len() > s.len() {
    } else {
        let next = k + sep.len();
        lemma_join_split_from(s, sep, next);
        lemma_split_from_nonempty(s, sep, next);
        lemma_join_prepend(s.subrange(start, k), split_from(s, sep, next), sep);
        assert(s.subrange(k, next) == sep);
        assert(s.subrange(start, k) + sep + s.subrange(next, s.len() as int) =~= s.subrange(
            start,
            s.len() as int,
        ));
    }
}

/// Cutting a string at a separator and joining the pieces with that
/// separator gives the string back.
pub proof fn lemma_join_split(s: Seq<char>, sep: Seq<char>)
    requires
        sep.len() > 0,
    ensures
        spec_join(spec_split(s, sep), sep) == s,
{
    lemma_join_split_from(s, sep, 0);
    assert(s.subrange(0, s.len() as int) =~= s);
}

/// Replacing a separator by itself leaves the text unchanged.
pub proof fn lemma_replace_by_itself(s: Seq<char>, sep: Seq<char>)
    requires
        sep.len() > 0,
    ensures
        spec_replace(s, sep, sep) == s,
{
    lemma_join_split(s, sep);
}

/// No piece of a cut string holds the separator.
pub proof fn lemma_split_pieces_lack_separator(s: Seq<char>, sep: Seq<char>, i: int, j: int)
    requires
        sep.len() > 0,
        0 <= i < spec_split(s, sep).len(),
    ensures
        !matches_at(spec_split(s, sep)[i], sep, j),
{
    lemma_split_from_pieces(s, sep, 0, i, j);
}

proof fn lemma_find_from_none(s: Seq<char>, sep: Seq<char>, i: int, j: int)
    requires
        sep.len() > 0,
        0 <= i <= j,
        find_from(s, sep, i) == -1,
    ensures
        !matches_at(s, sep, j),
    decreases s.len() - i,
{
    if i + sep.len() > s.len() {
    } else if i < j {
        lemma_find_from_none(s, sep, i + 1, j);
    }
}

proof fn lemma_find_from_first(s: Seq<char>, sep: Seq<char>, i: int, j: int)
    requires
        sep.len() > 0,
        0 <= i <= j < find_from(s, sep, i),
    ensures
        !matches_at(s, sep, j),
    decreases s.len() - i,
{
    if i < j {
        lemma_find_from_first(s, sep, i + 1, j);
    }
}

proof fn lemma_split_from_pieces(s: Seq<char>, sep: Seq<char>, start: int, i: int, j: int)
    requires
        sep.len() > 0,
        0 <= start <= s.len(),
        0 <= i < split_from(s, sep, start).len(),
    ensures
        !matches_at(split_from(s, sep, start)[i], sep, j),
    decreases s.len() - start,
{
    let k = find_from(s, sep, start);
    lemma_find_from(s, sep, start);
    let p = split_from(s, sep, start)[i];
    if k < start || k + sep.len() > s.len() {
        if matches_at(p, sep, j) {
            assert(s.subrange(start + j, start + j + sep.len()) =~= p.subrange(j, j + sep.len()));
            lemma_find_from_none(s, sep, start, start + j);
        }
    } else if i == 0 {
        if matches_at(p, sep, j) {
            assert(s.subrange(start + j, start + j + sep.len()) =~= p.subrange(j, j + sep.len()));
            lemma_find_from_first(s, sep, start, start + j);
        }
    } else {
        lemma_split_from_pieces(s, sep, k + sep.len(), i - 1, j);
    }
}


/// Joining pieces free of `c` with a separator free of `c` gives text
/// free of `c`.
proof fn lemma_join_free_of(parts: Seq<Seq<char>>, sep: Seq<char>, c: char)
    requires
        forall|i: int, j: int| 0 <= i < parts.len() && 0 <= j < parts[i].len() ==> parts[i][j] != c,
        forall|j: int| 0 <= j < sep.len() ==> sep[j] != c,
    ensures
        forall|j: int| 0 <= j < spec_join(parts, sep).len() ==> spec_join(parts, sep)[j] != c,
    decreases parts.len(),
{
    if parts.len() == 0 {
    } else if parts.len() == 1 {
        assert(forall|j: int| 0 <= j < parts[0].len() ==> parts[0][j] != c);
    } else {
        lemma_join_free_of(parts.drop_last(), sep, c);
        let pre = spec_join(parts.drop_last(), sep);
        let last = parts.last();
        assert(forall|j: int| 0 <= j < last.len() ==> last[j] != c);
        let all = pre + sep + last;
        assert forall|j: int| 0 <= j < all.len() implies all[j] != c by {
            if j < pre.len() {
                assert(all[j] == pre[j]);
            } else if j < pre.len() + sep.len() {
                assert(all[j] == sep[j - pre.len()]);
            } else {
                assert(all[j] == last[j - pre.len() - sep.len()]);
            }
        }
    }
}

/// Replacing a character by text that does not hold it removes the
/// character entirely.
pub proof fn lemma_replace_removes_char(s: Seq<char>, c: char, to: Seq<char>)
    requires
        forall|j: int| 0 <= j < to.len() ==> to[j] != c,
    ensures
        forall|j: int| 0 <= j < spec_replace(s, seq![c], to).len() ==> spec_replace(s, seq![c], to)[j] != c,
{
    let parts = spec_split(s, seq![c]);
    assert forall|i: int, j: int| 0 <= i < parts.len() && 0 <= j < parts[i].len() implies parts[i][j] != c by {
        lemma_split_pieces_lack_separator(s, seq![c], i, j);
        if parts[i][j] == c {
            assert(parts[i].subrange(j, j + 1) =~= seq![c]);
        }
    }
    lemma_join_free_of(parts, to, c);
}

} // verus!
