//! AWS Signature Version 4.
use crate::aws::headers::{
    ascending, lemma_ascending_unique, lemma_sorted_names, names_of, sorted_names, Headers,
};
use crate::constants::USER_AGENT;
use crate::error::lemma_encoding_of_two;
use crate::outside::{
    form_pairs, format_utc, hex_encode, hex_text, hmac_sha256, hmac_sha256_code, parse_form,
    parse_url, percent, sha256, sha256_digest, upper_hex_digit, url_parts, utc_now, utc_text,
    UrlParts, UrlPartsView, LAST_SECOND,
};
use crate::text::{
    before, is_before, is_white, join, joined, law_joined_lists_are_joined,
    law_words_are_parted_by_white_space, lemma_before_irreflexive, lemma_before_total,
    lemma_before_transitive, lowered, pair_texts, same, texts, to_lower, words, words_of,
};
use crate::types::{Credentials, CredentialsView};
use crate::xml::or_empty;
use vstd::prelude::*;
use vstd::relations::{sorted_by, total_ordering};
use vstd::string::*;
use vstd::utf8::encode_utf8;

verus! {

/// The bytes that a canonical query leaves as they are.
pub open spec fn unreserved(b: u8) -> bool {
    ||| b == '-' as u8 || b == '_' as u8 || b == '.' as u8 || b == '~' as u8
    ||| '0' as u8 <= b <= '9' as u8
    ||| 'A' as u8 <= b <= 'Z' as u8
    ||| 'a' as u8 <= b <= 'z' as u8
}

/// One byte as a canonical query writes it.
pub open spec fn query_byte(b: u8) -> Seq<char> {
    if unreserved(b) {
        seq![b as char]
    } else {
        percent(b)
    }
}

/// Some bytes as a canonical query writes them.
pub open spec fn query_bytes(bytes: Seq<u8>) -> Seq<char>
    decreases bytes.len(),
{
    if bytes.len() == 0 {
        Seq::empty()
    } else {
        query_bytes(bytes.drop_last()) + query_byte(bytes.last())
    }
}

/// A text as a canonical query writes it.
pub open spec fn query_text(s: Seq<char>) -> Seq<char> {
    query_bytes(encode_utf8(s))
}

/// The upper case hexadecimal digit of value `d`.
fn hex_digit(d: u8) -> (c: char)
    requires
        d < 16,
    ensures
        c == upper_hex_digit(d as int),
{
    if d < 10 {
        (48 + d) as char
    } else {
        (65 + (d - 10)) as char
    }
}

/// Writes a text for a canonical query.
pub fn aws_encode(s: &str) -> (r: String)
    ensures
        r@ == query_text(s@),
{
    let bytes = s.as_bytes();
    let mut out = String::new();
    let n = bytes.len();
    for i in 0..n
        invariant
            n == bytes@.len(),
            out@ == query_bytes(bytes@.take(i as int)),
    {
        let b: u8 = bytes[i];
        let ghost done = out@;
        assert(bytes@.take(i + 1).drop_last() == bytes@.take(i as int));
        if (48 <= b && b <= 57) || (65 <= b && b <= 90) || (97 <= b && b <= 122) || b == 45 || b
            == 95 || b == 46 || b == 126 {
            out.push(b as char);
        } else {
            out.push('%');
            out.push(hex_digit(b / 16));
            out.push(hex_digit(b % 16));
        }
        assert(out@ == done + query_byte(b));
    }
    assert(bytes@.take(n as int) == bytes@);
    out
}

/// The order of the pairs of a canonical query: by name, and by value where the names are the same.
pub open spec fn pair_leq(p: (Seq<char>, Seq<char>), q: (Seq<char>, Seq<char>)) -> bool {
    before(p.0, q.0) || (p.0 == q.0 && (before(p.1, q.1) || p.1 == q.1))
}

/// [`pair_leq`] is a total order.
proof fn lemma_pair_order()
    ensures
        total_ordering(|p: (Seq<char>, Seq<char>), q: (Seq<char>, Seq<char>)| pair_leq(p, q)),
{
    let leq = |p: (Seq<char>, Seq<char>), q: (Seq<char>, Seq<char>)| pair_leq(p, q);
    assert forall|p: (Seq<char>, Seq<char>), q: (Seq<char>, Seq<char>)| #[trigger]
        leq(p, q) && #[trigger] leq(q, p) implies p == q by {
        lemma_before_total(p.0, q.0);
        lemma_before_total(p.1, q.1);
        lemma_before_irreflexive(p.0);
    }
    assert forall|
        p: (Seq<char>, Seq<char>),
        q: (Seq<char>, Seq<char>),
        r: (Seq<char>, Seq<char>),
    | #[trigger]
        leq(p, q) && #[trigger] leq(q, r) implies leq(p, r) by {
        if before(p.0, q.0) && before(q.0, r.0) {
            lemma_before_transitive(p.0, q.0, r.0);
        }
        if before(p.1, q.1) && before(q.1, r.1) {
            lemma_before_transitive(p.1, q.1, r.1);
        }
    }
    assert forall|p: (Seq<char>, Seq<char>), q: (Seq<char>, Seq<char>)| #[trigger]
        leq(p, q) || #[trigger] leq(q, p) by {
        lemma_before_total(p.0, q.0);
        lemma_before_total(p.1, q.1);
    }
}

/// Whether the pair `p` does not stand after the pair `q`.
fn is_pair_leq(p: &(String, String), q: &(String, String)) -> (r: bool)
    ensures
        r == pair_leq((p.0@, p.1@), (q.0@, q.1@)),
{
    is_before(p.0.as_str(), q.0.as_str()) || (same(p.0.as_str(), q.0.as_str()) && (is_before(
        p.1.as_str(),
        q.1.as_str(),
    ) || same(p.1.as_str(), q.1.as_str())))
}

/// The pairs in their order.
pub open spec fn sorted_pairs(pairs: Seq<(Seq<char>, Seq<char>)>) -> Seq<(Seq<char>, Seq<char>)> {
    pairs.sort_by(|p: (Seq<char>, Seq<char>), q: (Seq<char>, Seq<char>)| pair_leq(p, q))
}

/// Puts a pair where it belongs among pairs that are in their order.
fn insert_pair(sorted: &mut Vec<(String, String)>, pair: (String, String))
    requires
        sorted_by(
            pair_texts(old(sorted)@),
            |p: (Seq<char>, Seq<char>), q: (Seq<char>, Seq<char>)| pair_leq(p, q),
        ),
    ensures
        sorted_by(
            pair_texts(final(sorted)@),
            |p: (Seq<char>, Seq<char>), q: (Seq<char>, Seq<char>)| pair_leq(p, q),
        ),
        pair_texts(final(sorted)@).to_multiset() == pair_texts(old(sorted)@).to_multiset().insert(
            (pair.0@, pair.1@),
        ),
{
    let ghost leq = |p: (Seq<char>, Seq<char>), q: (Seq<char>, Seq<char>)| pair_leq(p, q);
    let ghost list = pair_texts(sorted@);
    let ghost x = (pair.0@, pair.1@);
    proof {
        lemma_pair_order();
    }
    let mut i: usize = 0;
    while i < sorted.len() && is_pair_leq(&sorted[i], &pair)
        invariant
            i <= sorted@.len(),
            list == pair_texts(sorted@),
            *sorted == *old(sorted),
            x == (pair.0@, pair.1@),
            leq == (|p: (Seq<char>, Seq<char>), q: (Seq<char>, Seq<char>)| pair_leq(p, q)),
            forall|j: int| 0 <= j < i ==> leq(#[trigger] list[j], x),
        decreases sorted@.len() - i,
    {
        assert(list[i as int] == (sorted@[i as int].0@, sorted@[i as int].1@));
        i += 1;
    }
    assert(i < sorted@.len() ==> !leq(list[i as int], x)) by {
        if i < sorted@.len() {
            assert(list[i as int] == (sorted@[i as int].0@, sorted@[i as int].1@));
        }
    }
    sorted.insert(i, pair);
    let ghost now = pair_texts(sorted@);
    assert(now == list.insert(i as int, x));
    assert forall|a: int, b: int| 0 <= a < b < now.len() implies leq(
        #[trigger] now[a],
        #[trigger] now[b],
    ) by {
        if i < list.len() {
            assert(leq(x, list[i as int]));
        }
        if a < i && b > i {
            assert(leq(list[a], list[b - 1]));
        } else if a < i && b < i {
            assert(leq(list[a], list[b]));
        } else if a > i {
            assert(leq(list[a - 1], list[b - 1]));
        } else if a == i {
            if b - 1 > i {
                assert(leq(list[i as int], list[b - 1]));
            }
            assert(leq(x, list[b - 1]));
        }
    }
    proof {
        vstd::seq_lib::to_multiset_insert(list, i as int, x);
    }
}

/// The pairs of a query, written for a canonical query.
pub open spec fn encoded_pairs(raw: Seq<char>) -> Seq<(Seq<char>, Seq<char>)> {
    form_pairs(encode_utf8(raw)).map_values(
        |p: (Seq<char>, Seq<char>)| (query_text(p.0), query_text(p.1)),
    )
}

/// The pairs of a list, each as a name, an equals sign and a value.
pub open spec fn assignments(pairs: Seq<(Seq<char>, Seq<char>)>) -> Seq<Seq<char>> {
    pairs.map_values(|p: (Seq<char>, Seq<char>)| p.0 + seq!['='] + p.1)
}

/// The canonical form of a query: its pairs, encoded and in their order.
pub open spec fn canonical_query(raw: Seq<char>) -> Seq<char> {
    if raw.len() == 0 {
        Seq::empty()
    } else {
        joined(assignments(sorted_pairs(encoded_pairs(raw))), "&"@)
    }
}

/// Sorts pairs and writes them as a canonical query.
pub fn canonical_pairs(pairs: &Vec<(String, String)>) -> (r: String)
    ensures
        r@ == joined(
            assignments(
                sorted_pairs(
                    pair_texts(pairs@).map_values(
                        |p: (Seq<char>, Seq<char>)| (query_text(p.0), query_text(p.1)),
                    ),
                ),
            ),
            "&"@,
        ),
{
    let ghost leq = |p: (Seq<char>, Seq<char>), q: (Seq<char>, Seq<char>)| pair_leq(p, q);
    let ghost encoded = pair_texts(pairs@).map_values(
        |p: (Seq<char>, Seq<char>)| (query_text(p.0), query_text(p.1)),
    );
    let mut sorted: Vec<(String, String)> = Vec::new();
    let n = pairs.len();
    proof {
        broadcast use vstd::seq_lib::group_to_multiset_ensures;

        assert(pair_texts(sorted@) == encoded.take(0));
    }
    for i in 0..n
        invariant
            n == pairs@.len(),
            leq == (|p: (Seq<char>, Seq<char>), q: (Seq<char>, Seq<char>)| pair_leq(p, q)),
            encoded == pair_texts(pairs@).map_values(
                |p: (Seq<char>, Seq<char>)| (query_text(p.0), query_text(p.1)),
            ),
            sorted_by(pair_texts(sorted@), leq),
            pair_texts(sorted@).to_multiset() == encoded.take(i as int).to_multiset(),
    {
        let name = aws_encode(pairs[i].0.as_str());
        let value = aws_encode(pairs[i].1.as_str());
        assert(encoded[i as int] == (name@, value@));
        insert_pair(&mut sorted, (name, value));
        proof {
            vstd::seq_lib::to_multiset_build(encoded.take(i as int), encoded[i as int]);
            assert(encoded.take(i + 1) == encoded.take(i as int).push(encoded[i as int]));
        }
    }
    assert(encoded.take(n as int) == encoded);
    proof {
        lemma_pair_order();
        encoded.lemma_sort_by_ensures(leq);
        vstd::seq_lib::lemma_sorted_unique(pair_texts(sorted@), encoded.sort_by(leq), leq);
    }
    let ghost order = pair_texts(sorted@);
    let mut parts: Vec<String> = Vec::new();
    let m = sorted.len();
    for i in 0..m
        invariant
            m == sorted@.len(),
            order == pair_texts(sorted@),
            texts(parts@) == assignments(order.take(i as int)),
    {
        let ghost done = texts(parts@);
        let mut part = sorted[i].0.clone();
        part.push('=');
        part.append(sorted[i].1.as_str());
        assert(part@ == order[i as int].0 + seq!['='] + order[i as int].1);
        let ghost t = part@;
        parts.push(part);
        assert(texts(parts@) == done.push(t));
        assert(assignments(order.take(i + 1)) == assignments(order.take(i as int)).push(t));
    }
    assert(order.take(m as int) == order);
    join(&parts, "&")
}

/// The canonical form of a query.
pub fn canonical_query_string(raw: &str) -> (r: String)
    ensures
        r@ == canonical_query(raw@),
{
    if raw.is_empty() {
        return String::new();
    }
    canonical_pairs(&parse_form(raw.as_bytes()))
}

/// A header value with every run of white space as one space, and none at the ends.
pub open spec fn normalized(v: Seq<char>) -> Seq<char> {
    joined(words_of(v), " "@)
}

/// Writes every run of white space in a header value as one space, and none at the ends.
pub fn normalize_header_value(v: &str) -> (r: String)
    ensures
        r@ == normalized(v@),
{
    join(&words(v), " ")
}

/// The key that requests of a day are signed with.
pub open spec fn signing_key(
    secret: Seq<char>,
    date: Seq<char>,
    region: Seq<char>,
    service: Seq<char>,
) -> Seq<u8> {
    let day = hmac_sha256_code(encode_utf8("AWS4"@ + secret), encode_utf8(date));
    let local = hmac_sha256_code(day, encode_utf8(region));
    let serving = hmac_sha256_code(local, encode_utf8(service));
    hmac_sha256_code(serving, encode_utf8("aws4_request"@))
}

/// The key that requests of a day are signed with.
pub fn signature_key(secret: &str, date: &str, region: &str, service: &str) -> (r: Vec<u8>)
    ensures
        r@ == signing_key(secret@, date@, region@, service@),
        r@.len() == 32,
{
    let mut seed = "AWS4".to_owned();
    seed.append(secret);
    let day = hmac_sha256(seed.as_str().as_bytes(), date.as_bytes());
    let local = hmac_sha256(day.as_slice(), region.as_bytes());
    let serving = hmac_sha256(local.as_slice(), service.as_bytes());
    hmac_sha256(serving.as_slice(), "aws4_request".as_bytes())
}

/// What a signature covers, besides the time.
pub struct Signing {
    pub method: Seq<char>,
    pub url: UrlPartsView,
    pub service: Seq<char>,
    pub region: Seq<char>,
    pub creds: CredentialsView,
    pub headers: Seq<(Seq<char>, Seq<char>)>,
    pub body: Seq<u8>,
}

/// The headers `given`, their names in lower case, put over those of `m`; a later one wins over an
/// earlier one.
pub open spec fn with_given(
    m: Map<Seq<char>, Seq<char>>,
    given: Seq<(Seq<char>, Seq<char>)>,
) -> Map<Seq<char>, Seq<char>>
    decreases given.len(),
{
    if given.len() == 0 {
        m
    } else {
        with_given(m, given.drop_last()).insert(lowered(given.last().0), given.last().1)
    }
}

/// The day and time of a signature.
pub open spec fn amz_date(secs: int) -> Seq<char> {
    utc_text(secs, "%Y%m%dT%H%M%SZ"@)
}

/// The day of a signature.
pub open spec fn date_stamp(secs: int) -> Seq<char> {
    utc_text(secs, "%Y%m%d"@)
}

/// The digest of the body of a request.
pub open spec fn payload_hash(body: Seq<u8>) -> Seq<char> {
    hex_text(sha256_digest(body))
}

/// The headers that every request carries.
pub open spec fn own_headers(
    host: Seq<char>,
    date: Seq<char>,
    hash: Seq<char>,
    token: Seq<char>,
) -> Map<Seq<char>, Seq<char>> {
    let m = Map::<Seq<char>, Seq<char>>::empty().insert("host"@, host).insert(
        "user-agent"@,
        USER_AGENT@,
    ).insert("x-amz-date"@, date).insert("x-amz-content-sha256"@, hash);
    if token.len() == 0 {
        m
    } else {
        m.insert("x-amz-security-token"@, token)
    }
}

/// The headers that the signature covers.
pub open spec fn covered_headers(secs: int, r: Signing) -> Map<Seq<char>, Seq<char>> {
    with_given(
        own_headers(
            or_empty(r.url.host),
            amz_date(secs),
            payload_hash(r.body),
            r.creds.session_token,
        ),
        r.headers,
    )
}

/// One line for each of `names`: the name, a colon and the normalized value.
pub open spec fn header_lines(names: Seq<Seq<char>>, m: Map<Seq<char>, Seq<char>>) -> Seq<char>
    decreases names.len(),
{
    if names.len() == 0 {
        Seq::empty()
    } else {
        header_lines(names.drop_last(), m) + names.last() + seq![':'] + normalized(m[names.last()])
            + seq!['\n']
    }
}

/// The names of the covered headers, in order.
pub open spec fn covered_names(secs: int, r: Signing) -> Seq<char> {
    joined(sorted_names(covered_headers(secs, r)), ";"@)
}

/// The path of a request, which is never empty.
pub open spec fn canonical_uri(path: Seq<char>) -> Seq<char> {
    if path.len() == 0 {
        "/"@
    } else {
        path
    }
}

/// The canonical form of a request.
pub open spec fn canonical_request(secs: int, r: Signing) -> Seq<char> {
    let m = covered_headers(secs, r);
    r.method + "\n"@ + canonical_uri(r.url.path) + "\n"@ + canonical_query(or_empty(r.url.query))
        + "\n"@ + header_lines(sorted_names(m), m) + "\n"@ + covered_names(secs, r) + "\n"@
        + payload_hash(r.body)
}

/// The day, region and service that a signature holds for.
pub open spec fn credential_scope(secs: int, r: Signing) -> Seq<char> {
    date_stamp(secs) + "/"@ + r.region + "/"@ + r.service + "/aws4_request"@
}

/// The text that is signed.
pub open spec fn string_to_sign(secs: int, r: Signing) -> Seq<char> {
    "AWS4-HMAC-SHA256\n"@ + amz_date(secs) + "\n"@ + credential_scope(secs, r) + "\n"@ + hex_text(
        sha256_digest(encode_utf8(canonical_request(secs, r))),
    )
}

/// The signature of a request.
pub open spec fn signature(secs: int, r: Signing) -> Seq<char> {
    hex_text(
        hmac_sha256_code(
            signing_key(r.creds.secret_access_key, date_stamp(secs), r.region, r.service),
            encode_utf8(string_to_sign(secs, r)),
        ),
    )
}

/// The header that carries the signature.
pub open spec fn authorization(secs: int, r: Signing) -> Seq<char> {
    "AWS4-HMAC-SHA256 Credential="@ + r.creds.access_key_id + "/"@ + credential_scope(secs, r)
        + ", SignedHeaders="@ + covered_names(secs, r) + ", Signature="@ + signature(secs, r)
}

/// All headers of a request signed at `secs` seconds after the beginning of 1970.
pub open spec fn signed_headers(secs: int, r: Signing) -> Map<Seq<char>, Seq<char>> {
    covered_headers(secs, r).insert("authorization"@, authorization(secs, r))
}

/// The headers that every request carries, and those given over them.
fn collect_headers(
    host: &str,
    date: &str,
    hash: &str,
    token: &str,
    headers: &Vec<(String, String)>,
) -> (h: Headers)
    ensures
        h.well_formed(),
        h@ == with_given(own_headers(host@, date@, hash@, token@), pair_texts(headers@)),
{
    let mut h = Headers::new();
    h.insert("host".to_owned(), host.to_owned());
    h.insert("user-agent".to_owned(), USER_AGENT.to_owned());
    h.insert("x-amz-date".to_owned(), date.to_owned());
    h.insert("x-amz-content-sha256".to_owned(), hash.to_owned());
    if !token.is_empty() {
        h.insert("x-amz-security-token".to_owned(), token.to_owned());
    }
    let ghost own = h@;
    let ghost given = pair_texts(headers@);
    let n = headers.len();
    for i in 0..n
        invariant
            n == headers@.len(),
            given == pair_texts(headers@),
            h.well_formed(),
            h@ == with_given(own, given.take(i as int)),
    {
        h.insert(to_lower(headers[i].0.as_str()), headers[i].1.clone());
        assert(given.take(i + 1).drop_last() == given.take(i as int));
    }
    assert(given.take(n as int) == given);
    h
}

/// The lines and the names of headers, in order.
fn header_texts(h: &Headers) -> (r: (String, String))
    requires
        h.well_formed(),
    ensures
        r.0@ == header_lines(sorted_names(h@), h@),
        r.1@ == joined(sorted_names(h@), ";"@),
{
    let ghost names = names_of(pair_texts(h.entries@));
    proof {
        h.lemma_sorted();
    }
    let mut lines = String::new();
    let mut parts: Vec<String> = Vec::new();
    let n = h.entries.len();
    for i in 0..n
        invariant
            n == h.entries@.len(),
            names == names_of(pair_texts(h.entries@)),
            forall|i: int|
                0 <= i < h.entries@.len() ==> h@[#[trigger] h.entries@[i].0@] == h.entries@[i].1@,
            lines@ == header_lines(names.take(i as int), h@),
            texts(parts@) == names.take(i as int),
    {
        let ghost done = texts(parts@);
        let name = h.entries[i].0.as_str();
        assert(names[i as int] == name@);
        lines.append(name);
        lines.push(':');
        lines.append(normalize_header_value(h.entries[i].1.as_str()).as_str());
        lines.push('\n');
        parts.push(h.entries[i].0.clone());
        assert(texts(parts@) == done.push(name@));
        assert(names.take(i + 1).drop_last() == names.take(i as int));
        assert(names.take(i + 1) == names.take(i as int).push(name@));
        assert(lines@ == header_lines(names.take(i as int), h@) + name@ + seq![':'] + normalized(
            h@[name@],
        ) + seq!['\n']);
    }
    assert(names.take(n as int) == names);
    (lines, join(&parts, ";"))
}

/// The time and the day of a signature; the text of the time begins with the text of the day.
pub fn dates_of(secs: i64) -> (r: (String, String))
    requires
        0 <= secs <= LAST_SECOND,
    ensures
        r.0@ == amz_date(secs as int),
        r.1@ == date_stamp(secs as int),
        r.1@.is_prefix_of(r.0@),
{
    (format_utc(secs, "%Y%m%dT%H%M%SZ"), format_utc(secs, "%Y%m%d"))
}

/// Signs a request at `secs` seconds after the beginning of 1970.
pub fn sign_v4_at(
    secs: i64,
    method: &str,
    parts: &UrlParts,
    service: &str,
    region: &str,
    creds: &Credentials,
    headers: &Vec<(String, String)>,
    body: &[u8],
) -> (h: Headers)
    requires
        0 <= secs <= LAST_SECOND,
    ensures
        h.well_formed(),
        h@ == signed_headers(
            secs as int,
            (Signing {
                method: method@,
                url: parts@,
                service: service@,
                region: region@,
                creds: creds@,
                headers: pair_texts(headers@),
                body: body@,
            }),
        ),
{
    let ghost r = Signing {
        method: method@,
        url: parts@,
        service: service@,
        region: region@,
        creds: creds@,
        headers: pair_texts(headers@),
        body: body@,
    };
    let (date, day) = dates_of(secs);
    let hash = hex_encode(sha256(body).as_slice());
    let host = match &parts.host {
        Some(host) => host.clone(),
        None => String::new(),
    };
    let mut h = collect_headers(
        host.as_str(),
        date.as_str(),
        hash.as_str(),
        creds.session_token.as_str(),
        headers,
    );
    assert(h@ == covered_headers(secs as int, r));
    let (lines, names) = header_texts(&h);

    let query = match &parts.query {
        Some(query) => canonical_query_string(query.as_str()),
        None => canonical_query_string(""),
    };
    proof {
        reveal_strlit("");
        assert(""@ == Seq::<char>::empty());
    }
    let mut request = method.to_owned();
    request.append("\n");
    request.append(
        if parts.path.as_str().is_empty() {
            "/"
        } else {
            parts.path.as_str()
        },
    );
    request.append("\n");
    request.append(query.as_str());
    request.append("\n");
    request.append(lines.as_str());
    request.append("\n");
    request.append(names.as_str());
    request.append("\n");
    request.append(hash.as_str());
    assert(request@ == canonical_request(secs as int, r));

    let mut scope = day.clone();
    scope.append("/");
    scope.append(region);
    scope.append("/");
    scope.append(service);
    scope.append("/aws4_request");

    let mut to_sign = "AWS4-HMAC-SHA256\n".to_owned();
    to_sign.append(date.as_str());
    to_sign.append("\n");
    to_sign.append(scope.as_str());
    to_sign.append("\n");
    to_sign.append(hex_encode(sha256(request.as_str().as_bytes()).as_slice()).as_str());
    assert(to_sign@ == string_to_sign(secs as int, r));

    let key = signature_key(creds.secret_access_key.as_str(), day.as_str(), region, service);
    let sign = hex_encode(hmac_sha256(key.as_slice(), to_sign.as_str().as_bytes()).as_slice());

    let mut auth = "AWS4-HMAC-SHA256 Credential=".to_owned();
    auth.append(creds.access_key_id.as_str());
    auth.append("/");
    auth.append(scope.as_str());
    auth.append(", SignedHeaders=");
    auth.append(names.as_str());
    auth.append(", Signature=");
    auth.append(sign.as_str());
    assert(auth@ == authorization(secs as int, r));
    h.insert("authorization".to_owned(), auth);
    h
}

/// Signs a request to a URL now.
pub fn sign_v4(
    method: &str,
    url: &str,
    service: &str,
    region: &str,
    creds: &Credentials,
    headers: &Vec<(String, String)>,
    body: &[u8],
) -> (h: Headers)
    requires
        url_parts(url@) is Some,
    ensures
        h.well_formed(),
        exists|secs: int|
            0 <= secs <= LAST_SECOND && h@ == #[trigger] signed_headers(
                secs,
                (Signing {
                    method: method@,
                    url: url_parts(url@)->0,
                    service: service@,
                    region: region@,
                    creds: creds@,
                    headers: pair_texts(headers@),
                    body: body@,
                }),
            ),
{
    match parse_url(url) {
        Some(parts) => sign_v4_at(utc_now(), method, &parts, service, region, creds, headers, body),
        None => Headers::new(),
    }
}

/// A header that is given keeps its value, unless one of the same name is given after it.
pub proof fn law_given_headers_win(secs: int, r: Signing, i: int)
    requires
        0 <= i < r.headers.len(),
        forall|j: int| i < j < r.headers.len() ==> lowered(r.headers[j].0) != lowered(r.headers[i].0),
    ensures
        covered_headers(secs, r).contains_key(lowered(r.headers[i].0)),
        covered_headers(secs, r)[lowered(r.headers[i].0)] == r.headers[i].1,
{
    let own = own_headers(
        or_empty(r.url.host),
        amz_date(secs),
        payload_hash(r.body),
        r.creds.session_token,
    );
    lemma_with_given(own, r.headers, i);
}

/// A header that every request carries keeps its value, unless one of its name is given; and no
/// other header is there that was not given.
pub proof fn law_own_headers_stay(secs: int, r: Signing, name: Seq<char>)
    requires
        forall|j: int| 0 <= j < r.headers.len() ==> lowered(#[trigger] r.headers[j].0) != name,
    ensures
        ({
            let own = own_headers(
                or_empty(r.url.host),
                amz_date(secs),
                payload_hash(r.body),
                r.creds.session_token,
            );
            &&& covered_headers(secs, r).contains_key(name) == own.contains_key(name)
            &&& own.contains_key(name) ==> covered_headers(secs, r)[name] == own[name]
        }),
{
    let own = own_headers(
        or_empty(r.url.host),
        amz_date(secs),
        payload_hash(r.body),
        r.creds.session_token,
    );
    lemma_without_given(own, r.headers, name);
}

/// The value of a header that is given and not given again.
proof fn lemma_with_given(
    m: Map<Seq<char>, Seq<char>>,
    given: Seq<(Seq<char>, Seq<char>)>,
    i: int,
)
    requires
        0 <= i < given.len(),
        forall|j: int| i < j < given.len() ==> lowered(given[j].0) != lowered(given[i].0),
    ensures
        with_given(m, given).contains_key(lowered(given[i].0)),
        with_given(m, given)[lowered(given[i].0)] == given[i].1,
    decreases given.len(),
{
    if i < given.len() - 1 {
        let init = given.drop_last();
        assert forall|j: int| i < j < init.len() implies lowered(init[j].0) != lowered(init[i].0) by {
            assert(given[j] == init[j]);
        }
        lemma_with_given(m, init, i);
        assert(lowered(given[given.len() - 1].0) != lowered(given[i].0));
    }
}

/// The value of a header that is not given.
proof fn lemma_without_given(
    m: Map<Seq<char>, Seq<char>>,
    given: Seq<(Seq<char>, Seq<char>)>,
    name: Seq<char>,
)
    requires
        forall|j: int| 0 <= j < given.len() ==> lowered(#[trigger] given[j].0) != name,
    ensures
        with_given(m, given).contains_key(name) == m.contains_key(name),
        m.contains_key(name) ==> with_given(m, given)[name] == m[name],
    decreases given.len(),
{
    if given.len() > 0 {
        let init = given.drop_last();
        assert forall|j: int| 0 <= j < init.len() implies lowered(#[trigger] init[j].0) != name by {
            assert(given[j] == init[j]);
        }
        lemma_without_given(m, init, name);
        assert(lowered(given[given.len() - 1].0) != name);
    }
}

/// Headers that were given to a finite map leave it finite.
proof fn lemma_given_finite(m: Map<Seq<char>, Seq<char>>, given: Seq<(Seq<char>, Seq<char>)>)
    requires
        m.dom().finite(),
    ensures
        with_given(m, given).dom().finite(),
    decreases given.len(),
{
    if given.len() > 0 {
        lemma_given_finite(m, given.drop_last());
    }
}

/// The signature covers every header of the request but the one that carries it: the names that
/// it lists are in ascending order and are those of all the other headers. It covers the host,
/// the time and the digest of the body in any case.
pub proof fn law_every_header_is_covered(secs: int, r: Signing)
    ensures
        ascending(sorted_names(covered_headers(secs, r))),
        sorted_names(covered_headers(secs, r)).to_set() == covered_headers(secs, r).dom(),
        signed_headers(secs, r).dom() == covered_headers(secs, r).dom().insert("authorization"@),
        covered_headers(secs, r).contains_key("host"@),
        covered_headers(secs, r).contains_key("x-amz-date"@),
        covered_headers(secs, r).contains_key("x-amz-content-sha256"@),
        r.creds.session_token.len() > 0 ==> covered_headers(secs, r).contains_key(
            "x-amz-security-token"@,
        ),
{
    let own = own_headers(
        or_empty(r.url.host),
        amz_date(secs),
        payload_hash(r.body),
        r.creds.session_token,
    );
    lemma_given_finite(own, r.headers);
    lemma_sorted_names(covered_headers(secs, r));
    lemma_given_keeps(own, r.headers, "host"@);
    lemma_given_keeps(own, r.headers, "x-amz-date"@);
    lemma_given_keeps(own, r.headers, "x-amz-content-sha256"@);
    if r.creds.session_token.len() > 0 {
        lemma_given_keeps(own, r.headers, "x-amz-security-token"@);
    }
}

/// Giving headers takes none away.
proof fn lemma_given_keeps(
    m: Map<Seq<char>, Seq<char>>,
    given: Seq<(Seq<char>, Seq<char>)>,
    name: Seq<char>,
)
    requires
        m.contains_key(name),
    ensures
        with_given(m, given).contains_key(name),
    decreases given.len(),
{
    if given.len() > 0 {
        lemma_given_keeps(m, given.drop_last(), name);
    }
}

/// The first two lines of the canonical request are the method and the path of the URL; an empty
/// path is written as a slash, so that the second line is never empty.
pub proof fn law_path_stands_on_the_second_line(secs: int, r: Signing)
    ensures
        r.url.path.len() > 0 ==> (r.method + "\n"@ + r.url.path + "\n"@).is_prefix_of(
            canonical_request(secs, r),
        ),
        r.url.path.len() == 0 ==> (r.method + "\n"@ + "/"@ + "\n"@).is_prefix_of(
            canonical_request(secs, r),
        ),
        r.url.path == "/"@ ==> (r.method + "\n"@ + "/"@ + "\n"@).is_prefix_of(
            canonical_request(secs, r),
        ),
{
    reveal_strlit("/");
    let path = if r.url.path.len() > 0 {
        r.url.path
    } else {
        "/"@
    };
    let m = covered_headers(secs, r);
    let begin = r.method + "\n"@ + path + "\n"@;
    let query = canonical_query(or_empty(r.url.query));
    let lines = header_lines(sorted_names(m), m);
    let rest = query + "\n"@ + lines + "\n"@ + covered_names(secs, r) + "\n"@ + payload_hash(
        r.body,
    );
    assert(canonical_request(secs, r) == begin + rest);
    assert(begin.is_prefix_of(begin + rest));
}

/// The path of a URL is signed as it is, and an empty one as a slash.
pub proof fn law_path_is_signed_as_it_is(path: Seq<char>)
    ensures
        canonical_uri(path).len() > 0,
        path.len() > 0 ==> canonical_uri(path) == path,
        path.len() == 0 ==> canonical_uri(path) == seq!['/'],
{
    reveal_strlit("/");
    assert("/"@ == seq!['/']);
}

/// The canonical request is the method, the path, the canonical query, the lines of the headers
/// that are covered, their names between semicolons and the digest of the body in hexadecimal
/// digits, with line feeds between them.
pub proof fn law_canonical_request_has_six_parts(
    secs: int,
    r: Signing,
    path: Seq<char>,
    query: Seq<char>,
    names: Seq<Seq<char>>,
)
    requires
        path == r.url.path && path.len() > 0 || path == seq!['/'] && r.url.path.len() == 0,
        r.url.query == Some(query) || r.url.query is None && query.len() == 0,
        ascending(names),
        names.to_set() == covered_headers(secs, r).dom(),
    ensures
        canonical_request(secs, r) == joined(
            seq![
                r.method,
                path,
                canonical_query(query),
                header_lines(names, covered_headers(secs, r)),
                joined(names, seq![';']),
                hex_text(sha256_digest(r.body)),
            ],
            seq!['\n'],
        ),
{
    reveal_strlit("/");
    reveal_strlit("\n");
    reveal_strlit(";");
    assert("/"@ == seq!['/']);
    assert("\n"@ == seq!['\n']);
    assert(";"@ == seq![';']);
    law_every_header_is_covered(secs, r);
    lemma_ascending_unique(names, sorted_names(covered_headers(secs, r)));
    let lines = header_lines(names, covered_headers(secs, r));
    let hash = hex_text(sha256_digest(r.body));
    let q = canonical_query(query);
    assert(query.len() == 0 ==> query == Seq::<char>::empty());
    let covered = joined(names, seq![';']);
    let sep = seq!['\n'];
    let all = seq![r.method, path, q, lines, covered, hash];
    assert(all.drop_last() == seq![r.method, path, q, lines, covered]);
    assert(all.drop_last().drop_last() == seq![r.method, path, q, lines]);
    assert(seq![r.method, path, q, lines].drop_last() == seq![r.method, path, q]);
    assert(seq![r.method, path, q].drop_last() == seq![r.method, path]);
    assert(seq![r.method, path].drop_last() == seq![r.method]);
    assert(joined(seq![r.method], sep) == r.method);
    assert(joined(seq![r.method, path], sep) == r.method + sep + path);
    assert(joined(seq![r.method, path, q], sep) == r.method + sep + path + sep + q);
    assert(joined(seq![r.method, path, q, lines], sep) == r.method + sep + path + sep + q + sep
        + lines);
    assert(joined(all.drop_last(), sep) == r.method + sep + path + sep + q + sep + lines + sep
        + covered);
}

/// The lines of the headers follow each other in the order of their names: each is the name, a
/// colon, the words of the value with single spaces between them, and a line feed.
pub proof fn law_headers_stand_line_by_line(
    names: Seq<Seq<char>>,
    name: Seq<char>,
    m: Map<Seq<char>, Seq<char>>,
)
    ensures
        header_lines(Seq::empty(), m).len() == 0,
        header_lines(names.push(name), m) == header_lines(names, m) + name + seq![':'] + joined(
            words_of(m[name]),
            seq![' '],
        ) + seq!['\n'],
{
    reveal_strlit(" ");
    assert(" "@ == seq![' ']);
    assert(names.push(name).drop_last() == names);
}

/// White space around a value does not matter, and white space within it counts as one space.
pub proof fn law_values_are_normalized(a: Seq<char>, c: char, b: Seq<char>)
    requires
        is_white(c),
    ensures
        normalized(a.push(c) + b) == joined(words_of(a) + words_of(b), seq![' ']),
        words_of(a).len() > 0 && words_of(b).len() > 0 ==> normalized(a.push(c) + b) == normalized(a)
            + seq![' '] + normalized(b),
        words_of(b).len() == 0 ==> normalized(a.push(c) + b) == normalized(a),
        words_of(a).len() == 0 ==> normalized(a.push(c) + b) == normalized(b),
        (forall|i: int| 0 <= i < a.len() ==> !is_white(#[trigger] a[i])) ==> normalized(a) == a,
{
    reveal_strlit(" ");
    assert(" "@ == seq![' ']);
    law_words_are_parted_by_white_space(a, c, b);
    law_joined_lists_are_joined(words_of(a), words_of(b), seq![' ']);
    if words_of(b).len() == 0 {
        assert(words_of(a) + words_of(b) == words_of(a));
    }
    if words_of(a).len() == 0 {
        assert(words_of(a) + words_of(b) == words_of(b));
    }
    if a.len() == 0 {
        assert(normalized(a) == a);
    }
}

/// A query is written in the order of its names, and of its values where names are the same, and
/// it has every pair of the query as often as it stands there.
pub proof fn law_query_is_sorted(raw: Seq<char>)
    ensures
        raw.len() == 0 ==> canonical_query(raw).len() == 0,
        raw.len() > 0 ==> exists|sorted: Seq<(Seq<char>, Seq<char>)>|
            {
                &&& #[trigger] sorted.to_multiset() == form_pairs(encode_utf8(raw)).map_values(
                    |p: (Seq<char>, Seq<char>)| (query_text(p.0), query_text(p.1)),
                ).to_multiset()
                &&& forall|i: int, j: int|
                    0 <= i < j < sorted.len() ==> {
                        ||| before((#[trigger] sorted[i]).0, (#[trigger] sorted[j]).0)
                        ||| sorted[i].0 == sorted[j].0 && before(sorted[i].1, sorted[j].1)
                        ||| sorted[i] == sorted[j]
                    }
                &&& canonical_query(raw) == joined(
                    sorted.map_values(|p: (Seq<char>, Seq<char>)| p.0 + seq!['='] + p.1),
                    seq!['&'],
                )
            },
{
    if raw.len() > 0 {
        reveal_strlit("&");
        assert("&"@ == seq!['&']);
        let leq = |p: (Seq<char>, Seq<char>), q: (Seq<char>, Seq<char>)| pair_leq(p, q);
        let pairs = encoded_pairs(raw);
        lemma_pair_order();
        pairs.lemma_sort_by_ensures(leq);
        let sorted = sorted_pairs(pairs);
        assert forall|i: int, j: int| 0 <= i < j < sorted.len() implies {
            ||| before((#[trigger] sorted[i]).0, (#[trigger] sorted[j]).0)
            ||| sorted[i].0 == sorted[j].0 && before(sorted[i].1, sorted[j].1)
            ||| sorted[i] == sorted[j]
        } by {
            assert(leq(sorted[i], sorted[j]));
        }
        assert(canonical_query(raw) == joined(
            sorted.map_values(|p: (Seq<char>, Seq<char>)| p.0 + seq!['='] + p.1),
            seq!['&'],
        ));
    }
}

/// A text is written for a query byte by byte: letters, digits and `-._~` stay, and every other
/// byte becomes a percent sign and the two hexadecimal digits of its value.
pub proof fn law_query_is_written_byte_by_byte(a: Seq<u8>, b: u8)
    ensures
        query_bytes(Seq::empty()).len() == 0,
        query_bytes(a.push(b)).take(query_bytes(a).len() as int) == query_bytes(a),
        ({
            let kept = 48 <= b <= 57 || 65 <= b <= 90 || 97 <= b <= 122 || b == 45 || b == 46 || b
                == 95 || b == 126;
            let more = query_bytes(a.push(b)).skip(query_bytes(a).len() as int);
            &&& kept ==> more.len() == 1 && more[0] as u32 == b
            &&& !kept ==> {
                &&& more.len() == 3
                &&& more[0] == '%'
                &&& more[1] == "0123456789ABCDEF"@[b as int / 16]
                &&& more[2] == "0123456789ABCDEF"@[b as int % 16]
            }
        }),
{
    reveal_strlit("0123456789ABCDEF");
    assert(a.push(b).drop_last() == a);
    let all = query_bytes(a.push(b));
    assert(all == query_bytes(a) + query_byte(b));
    assert(all.take(query_bytes(a).len() as int) == query_bytes(a));
    assert(all.skip(query_bytes(a).len() as int) == query_byte(b));
}

/// Every request carries the host of its URL, the name of the program, the time, the digest of its
/// body in hexadecimal digits and, where there is one, the token of the session, unless a header
/// of that name is given.
pub proof fn law_requests_carry_their_own_headers(secs: int, r: Signing, name: Seq<char>)
    requires
        forall|j: int| 0 <= j < r.headers.len() ==> lowered(#[trigger] r.headers[j].0) != name,
    ensures
        ({
            let m = covered_headers(secs, r);
            &&& m.contains_key(name) <==> {
                ||| name == "host"@
                ||| name == "user-agent"@
                ||| name == "x-amz-date"@
                ||| name == "x-amz-content-sha256"@
                ||| name == "x-amz-security-token"@ && r.creds.session_token.len() > 0
            }
            &&& name == "host"@ ==> match r.url.host {
                Some(host) => m[name] == host,
                None => m[name].len() == 0,
            }
            &&& name == "user-agent"@ ==> m[name] == "ami-s3-archive"@
            &&& name == "x-amz-date"@ ==> m[name] == utc_text(secs, "%Y%m%dT%H%M%SZ"@)
            &&& name == "x-amz-content-sha256"@ ==> m[name] == hex_text(sha256_digest(r.body))
            &&& name == "x-amz-security-token"@ && r.creds.session_token.len() > 0 ==> m[name]
                == r.creds.session_token
        }),
{
    law_own_headers_stay(secs, r, name);
    reveal_strlit("host");
    reveal_strlit("user-agent");
    reveal_strlit("x-amz-date");
    reveal_strlit("x-amz-content-sha256");
    reveal_strlit("x-amz-security-token");
    assert("user-agent"@[0] != "x-amz-date"@[0]);
    assert("x-amz-content-sha256"@[6] != "x-amz-security-token"@[6]);
    assert("host"@.len() == 4);
    assert("x-amz-date"@.len() == 10);
    assert("x-amz-security-token"@.len() == 20);
    assert("x-amz-content-sha256"@.len() == 20);
    assert("user-agent"@.len() == 10);
    assert(USER_AGENT@ == "ami-s3-archive"@);
}

/// The signature is the code, in hexadecimal digits, of four lines under a key that is made of the
/// secret, the day, the region and the service: the name of the algorithm, the time, the scope and
/// the digest of the canonical request.
pub proof fn law_signature_is_made_of_the_request(secs: int, r: Signing)
    ensures
        ({
            let time = utc_text(secs, "%Y%m%dT%H%M%SZ"@);
            let day = utc_text(secs, "%Y%m%d"@);
            let scope = day + "/"@ + r.region + "/"@ + r.service + "/aws4_request"@;
            let names = joined(sorted_names(covered_headers(secs, r)), ";"@);
            let digest = hex_text(sha256_digest(encode_utf8(canonical_request(secs, r))));
            let text = "AWS4-HMAC-SHA256\n"@ + time + "\n"@ + scope + "\n"@ + digest;
            let secret = encode_utf8("AWS4"@ + r.creds.secret_access_key);
            let key = hmac_sha256_code(
                hmac_sha256_code(
                    hmac_sha256_code(
                        hmac_sha256_code(secret, encode_utf8(day)),
                        encode_utf8(r.region),
                    ),
                    encode_utf8(r.service),
                ),
                encode_utf8("aws4_request"@),
            );
            &&& signed_headers(secs, r).contains_key("authorization"@)
            &&& signed_headers(secs, r)["authorization"@] == "AWS4-HMAC-SHA256 Credential="@
                + r.creds.access_key_id + "/"@ + scope + ", SignedHeaders="@ + names
                + ", Signature="@ + hex_text(hmac_sha256_code(key, encode_utf8(text)))
        }),
        forall|name: Seq<char>|
            name != "authorization"@ && #[trigger] covered_headers(secs, r).contains_key(name)
                ==> signed_headers(secs, r)[name] == covered_headers(secs, r)[name],
{
}

/// Bytes are written as two hexadecimal digits each.
pub proof fn law_digests_are_written_in_digits(bytes: Seq<u8>, i: int)
    requires
        0 <= i < bytes.len(),
    ensures
        hex_text(bytes).len() == 2 * bytes.len(),
        hex_text(bytes)[2 * i] == "0123456789abcdef"@[bytes[i] as int / 16],
        hex_text(bytes)[2 * i + 1] == "0123456789abcdef"@[bytes[i] as int % 16],
{
    reveal_strlit("0123456789abcdef");
}

/// A text is written for a query piece by piece: each letter, digit and sign `-._~` as it is, and
/// each other ASCII character as a percent sign and two hexadecimal digits.
pub proof fn law_query_is_written_piece_by_piece(a: Seq<char>, b: Seq<char>, c: char)
    requires
        c as u32 <= 127,
    ensures
        query_text(Seq::empty()).len() == 0,
        query_text(a + b) == query_text(a) + query_text(b),
        ({
            let kept = 'a' <= c <= 'z' || 'A' <= c <= 'Z' || '0' <= c <= '9' || c == '-' || c == '.'
                || c == '_' || c == '~';
            &&& kept ==> query_text(seq![c]) == seq![c]
            &&& !kept ==> query_text(seq![c]) == seq![
                '%',
                "0123456789ABCDEF"@[c as int / 16],
                "0123456789ABCDEF"@[c as int % 16],
            ]
        }),
{
    reveal_strlit("0123456789ABCDEF");
    lemma_encoding_of_two(a, b);
    lemma_query_bytes_of_two(encode_utf8(a), encode_utf8(b));
    vstd::utf8::is_ascii_chars_encode_utf8(seq![c]);
    let bytes = encode_utf8(seq![c]);
    assert(bytes == seq![c as u8]);
    assert(bytes.drop_last() == Seq::<u8>::empty());
    assert(query_bytes(bytes.drop_last()) == Seq::<char>::empty());
    assert(query_bytes(bytes) == query_bytes(bytes.drop_last()) + query_byte(c as u8));
    assert(query_text(seq![c]) == query_byte(c as u8));
}

/// The bytes of two texts are written one after the other.
proof fn lemma_query_bytes_of_two(a: Seq<u8>, b: Seq<u8>)
    ensures
        query_bytes(a + b) == query_bytes(a) + query_bytes(b),
    decreases b.len(),
{
    if b.len() == 0 {
        assert(a + b == a);
        assert(query_bytes(a) + query_bytes(b) == query_bytes(a));
    } else {
        assert((a + b).drop_last() == a + b.drop_last());
        lemma_query_bytes_of_two(a, b.drop_last());
        assert(query_bytes(a) + query_bytes(b.drop_last()) + query_byte(b.last()) == query_bytes(a)
            + (query_bytes(b.drop_last()) + query_byte(b.last())));
    }
}

/// The names of the covered headers are listed from the least to the greatest, none of them twice,
/// and each covered header is among them.
pub proof fn law_names_are_listed_from_the_least(
    secs: int,
    r: Signing,
    i: int,
    j: int,
    name: Seq<char>,
)
    ensures
        ({
            let m = covered_headers(secs, r);
            let names = sorted_names(m);
            &&& 0 <= i < j < names.len() ==> before(names[i], names[j])
            &&& names.contains(name) <==> m.contains_key(name)
            &&& covered_names(secs, r) == joined(names, seq![';'])
        }),
{
    reveal_strlit(";");
    assert(";"@ == seq![';']);
    law_every_header_is_covered(secs, r);
    let names = sorted_names(covered_headers(secs, r));
    assert(names.contains(name) <==> names.to_set().contains(name));
}

}
