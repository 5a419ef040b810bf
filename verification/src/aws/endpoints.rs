//! Where the services answer, and how keys and parameters are written into a request.
use crate::error::lemma_encoding_of_two;
use crate::outside::{
    append_pair, byte_serialize, form_byte, form_bytes, form_text, upper_hex_digit, with_form_pair,
};
use crate::text::{replace, replaced};
use vstd::prelude::*;
use vstd::string::*;
use vstd::utf8::encode_utf8;

verus! {

/// Where EC2 answers in a region.
pub fn ec2_endpoint(region: &str) -> (r: String)
    ensures
        r@ == "https://ec2."@ + region@ + ".amazonaws.com"@,
{
    let mut out = "https://ec2.".to_owned();
    out.append(region);
    out.append(".amazonaws.com");
    out
}

/// Where STS answers in a region.
pub fn sts_endpoint(region: &str) -> (r: String)
    ensures
        r@ == "https://sts."@ + region@ + ".amazonaws.com"@,
{
    let mut out = "https://sts.".to_owned();
    out.append(region);
    out.append(".amazonaws.com");
    out
}

/// The address of a bucket.
pub open spec fn bucket_address(bucket: Seq<char>, region: Seq<char>) -> Seq<char> {
    "https://"@ + bucket + ".s3."@ + region + ".amazonaws.com"@
}

/// Where S3 answers for a bucket in a region.
pub fn s3_endpoint(bucket: &str, region: &str) -> (r: String)
    ensures
        r@ == bucket_address(bucket@, region@),
{
    let mut out = "https://".to_owned();
    out.append(bucket);
    out.append(".s3.");
    out.append(region);
    out.append(".amazonaws.com");
    out
}

/// The key of an object as a URL path writes it: form-encoded, but for the slashes.
pub open spec fn escaped_key(key: Seq<char>) -> Seq<char> {
    replaced(form_text(key), "%2F"@, "/"@)
}

/// Writes the key of an object for a URL path.
pub fn escape_s3_key(key: &str) -> (r: String)
    ensures
        r@ == escaped_key(key@),
{
    proof {
        reveal_strlit("%2F");
    }
    replace(byte_serialize(key.as_bytes()).as_str(), "%2F", "/")
}

/// The form encoding of a list of pairs.
pub open spec fn form_of(pairs: Seq<(Seq<char>, Seq<char>)>) -> Seq<char>
    decreases pairs.len(),
{
    if pairs.len() == 0 {
        Seq::empty()
    } else {
        with_form_pair(form_of(pairs.drop_last()), pairs.last().0, pairs.last().1)
    }
}

/// The texts of a list of pairs of string slices.
pub open spec fn slice_pairs(pairs: Seq<(&str, &str)>) -> Seq<(Seq<char>, Seq<char>)> {
    pairs.map_values(|p: (&str, &str)| (p.0@, p.1@))
}

/// Encodes a list of pairs as a form.
pub fn form_body(pairs: &[(&str, &str)]) -> (r: String)
    ensures
        r@ == form_of(slice_pairs(pairs@)),
{
    let mut out = String::new();
    let ghost all = slice_pairs(pairs@);
    let n = pairs.len();
    for i in 0..n
        invariant
            n == pairs@.len(),
            all == slice_pairs(pairs@),
            out@ == form_of(all.take(i as int)),
    {
        let (name, value) = pairs[i];
        out = append_pair(out, name, value);
        assert(all.take(i + 1).drop_last() == all.take(i as int));
    }
    assert(all.take(n as int) == all);
    out
}


/// One byte of a key as a URL path writes it.
pub open spec fn key_byte(b: u8) -> Seq<char> {
    if b == '/' as u8 {
        seq!['/']
    } else {
        form_byte(b)
    }
}

/// Some bytes of a key as a URL path writes them.
pub open spec fn key_bytes(bytes: Seq<u8>) -> Seq<char>
    decreases bytes.len(),
{
    if bytes.len() == 0 {
        Seq::empty()
    } else {
        key_byte(bytes[0]) + key_bytes(bytes.drop_first())
    }
}

/// Putting the slashes back passes over the encoding of every other byte.
proof fn lemma_slashes_pass(t: Seq<char>, k: int, rest: Seq<char>)
    requires
        t.len() == 3 && t[0] == '%' && t[1] != '%' && t[2] != '%' || t.len() == 1 && t[0] != '%',
        t != seq!['%', '2', 'F'],
        0 <= k <= t.len(),
    ensures
        replaced(t.skip(k) + rest, seq!['%', '2', 'F'], seq!['/']) == t.skip(k) + replaced(
            rest,
            seq!['%', '2', 'F'],
            seq!['/'],
        ),
    decreases t.len() - k,
{
    let pat = seq!['%', '2', 'F'];
    let with = seq!['/'];
    let s = t.skip(k) + rest;
    if k == t.len() {
        assert(s == rest);
        assert(t.skip(k) + replaced(rest, pat, with) == replaced(rest, pat, with));
    } else if s.len() < pat.len() {
    } else {
        if pat.is_prefix_of(s) {
            assert forall|i: int| 0 <= i < 3 implies s[i] == pat[i] by {
                assert(s.subrange(0, 3)[i] == pat[i]);
            }
            assert(s[0] == t[k]);
            assert(k == 0 && t.len() == 3);
            assert(t.skip(0) == t);
            assert(s[1] == t[1] && s[2] == t[2]);
            assert(t == pat);
        }
        assert(s.drop_first() == t.skip(k + 1) + rest);
        lemma_slashes_pass(t, k + 1, rest);
        assert(seq![s[0]] + (t.skip(k + 1) + replaced(rest, pat, with)) == t.skip(k) + replaced(
            rest,
            pat,
            with,
        ));
    }
}

proof fn lemma_slashes_back(bytes: Seq<u8>)
    ensures
        replaced(form_bytes(bytes), seq!['%', '2', 'F'], seq!['/']) == key_bytes(bytes),
    decreases bytes.len(),
{
    let pat = seq!['%', '2', 'F'];
    let with = seq!['/'];
    if bytes.len() > 0 {
        let b = bytes[0];
        let t = form_byte(b);
        let rest = form_bytes(bytes.drop_first());
        lemma_slashes_back(bytes.drop_first());
        if b == '/' as u8 {
            assert(t == pat);
            assert(pat.is_prefix_of(t + rest));
            assert((t + rest).skip(3) == rest);
        } else {
            if t == pat {
                assert(t[1] == upper_hex_digit(b as int / 16));
                assert(t[2] == upper_hex_digit(b as int % 16));
            }
            assert(t.skip(0) == t);
            lemma_slashes_pass(t, 0, rest);
        }
    }
}

/// The key of an object is written byte by byte: slashes and unreserved characters stay, a space
/// becomes a plus sign, and everything else is percent-encoded.
pub proof fn law_key_is_escaped_bytewise(key: Seq<char>)
    ensures
        escaped_key(key) == key_bytes(encode_utf8(key)),
{
    reveal_strlit("%2F");
    reveal_strlit("/");
    assert("%2F"@ == seq!['%', '2', 'F']);
    assert("/"@ == seq!['/']);
    lemma_slashes_back(encode_utf8(key));
}

/// A form is written pair by pair: name, equals sign and value, with ampersands between the pairs.
pub proof fn law_forms_are_written_pair_by_pair(
    pairs: Seq<(Seq<char>, Seq<char>)>,
    p: (Seq<char>, Seq<char>),
)
    ensures
        form_of(Seq::empty()).len() == 0,
        pairs.len() == 0 ==> form_of(pairs.push(p)) == form_text(p.0) + seq!['='] + form_text(p.1),
        pairs.len() > 0 ==> form_of(pairs.push(p)) == form_of(pairs) + seq!['&'] + form_text(p.0)
            + seq!['='] + form_text(p.1),
{
    assert(pairs.push(p).drop_last() == pairs);
    if pairs.len() == 0 {
        assert(form_of(pairs) + form_text(p.0) == form_text(p.0));
    } else {
        let init = form_of(pairs.drop_last());
        assert(form_of(pairs).len() > 0);
        assert(form_of(pairs).push('&') == form_of(pairs) + seq!['&']);
    }
}

/// A key is written character by character, and a slash stays a slash.
pub proof fn law_keys_are_written_piece_by_piece(a: Seq<char>, b: Seq<char>)
    ensures
        escaped_key(a + b) == escaped_key(a) + escaped_key(b),
        escaped_key(a + seq!['/'] + b) == escaped_key(a) + seq!['/'] + escaped_key(b),
{
    lemma_key_pieces(a, b);
    lemma_key_pieces(a, seq!['/']);
    lemma_key_pieces(a + seq!['/'], b);
    law_plain_keys_are_written_as_they_are(seq!['/']);
}

proof fn lemma_key_pieces(a: Seq<char>, b: Seq<char>)
    ensures
        escaped_key(a + b) == escaped_key(a) + escaped_key(b),
{
    law_key_is_escaped_bytewise(a);
    law_key_is_escaped_bytewise(b);
    law_key_is_escaped_bytewise(a + b);
    lemma_encoding_of_two(a, b);
    lemma_key_bytes_joined(encode_utf8(a), encode_utf8(b));
}

proof fn lemma_key_bytes_joined(a: Seq<u8>, b: Seq<u8>)
    ensures
        key_bytes(a + b) == key_bytes(a) + key_bytes(b),
    decreases a.len(),
{
    if a.len() == 0 {
        assert(a + b == b);
        assert(key_bytes(a) + key_bytes(b) == key_bytes(b));
    } else {
        assert((a + b).drop_first() == a.drop_first() + b);
        lemma_key_bytes_joined(a.drop_first(), b);
        assert(key_byte(a[0]) + (key_bytes(a.drop_first()) + key_bytes(b)) == key_byte(a[0])
            + key_bytes(a.drop_first()) + key_bytes(b));
    }
}

/// A character of a key that is written as it is.
pub open spec fn is_key_char(c: char) -> bool {
    ||| 'a' <= c <= 'z' || 'A' <= c <= 'Z' || '0' <= c <= '9'
    ||| c == '/' || c == '-' || c == '.' || c == '_' || c == '*'
}

/// A key of letters, digits, slashes and the signs `-._*` is written as it is.
pub proof fn law_plain_keys_are_written_as_they_are(key: Seq<char>)
    requires
        forall|i: int| 0 <= i < key.len() ==> is_key_char(#[trigger] key[i]),
    ensures
        escaped_key(key) == key,
{
    law_key_is_escaped_bytewise(key);
    vstd::utf8::is_ascii_chars_encode_utf8(key);
    lemma_plain_key_bytes(key, encode_utf8(key));
}

proof fn lemma_plain_key_bytes(key: Seq<char>, bytes: Seq<u8>)
    requires
        bytes.len() == key.len(),
        forall|i: int| 0 <= i < key.len() ==> is_key_char(#[trigger] key[i]),
        forall|i: int| 0 <= i < key.len() ==> #[trigger] bytes[i] == key[i] as u8,
    ensures
        key_bytes(bytes) == key,
    decreases key.len(),
{
    if key.len() > 0 {
        let rest = key.drop_first();
        let b = bytes.drop_first();
        assert forall|i: int| 0 <= i < rest.len() implies #[trigger] b[i] == rest[i] as u8 by {
            assert(bytes[i + 1] == key[i + 1] as u8);
        }
        lemma_plain_key_bytes(rest, b);
        let c = key[0];
        assert(is_key_char(c));
        assert(bytes[0] == c as u8);
        assert(key_byte(bytes[0]) == seq![c]);
        assert(seq![c] + rest == key);
    } else {
        assert(key_bytes(bytes) == key);
    }
}

/// Every byte of a key that is not written as it is, but for a space, is written as a percent
/// sign and the two hexadecimal digits of its value; a space is a plus sign.
pub proof fn law_other_bytes_are_percent_encoded(b: u8)
    ensures
        b == 32 ==> key_byte(b) == seq!['+'],
        b == 47 ==> key_byte(b) == seq!['/'],
        ({
            let kept = 48 <= b <= 57 || 65 <= b <= 90 || 97 <= b <= 122 || b == 42 || b == 45 || b
                == 46 || b == 95;
            &&& kept ==> key_byte(b).len() == 1 && key_byte(b)[0] as u32 == b
            &&& !kept && b != 32 && b != 47 ==> {
                &&& key_byte(b).len() == 3
                &&& key_byte(b)[0] == '%'
                &&& key_byte(b)[1] == "0123456789ABCDEF"@[b as int / 16]
                &&& key_byte(b)[2] == "0123456789ABCDEF"@[b as int % 16]
            }
        }),
{
    reveal_strlit("0123456789ABCDEF");
}

}
