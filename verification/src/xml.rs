//! The small part of XML that EC2, S3 and STS replies are read with, and requests written in.
use crate::text::{
    find, find_from, is_white, lemma_find, lemma_find_after, lemma_find_behind,
    lemma_replaced_absent, occurs_at, opt_text, pair_texts, replace, replaced, slices, strip_end,
    strip_start, texts, to_chars, trim_part, trimmed,
};
use crate::types::{StoreImageTask, StoreImageTaskView};
use vstd::prelude::*;
use vstd::string::*;

verus! {

/// The entity that stands for `c` in XML text, or `c` itself.
pub open spec fn entity(c: char) -> Seq<char> {
    if c == '&' {
        "&amp;"@
    } else if c == '<' {
        "&lt;"@
    } else if c == '>' {
        "&gt;"@
    } else if c == '"' {
        "&quot;"@
    } else if c == '\'' {
        "&apos;"@
    } else {
        seq![c]
    }
}

/// `s` with every markup character written as its entity.
pub open spec fn escaped(s: Seq<char>) -> Seq<char>
    decreases s.len(),
{
    if s.len() == 0 {
        Seq::empty()
    } else {
        entity(s[0]) + escaped(s.drop_first())
    }
}

/// Writes every markup character of `s` as its entity.
pub fn xml_escape(s: &str) -> (r: String)
    ensures
        r@ == escaped(s@),
{
    let v = to_chars(s);
    let mut out = String::new();
    assert(v@.skip(0) == v@);
    assert(out@ + escaped(v@) == escaped(v@));
    for i in 0..v.len()
        invariant
            out@ + escaped(v@.skip(i as int)) == escaped(v@),
    {
        let c = v[i];
        let ghost done = out@;
        if c == '&' {
            out.append("&amp;");
        } else if c == '<' {
            out.append("&lt;");
        } else if c == '>' {
            out.append("&gt;");
        } else if c == '"' {
            out.append("&quot;");
        } else if c == '\'' {
            out.append("&apos;");
        } else {
            out.push(c);
        }
        assert(out@ == done + entity(c));
        assert(v@.skip(i as int).drop_first() == v@.skip(i + 1));
        assert(done + (entity(c) + escaped(v@.skip(i + 1))) == out@ + escaped(v@.skip(i + 1)));
    }
    assert(v@.skip(v@.len() as int).len() == 0);
    assert(out@ + Seq::<char>::empty() == out@);
    out
}

/// `s` with the entities of the markup characters replaced by the characters, one entity after
/// the other and the ampersand's last.
pub open spec fn unescaped(s: Seq<char>) -> Seq<char> {
    let a = replaced(s, "&lt;"@, "<"@);
    let b = replaced(a, "&gt;"@, ">"@);
    let c = replaced(b, "&quot;"@, "\""@);
    let d = replaced(c, "&apos;"@, "'"@);
    replaced(d, "&amp;"@, "&"@)
}

/// Reads the entities of the markup characters in `s`.
pub fn xml_unescape(s: &str) -> (r: String)
    ensures
        r@ == unescaped(s@),
{
    proof {
        reveal_strlit("&lt;");
        reveal_strlit("&gt;");
        reveal_strlit("&quot;");
        reveal_strlit("&apos;");
        reveal_strlit("&amp;");
    }
    let a = replace(s, "&lt;", "<");
    let b = replace(a.as_str(), "&gt;", ">");
    let c = replace(b.as_str(), "&quot;", "\"");
    let d = replace(c.as_str(), "&apos;", "'");
    replace(d.as_str(), "&amp;", "&")
}

/// The text that begins the element `tag`.
pub open spec fn opening(tag: Seq<char>) -> Seq<char> {
    seq!['<'] + tag + seq!['>']
}

/// The text that ends the element `tag`.
pub open spec fn closing(tag: Seq<char>) -> Seq<char> {
    seq!['<', '/'] + tag + seq!['>']
}

/// The characters that begin the element `tag`.
fn opening_of(tag: &str) -> (r: Vec<char>)
    ensures
        r@ == opening(tag@),
{
    let mut s = String::new();
    s.push('<');
    s.append(tag);
    s.push('>');
    assert(s@ == opening(tag@));
    to_chars(s.as_str())
}

/// The characters that end the element `tag`.
fn closing_of(tag: &str) -> (r: Vec<char>)
    ensures
        r@ == closing(tag@),
{
    let mut s = String::new();
    s.push('<');
    s.push('/');
    s.append(tag);
    s.push('>');
    assert(s@ == closing(tag@));
    to_chars(s.as_str())
}

/// The text of the first element `tag` in `body`, together with what follows the element.
pub open spec fn first_element(body: Seq<char>, tag: Seq<char>) -> Option<(Seq<char>, Seq<char>)> {
    match find(body, opening(tag)) {
        Some(i) => {
            let inner = body.skip(i + opening(tag).len());
            match find(inner, closing(tag)) {
                Some(j) => Some(
                    (unescaped(trimmed(inner.take(j))), inner.skip(j + closing(tag).len())),
                ),
                None => None,
            }
        },
        None => None,
    }
}

/// What follows an element is shorter than the text that holds it.
proof fn lemma_first_element(body: Seq<char>, tag: Seq<char>)
    ensures
        first_element(body, tag) matches Some(e) ==> e.1.len() < body.len(),
{
    lemma_find(body, opening(tag));
    if let Some(i) = find(body, opening(tag)) {
        lemma_find(body.skip(i + opening(tag).len()), closing(tag));
    }
}

/// The text of the first element `tag` in `body`.
pub open spec fn tag_one(body: Seq<char>, tag: Seq<char>) -> Option<Seq<char>> {
    match first_element(body, tag) {
        Some(e) => Some(e.0),
        None => None,
    }
}

/// The texts of the elements `tag` in `body`, in order.
pub open spec fn tags_all(body: Seq<char>, tag: Seq<char>) -> Seq<Seq<char>>
    decreases body.len(),
    via tags_all_decreases
{
    match first_element(body, tag) {
        Some(e) => seq![e.0] + tags_all(e.1, tag),
        None => Seq::empty(),
    }
}

#[via_fn]
proof fn tags_all_decreases(body: Seq<char>, tag: Seq<char>) {
    lemma_first_element(body, tag);
}

/// The text of the first of `tags` that `body` has as an element.
pub open spec fn tag_first(body: Seq<char>, tags: Seq<Seq<char>>) -> Option<Seq<char>>
    decreases tags.len(),
{
    if tags.len() == 0 {
        None
    } else if tag_one(body, tags[0]) is Some {
        tag_one(body, tags[0])
    } else {
        tag_first(body, tags.drop_first())
    }
}

/// Where the text of the first element `tag` at or after `offset` begins and ends.
fn element_bounds(v: &Vec<char>, open: &Vec<char>, close: &Vec<char>, offset: usize) -> (r: Option<
    (usize, usize),
>)
    requires
        offset <= v@.len(),
    ensures
        match r {
            Some((a, b)) => {
                &&& find(v@.skip(offset as int), open@) == Some(a - open@.len() - offset)
                &&& find(v@.skip(a as int), close@) == Some(b - a)
                &&& offset + open@.len() <= a <= b
                &&& b + close.len() <= v.len()
            },
            None => {
                ||| find(v@.skip(offset as int), open@) is None
                ||| find(
                    v@.skip(offset as int).skip(
                        find(v@.skip(offset as int), open@)->0 + open@.len(),
                    ),
                    close@,
                ) is None
            },
        },
{
    match find_from(v, open, offset) {
        Some(i) => {
            let start = i + open.len();
            assert(v@.skip(offset as int).skip(i - offset + open@.len()) == v@.skip(start as int));
            match find_from(v, close, start) {
                Some(end) => Some((start, end)),
                None => None,
            }
        },
        None => None,
    }
}

/// The text of the first element `tag` in `body`, trimmed and with its entities read.
pub fn xml_tag_one(body: &str, tag: &str) -> (r: Option<String>)
    ensures
        opt_text(r) == tag_one(body@, tag@),
{
    let v = to_chars(body);
    let open = opening_of(tag);
    let close = closing_of(tag);
    assert(v@.skip(0) == v@);
    match element_bounds(&v, &open, &close, 0) {
        Some((a, b)) => {
            assert(v@.skip(a as int).take(b - a) == v@.subrange(a as int, b as int));
            Some(xml_unescape(trim_part(&v, a, b).as_str()))
        },
        None => None,
    }
}

/// The text of the first of `tags` that `body` has as an element.
pub fn xml_tag_first(body: &str, tags: &[&str]) -> (r: Option<String>)
    ensures
        opt_text(r) == tag_first(body@, slices(tags@)),
{
    let ghost all = slices(tags@);
    let n = tags.len();
    assert(all.skip(0) == all);
    for i in 0..n
        invariant
            n == tags@.len(),
            all == slices(tags@),
            tag_first(body@, all.skip(i as int)) == tag_first(body@, all),
    {
        assert(all.skip(i as int)[0] == tags@[i as int]@);
        assert(all.skip(i as int).drop_first() == all.skip(i + 1));
        let found = xml_tag_one(body, tags[i]);
        if found.is_some() {
            return found;
        }
    }
    None
}

/// The texts of all elements `tag` in `body`, in order.
pub fn xml_tags_all(body: &str, tag: &str) -> (r: Vec<String>)
    ensures
        texts(r@) == tags_all(body@, tag@),
{
    let v = to_chars(body);
    let open = opening_of(tag);
    let close = closing_of(tag);
    let mut out: Vec<String> = Vec::new();
    let mut offset: usize = 0;
    assert(v@.skip(0) == v@);
    assert(texts(out@) + tags_all(v@, tag@) == tags_all(body@, tag@));
    loop
        invariant
            open@ == opening(tag@),
            close@ == closing(tag@),
            offset <= v@.len(),
            texts(out@) + tags_all(v@.skip(offset as int), tag@) == tags_all(body@, tag@),
        decreases v@.len() - offset,
    {
        let ghost rest = v@.skip(offset as int);
        match element_bounds(&v, &open, &close, offset) {
            Some((a, b)) => {
                let ghost done = texts(out@);
                let text = xml_unescape(trim_part(&v, a, b).as_str());
                let ghost t = text@;
                out.push(text);
                assert(texts(out@) == done.push(t));
                assert(rest.skip(a - offset) == v@.skip(a as int));
                assert(v@.skip(a as int).take(b - a) == v@.subrange(a as int, b as int));
                assert(v@.skip(a as int).skip(b - a + close@.len()) == v@.skip(b + close@.len()));
                assert(done + (seq![t] + tags_all(v@.skip(b + close@.len()), tag@)) == texts(out@)
                    + tags_all(v@.skip(b + close@.len()), tag@));
                offset = b + close.len();
            },
            None => {
                assert(tags_all(rest, tag@) == Seq::<Seq<char>>::empty());
                return out;
            },
        }
    }
}

/// The first chunk of `body` from `<item>` to the next `</item>`, as the bounds of the chunk.
pub open spec fn first_item(body: Seq<char>) -> Option<(int, int)> {
    match find(body, "<item>"@) {
        Some(i) => match find(body.skip(i), "</item>"@) {
            Some(j) => Some((i, i + j + "</item>"@.len())),
            None => None,
        },
        None => None,
    }
}

/// The bounds of an item lie in the text, and the item is not empty.
proof fn lemma_first_item(body: Seq<char>)
    ensures
        first_item(body) matches Some(c) ==> 0 <= c.0 < c.1 <= body.len(),
{
    reveal_strlit("</item>");
    lemma_find(body, "<item>"@);
    if let Some(i) = find(body, "<item>"@) {
        lemma_find(body.skip(i), "</item>"@);
    }
}

/// The chunks of `body` from `<item>` to the next `</item>`, in order.
pub open spec fn item_chunks(body: Seq<char>) -> Seq<Seq<char>>
    decreases body.len(),
    via item_chunks_decreases
{
    match first_item(body) {
        Some(c) => seq![body.subrange(c.0, c.1)] + item_chunks(body.skip(c.1)),
        None => Seq::empty(),
    }
}

#[via_fn]
proof fn item_chunks_decreases(body: Seq<char>) {
    lemma_first_item(body);
}

/// The chunks of `body` from `<item>` to the next `</item>`, in order.
pub fn xml_item_chunks(body: &str) -> (r: Vec<&str>)
    ensures
        slices(r@) == item_chunks(body@),
{
    let v = to_chars(body);
    let open = to_chars("<item>");
    let close = to_chars("</item>");
    let mut out: Vec<&str> = Vec::new();
    let mut offset: usize = 0;
    assert(v@.skip(0) == v@);
    assert(slices(out@) + item_chunks(v@) == item_chunks(body@));
    loop
        invariant
            v@ == body@,
            open@ == "<item>"@,
            close@ == "</item>"@,
            offset <= v@.len(),
            slices(out@) + item_chunks(v@.skip(offset as int)) == item_chunks(body@),
        decreases v@.len() - offset,
    {
        let ghost rest = v@.skip(offset as int);
        proof {
            lemma_first_item(rest);
        }
        let start = match find_from(&v, &open, offset) {
            Some(i) => i,
            None => {
                return out;
            },
        };
        assert(rest.skip(start - offset) == v@.skip(start as int));
        let end = match find_from(&v, &close, start) {
            Some(i) => i + close.len(),
            None => {
                return out;
            },
        };
        let ghost done = slices(out@);
        let chunk = body.substring_char(start, end);
        out.push(chunk);
        assert(slices(out@) == done.push(chunk@));
        assert(first_item(rest) == Some((start - offset, end - offset)));
        assert(rest.subrange(start - offset, end - offset) == v@.subrange(start as int, end as int));
        assert(rest.skip(end - offset) == v@.skip(end as int));
        assert(done + (seq![chunk@] + item_chunks(v@.skip(end as int))) == slices(out@)
            + item_chunks(v@.skip(end as int)));
        offset = end;
    }
}


/// The values that are there, in order.
pub open spec fn present<T>(list: Seq<Option<T>>) -> Seq<T>
    decreases list.len(),
{
    if list.len() == 0 {
        Seq::empty()
    } else {
        match list.last() {
            Some(t) => present(list.drop_last()).push(t),
            None => present(list.drop_last()),
        }
    }
}

/// A text, or no text where there is none.
pub open spec fn or_empty(t: Option<Seq<char>>) -> Seq<char> {
    match t {
        Some(t) => t,
        None => Seq::empty(),
    }
}

/// The text of the first of `tags` that `body` has as an element, or no text.
pub fn xml_tag_or_empty(body: &str, tags: &[&str]) -> (r: String)
    ensures
        r@ == or_empty(tag_first(body@, slices(tags@))),
{
    match xml_tag_first(body, tags) {
        Some(t) => t,
        None => String::new(),
    }
}

/// The store task that one item of a reply describes; an item that names no image describes none.
pub open spec fn task_of(item: Seq<char>) -> Option<StoreImageTaskView> {
    let image_id = or_empty(tag_first(item, seq!["amiId"@, "imageId"@]));
    if image_id.len() == 0 {
        None
    } else {
        Some(
            StoreImageTaskView {
                image_id,
                bucket: or_empty(tag_first(item, seq!["bucket"@])),
                object_key: or_empty(
                    tag_first(item, seq!["s3objectKey"@, "s3ObjectKey"@, "objectKey"@]),
                ),
                state: or_empty(tag_first(item, seq!["storeTaskState"@, "state"@])),
                progress: or_empty(
                    tag_first(
                        item,
                        seq!["storeTaskProgressPercentage"@, "progressPercentage"@],
                    ),
                ),
            },
        )
    }
}

/// The store tasks that a `DescribeStoreImageTasks` reply lists, in order.
pub open spec fn store_tasks(body: Seq<char>) -> Seq<StoreImageTaskView> {
    present(item_chunks(body).map_values(|item: Seq<char>| task_of(item)))
}

/// The views of a list of store tasks.
pub open spec fn task_views(list: Seq<StoreImageTask>) -> Seq<StoreImageTaskView> {
    list.map_values(|t: StoreImageTask| t@)
}

/// Reads the store task that one item of a reply describes.
fn parse_task(item: &str) -> (r: Option<StoreImageTask>)
    ensures
        match r {
            Some(t) => task_of(item@) == Some(t@),
            None => task_of(item@) is None,
        },
{
    let image_id = xml_tag_or_empty(item, &["amiId", "imageId"]);
    assert(slices(["amiId", "imageId"]@) == seq!["amiId"@, "imageId"@]);
    if image_id.as_str().is_empty() {
        return None;
    }
    let bucket = xml_tag_or_empty(item, &["bucket"]);
    assert(slices(["bucket"]@) == seq!["bucket"@]);
    let object_key = xml_tag_or_empty(item, &["s3objectKey", "s3ObjectKey", "objectKey"]);
    assert(slices(["s3objectKey", "s3ObjectKey", "objectKey"]@) == seq![
        "s3objectKey"@,
        "s3ObjectKey"@,
        "objectKey"@,
    ]);
    let state = xml_tag_or_empty(item, &["storeTaskState", "state"]);
    assert(slices(["storeTaskState", "state"]@) == seq!["storeTaskState"@, "state"@]);
    let progress = xml_tag_or_empty(item, &["storeTaskProgressPercentage", "progressPercentage"]);
    assert(slices(["storeTaskProgressPercentage", "progressPercentage"]@) == seq![
        "storeTaskProgressPercentage"@,
        "progressPercentage"@,
    ]);
    Some(StoreImageTask { image_id, bucket, object_key, state, progress })
}

/// Reads the store tasks that a `DescribeStoreImageTasks` reply lists.
pub fn parse_store_image_tasks(body: &str) -> (r: Vec<StoreImageTask>)
    ensures
        task_views(r@) == store_tasks(body@),
{
    let chunks = xml_item_chunks(body);
    let ghost found = item_chunks(body@).map_values(|item: Seq<char>| task_of(item));
    let mut out: Vec<StoreImageTask> = Vec::new();
    let n = chunks.len();
    for i in 0..n
        invariant
            n == chunks@.len(),
            slices(chunks@) == item_chunks(body@),
            found == item_chunks(body@).map_values(|item: Seq<char>| task_of(item)),
            task_views(out@) == present(found.take(i as int)),
    {
        let ghost done = task_views(out@);
        assert(found.take(i + 1).drop_last() == found.take(i as int));
        assert(slices(chunks@)[i as int] == chunks@[i as int]@);
        if let Some(task) = parse_task(chunks[i]) {
            out.push(task);
            assert(task_views(out@) == done.push(task@));
        }
    }
    assert(found.take(n as int) == found);
    out
}

/// The snapshot and return code that one item of a reply tells of, where it names a snapshot.
pub open spec fn snapshot_result_of(item: Seq<char>) -> Option<(Seq<char>, Seq<char>)> {
    let snapshot = or_empty(tag_first(item, seq!["snapshotId"@]));
    if snapshot.len() == 0 {
        None
    } else {
        Some((snapshot, or_empty(tag_first(item, seq!["returnCode"@]))))
    }
}

/// The snapshots that a `DeregisterImage` reply tells of, each with its return code, in order.
pub open spec fn snapshot_results(body: Seq<char>) -> Seq<(Seq<char>, Seq<char>)> {
    present(item_chunks(body).map_values(|item: Seq<char>| snapshot_result_of(item)))
}

/// Reads the snapshots that a `DeregisterImage` reply tells of, each with its return code.
pub fn parse_delete_snapshot_results(body: &str) -> (r: Vec<(String, String)>)
    ensures
        pair_texts(r@) == snapshot_results(body@),
{
    let chunks = xml_item_chunks(body);
    let ghost found = item_chunks(body@).map_values(|item: Seq<char>| snapshot_result_of(item));
    let mut out: Vec<(String, String)> = Vec::new();
    let n = chunks.len();
    for i in 0..n
        invariant
            n == chunks@.len(),
            slices(chunks@) == item_chunks(body@),
            found == item_chunks(body@).map_values(|item: Seq<char>| snapshot_result_of(item)),
            pair_texts(out@) == present(found.take(i as int)),
    {
        let ghost done = pair_texts(out@);
        let item = chunks[i];
        assert(found.take(i + 1).drop_last() == found.take(i as int));
        assert(slices(chunks@)[i as int] == chunks@[i as int]@);
        let snapshot = xml_tag_or_empty(item, &["snapshotId"]);
        assert(slices(["snapshotId"]@) == seq!["snapshotId"@]);
        if !snapshot.as_str().is_empty() {
            let code = xml_tag_or_empty(item, &["returnCode"]);
            assert(slices(["returnCode"]@) == seq!["returnCode"@]);
            let ghost pair = (snapshot@, code@);
            out.push((snapshot, code));
            assert(pair_texts(out@) == done.push(pair));
        }
    }
    assert(found.take(n as int) == found);
    out
}


/// `s` with each character spelled by `f`.
spec fn spelled(s: Seq<char>, f: spec_fn(char) -> Seq<char>) -> Seq<char>
    decreases s.len(),
{
    if s.len() == 0 {
        Seq::empty()
    } else {
        f(s[0]) + spelled(s.drop_first(), f)
    }
}

/// An entity: an ampersand, characters that are neither ampersand nor semicolon, a semicolon.
spec fn is_entity(t: Seq<char>) -> bool {
    &&& t.len() >= 2
    &&& t[0] == '&'
    &&& t.last() == ';'
    &&& forall|i: int| 0 < i < t.len() ==> t[i] != '&'
    &&& forall|i: int| 0 <= i < t.len() - 1 ==> t[i] != ';'
}

/// An entity, or one character that is no ampersand.
spec fn is_unit(t: Seq<char>) -> bool {
    is_entity(t) || (t.len() == 1 && t[0] != '&')
}

/// Replacing an entity passes over the units that differ from it.
proof fn lemma_replaced_passes(
    t: Seq<char>,
    k: int,
    rest: Seq<char>,
    pat: Seq<char>,
    with: Seq<char>,
)
    requires
        is_unit(t),
        is_entity(pat),
        t != pat,
        0 <= k <= t.len(),
    ensures
        replaced(t.skip(k) + rest, pat, with) == t.skip(k) + replaced(rest, pat, with),
    decreases t.len() - k,
{
    let s = t.skip(k) + rest;
    if k == t.len() {
        assert(s == rest);
        assert(t.skip(k) + replaced(rest, pat, with) == replaced(rest, pat, with));
    } else if s.len() < pat.len() {
    } else {
        if pat.is_prefix_of(s) {
            assert(s[0] == pat[0]);
            assert(s[0] == t[k]);
            assert(k == 0 && is_entity(t));
            assert(t.skip(0) == t);
            assert forall|i: int| 0 <= i < pat.len() implies s[i] == pat[i] by {
                assert(s.subrange(0, pat.len() as int)[i] == pat[i]);
            }
            if pat.len() < t.len() {
                assert(s[pat.len() - 1] == t[pat.len() - 1]);
            } else if pat.len() > t.len() {
                assert(s[t.len() - 1] == pat[t.len() - 1]);
            } else {
                assert(t == pat);
            }
            assert(false);
        }
        assert(s.drop_first() == t.skip(k + 1) + rest);
        lemma_replaced_passes(t, k + 1, rest, pat, with);
        assert(seq![s[0]] + (t.skip(k + 1) + replaced(rest, pat, with)) == t.skip(k) + replaced(
            rest,
            pat,
            with,
        ));
    }
}

/// Replacing an entity in a spelled text replaces it in the spelling.
proof fn lemma_replaced_spelled(
    s: Seq<char>,
    f: spec_fn(char) -> Seq<char>,
    g: spec_fn(char) -> Seq<char>,
    pat: Seq<char>,
    with: Seq<char>,
)
    requires
        is_entity(pat),
        forall|c: char| is_unit(#[trigger] f(c)),
        forall|c: char| #[trigger] g(c) == if f(c) == pat {
            with
        } else {
            f(c)
        },
    ensures
        replaced(spelled(s, f), pat, with) == spelled(s, g),
    decreases s.len(),
{
    if s.len() > 0 {
        let rest = spelled(s.drop_first(), f);
        lemma_replaced_spelled(s.drop_first(), f, g, pat, with);
        let t = f(s[0]);
        if t == pat {
            assert(pat.is_prefix_of(t + rest));
            assert((t + rest).skip(pat.len() as int) == rest);
        } else {
            assert(t.skip(0) == t);
            lemma_replaced_passes(t, 0, rest, pat, with);
        }
        assert(g(s[0]) == if t == pat {
            with
        } else {
            t
        });
    }
}

/// The spelling of `c` once the entities of the first `n` of the characters `<`, `>`, `"`, `'`
/// and `&` are read.
spec fn partly_read(c: char, n: int) -> Seq<char> {
    if (c == '<' && n >= 1) || (c == '>' && n >= 2) || (c == '"' && n >= 3) || (c == '\'' && n >= 4)
        || (c == '&' && n >= 5) {
        seq![c]
    } else {
        entity(c)
    }
}

/// The five entities are entities, and differ.
proof fn lemma_entities()
    ensures
        is_entity("&amp;"@),
        is_entity("&lt;"@),
        is_entity("&gt;"@),
        is_entity("&quot;"@),
        is_entity("&apos;"@),
        "&lt;"@[1] == 'l',
        "&gt;"@[1] == 'g',
        "&quot;"@[1] == 'q',
        "&apos;"@[2] == 'p',
        "&amp;"@[2] == 'm',
        "&amp;"@[1] == 'a',
        "&apos;"@[1] == 'a',
        "<"@ == seq!['<'],
        ">"@ == seq!['>'],
        "\""@ == seq!['"'],
        "'"@ == seq!['\''],
        "&"@ == seq!['&'],
{
    reveal_strlit("&amp;");
    reveal_strlit("&lt;");
    reveal_strlit("&gt;");
    reveal_strlit("&quot;");
    reveal_strlit("&apos;");
    reveal_strlit("<");
    reveal_strlit(">");
    reveal_strlit("\"");
    reveal_strlit("'");
    reveal_strlit("&");
}

/// Escaping spells each character by its entity.
proof fn lemma_escaped_spelled(s: Seq<char>)
    ensures
        escaped(s) == spelled(s, |c: char| partly_read(c, 0)),
    decreases s.len(),
{
    if s.len() > 0 {
        lemma_escaped_spelled(s.drop_first());
    }
}

/// A text in which each character spells itself is that text.
proof fn lemma_spelled_by_itself(s: Seq<char>)
    ensures
        spelled(s, |c: char| partly_read(c, 5)) == s,
    decreases s.len(),
{
    if s.len() > 0 {
        lemma_spelled_by_itself(s.drop_first());
        assert(s == seq![s[0]] + s.drop_first());
    }
}

/// Reading the entities of an escaped text gives the text back.
pub proof fn law_unescape_undoes_escape(s: Seq<char>)
    ensures
        unescaped(escaped(s)) == s,
{
    lemma_entities();
    lemma_escaped_spelled(s);
    lemma_spelled_by_itself(s);
    let f0 = |c: char| partly_read(c, 0);
    let f1 = |c: char| partly_read(c, 1);
    let f2 = |c: char| partly_read(c, 2);
    let f3 = |c: char| partly_read(c, 3);
    let f4 = |c: char| partly_read(c, 4);
    let f5 = |c: char| partly_read(c, 5);
    lemma_replaced_spelled(s, f0, f1, "&lt;"@, "<"@);
    lemma_replaced_spelled(s, f1, f2, "&gt;"@, ">"@);
    lemma_replaced_spelled(s, f2, f3, "&quot;"@, "\""@);
    lemma_replaced_spelled(s, f3, f4, "&apos;"@, "'"@);
    lemma_replaced_spelled(s, f4, f5, "&amp;"@, "&"@);
}

/// The element `tag` with the text `s`.
pub open spec fn element(tag: Seq<char>, s: Seq<char>) -> Seq<char> {
    opening(tag) + escaped(s) + closing(tag)
}

/// An escaped text holds no `<`.
proof fn lemma_escaped_no_markup(s: Seq<char>)
    ensures
        forall|i: int| 0 <= i < escaped(s).len() ==> escaped(s)[i] != '<',
    decreases s.len(),
{
    reveal_strlit("&amp;");
    reveal_strlit("&lt;");
    reveal_strlit("&gt;");
    reveal_strlit("&quot;");
    reveal_strlit("&apos;");
    if s.len() > 0 {
        lemma_escaped_no_markup(s.drop_first());
        let e = entity(s[0]);
        let rest = escaped(s.drop_first());
        assert forall|i: int| 0 <= i < escaped(s).len() implies escaped(s)[i] != '<' by {
            if i < e.len() {
                assert(escaped(s)[i] == e[i]);
            } else {
                assert(escaped(s)[i] == rest[i - e.len()]);
            }
        }
    }
}

/// Escaping works character by character, from the end too.
proof fn lemma_escaped_last(s: Seq<char>)
    requires
        s.len() > 0,
    ensures
        escaped(s) == escaped(s.drop_last()) + entity(s.last()),
    decreases s.len(),
{
    if s.len() == 1 {
        assert(s.drop_first().len() == 0);
        assert(s.drop_last().len() == 0);
        assert(escaped(s.drop_first()) == Seq::<char>::empty());
        assert(escaped(s.drop_last()) == Seq::<char>::empty());
    } else {
        lemma_escaped_last(s.drop_first());
        assert(s.drop_first().drop_last() == s.drop_last().drop_first());
    }
}

/// Escaping neither adds nor takes white space at the ends of a text.
proof fn lemma_trimmed_escaped(s: Seq<char>)
    ensures
        trimmed(escaped(s)) == escaped(trimmed(s)),
{
    let white = |c: char| is_white(c);
    lemma_strip_start_escaped(s, white);
    lemma_strip_end_escaped(strip_start(s, white), white);
}

proof fn lemma_strip_start_escaped(s: Seq<char>, white: spec_fn(char) -> bool)
    requires
        white == (|c: char| is_white(c)),
    ensures
        strip_start(escaped(s), white) == escaped(strip_start(s, white)),
    decreases s.len(),
{
    lemma_entities();
    if s.len() > 0 {
        let e = escaped(s);
        assert(e[0] == entity(s[0])[0]);
        if white(s[0]) {
            lemma_strip_start_escaped(s.drop_first(), white);
            assert(e.drop_first() == escaped(s.drop_first()));
        }
    }
}

proof fn lemma_strip_end_escaped(s: Seq<char>, white: spec_fn(char) -> bool)
    requires
        white == (|c: char| is_white(c)),
    ensures
        strip_end(escaped(s), white) == escaped(strip_end(s, white)),
    decreases s.len(),
{
    lemma_entities();
    if s.len() > 0 {
        let e = escaped(s);
        lemma_escaped_last(s);
        assert(e.last() == entity(s.last()).last());
        if white(s.last()) {
            lemma_strip_end_escaped(s.drop_last(), white);
            assert(e.drop_last() == escaped(s.drop_last()));
        }
    }
}

/// The first element `tag` of a text that begins with the element `tag` is that element.
proof fn lemma_first_element_written(tag: Seq<char>, s: Seq<char>, rest: Seq<char>)
    ensures
        first_element(element(tag, s) + rest, tag) == Some((trimmed(s), rest)),
{
    let body = element(tag, s) + rest;
    let text = escaped(s);
    let open = opening(tag);
    let close = closing(tag);
    let inner = text + close + rest;
    assert(body == open + inner);
    assert(open.is_prefix_of(body));
    assert(body.skip(open.len() as int) == inner);
    lemma_escaped_no_markup(s);
    lemma_find_after(text, close, rest);
    assert(inner.take(text.len() as int) == text);
    assert(inner.skip((text.len() + close.len()) as int) == rest);
    lemma_trimmed_escaped(s);
    law_unescape_undoes_escape(trimmed(s));
}

/// Reading an element back gives the text that was written into it, trimmed of white space,
/// whatever follows the element.
pub proof fn law_element_is_read_back(tag: Seq<char>, s: Seq<char>, rest: Seq<char>)
    ensures
        tag_one(element(tag, s) + rest, tag) == Some(trimmed(s)),
        tags_all(element(tag, s) + rest, tag) == seq![trimmed(s)] + tags_all(rest, tag),
{
    lemma_first_element_written(tag, s, rest);
}


/// The entities of the markup characters, each with its character.
pub open spec fn entities() -> Seq<(Seq<char>, char)> {
    seq![
        ("&lt;"@, '<'),
        ("&gt;"@, '>'),
        ("&quot;"@, '"'),
        ("&apos;"@, '\''),
        ("&amp;"@, '&'),
    ]
}

/// The index of the entity of `list` that `s` begins with.
pub open spec fn entity_at(s: Seq<char>, list: Seq<(Seq<char>, char)>) -> Option<int>
    decreases list.len(),
{
    if list.len() == 0 {
        None
    } else if entity_at(s, list.drop_last()) is Some {
        entity_at(s, list.drop_last())
    } else if list.last().0.len() > 0 && list.last().0.is_prefix_of(s) {
        Some(list.len() - 1)
    } else {
        None
    }
}

/// `s` read from left to right, with each entity of `list` as its character.
pub open spec fn one_pass(s: Seq<char>, list: Seq<(Seq<char>, char)>) -> Seq<char>
    decreases s.len(),
    via one_pass_decreases
{
    if s.len() == 0 {
        Seq::empty()
    } else {
        match entity_at(s, list) {
            Some(i) => seq![list[i].1] + one_pass(s.skip(list[i].0.len() as int), list),
            None => seq![s[0]] + one_pass(s.drop_first(), list),
        }
    }
}

#[via_fn]
proof fn one_pass_decreases(s: Seq<char>, list: Seq<(Seq<char>, char)>) {
    lemma_entity_at(s, list);
}

/// The entity that a text begins with is one of the list, and is not empty.
proof fn lemma_entity_at(s: Seq<char>, list: Seq<(Seq<char>, char)>)
    ensures
        entity_at(s, list) matches Some(i) ==> 0 <= i < list.len() && 0 < list[i].0.len() <= s.len()
            && list[i].0.is_prefix_of(s),
    decreases list.len(),
{
    if list.len() > 0 {
        lemma_entity_at(s, list.drop_last());
    }
}

/// An ampersand stands first in `pat`, and nowhere else.
spec fn begins_once(pat: Seq<char>) -> bool {
    pat.len() > 0 && pat[0] == '&' && forall|j: int| 1 <= j < pat.len() ==> pat[j] != '&'
}

/// The list holds entities, whose characters do not occur in `pat`.
spec fn is_apart(list: Seq<(Seq<char>, char)>, pat: Seq<char>) -> bool {
    forall|i: int|
        0 <= i < list.len() ==> begins_once((#[trigger] list[i]).0) && !pat.contains(list[i].1)
}

/// A text that does not begin with an ampersand does not begin with an entity.
proof fn lemma_no_entity(s: Seq<char>, list: Seq<(Seq<char>, char)>, pat: Seq<char>)
    requires
        is_apart(list, pat),
        s.len() > 0,
        s[0] != '&',
    ensures
        entity_at(s, list) is None,
{
    lemma_entity_at(s, list);
    if let Some(i) = entity_at(s, list) {
        assert(begins_once(list[i].0));
        assert(list[i].0[0] == s.subrange(0, list[i].0.len() as int)[0]);
    }
}

/// The characters of `rest`, none of which is an ampersand, are read as they are.
proof fn lemma_plain(rest: Seq<char>, t: Seq<char>, list: Seq<(Seq<char>, char)>, pat: Seq<char>)
    requires
        is_apart(list, pat),
        forall|j: int| 0 <= j < rest.len() ==> rest[j] != '&',
    ensures
        one_pass(rest + t, list) == rest + one_pass(t, list),
    decreases rest.len(),
{
    if rest.len() == 0 {
        assert(rest + t == t);
        assert(rest + one_pass(t, list) == one_pass(t, list));
    } else {
        let s = rest + t;
        assert(s[0] == rest[0]);
        lemma_no_entity(s, list, pat);
        assert(s.drop_first() == rest.drop_first() + t);
        lemma_plain(rest.drop_first(), t, list, pat);
        assert(seq![rest[0]] + (rest.drop_first() + one_pass(t, list)) == rest + one_pass(t, list));
    }
}

/// What a text begins with once it was read, it began with before, where this holds no ampersand
/// and no character that an entity stands for.
proof fn lemma_begins(rest: Seq<char>, t: Seq<char>, list: Seq<(Seq<char>, char)>, pat: Seq<char>)
    requires
        is_apart(list, pat),
        forall|j: int| 0 <= j < rest.len() ==> rest[j] != '&' && pat.contains(rest[j]),
        rest.is_prefix_of(one_pass(t, list)),
    ensures
        rest.is_prefix_of(t),
    decreases rest.len(),
{
    let read = one_pass(t, list);
    if rest.len() > 0 {
        assert(rest[0] == read.subrange(0, rest.len() as int)[0]);
        lemma_entity_at(t, list);
        if let Some(i) = entity_at(t, list) {
            assert(read[0] == list[i].1);
            assert(pat.contains(rest[0]));
            assert(!pat.contains(list[i].1));
        }
        assert(entity_at(t, list) is None);
        let fewer = rest.drop_first();
        assert(read.drop_first() == one_pass(t.drop_first(), list));
        assert(fewer == read.drop_first().subrange(0, fewer.len() as int)) by {
            assert(rest == read.subrange(0, rest.len() as int));
        }
        lemma_begins(fewer, t.drop_first(), list, pat);
        assert(rest == t.subrange(0, rest.len() as int)) by {
            assert(fewer == t.drop_first().subrange(0, fewer.len() as int));
            assert(rest == seq![rest[0]] + fewer);
        }
    }
}

/// Replacing one more entity in a text that was read is reading it with that entity, too.
proof fn lemma_next_entity(s: Seq<char>, list: Seq<(Seq<char>, char)>, pat: Seq<char>, c: char)
    requires
        is_apart(list, pat),
        begins_once(pat),
    ensures
        replaced(one_pass(s, list), pat, seq![c]) == one_pass(s, list.push((pat, c))),
    decreases s.len(),
{
    let more = list.push((pat, c));
    let read = one_pass(s, list);
    assert(more.drop_last() == list);
    assert(more.last() == (pat, c));
    if s.len() > 0 {
        lemma_entity_at(s, list);
        if let Some(i) = entity_at(s, list) {
            let t = s.skip(list[i].0.len() as int);
            lemma_next_entity(t, list, pat, c);
            assert(more[i] == list[i]);
            assert(read == seq![list[i].1] + one_pass(t, list));
            assert(read.drop_first() == one_pass(t, list));
            assert(!pat.is_prefix_of(read)) by {
                if pat.is_prefix_of(read) {
                    assert(pat[0] == read.subrange(0, pat.len() as int)[0]);
                    assert(pat.contains(pat[0]));
                }
            }
            lemma_replaced_next(read, pat, seq![c]);
        } else if pat.is_prefix_of(s) {
            let t = s.skip(pat.len() as int);
            let rest = pat.drop_first();
            lemma_next_entity(t, list, pat, c);
            assert(s == pat + t);
            assert(s[0] == '&');
            assert(s.drop_first() == rest + t);
            lemma_plain(rest, t, list, pat);
            assert(read == seq!['&'] + (rest + one_pass(t, list)));
            assert(read == pat + one_pass(t, list));
            assert(pat == read.subrange(0, pat.len() as int));
            assert(read.skip(pat.len() as int) == one_pass(t, list));
        } else {
            let t = s.drop_first();
            lemma_next_entity(t, list, pat, c);
            assert(read == seq![s[0]] + one_pass(t, list));
            assert(read.drop_first() == one_pass(t, list));
            assert(!pat.is_prefix_of(read)) by {
                if pat.is_prefix_of(read) {
                    let rest = pat.drop_first();
                    assert(pat[0] == read.subrange(0, pat.len() as int)[0]);
                    assert forall|j: int| 0 <= j < rest.len() implies rest[j] != '&'
                        && pat.contains(rest[j]) by {
                        assert(rest[j] == pat[j + 1]);
                    }
                    assert(rest == read.drop_first().subrange(0, rest.len() as int)) by {
                        assert(pat == read.subrange(0, pat.len() as int));
                    }
                    lemma_begins(rest, t, list, pat);
                    assert(pat == s.subrange(0, pat.len() as int)) by {
                        assert(rest == t.subrange(0, rest.len() as int));
                        assert(pat == seq![pat[0]] + rest);
                    }
                }
            }
            lemma_replaced_next(read, pat, seq![c]);
        }
    }
}

/// Where the pattern does not stand first, the first character is kept.
proof fn lemma_replaced_next(s: Seq<char>, pat: Seq<char>, with: Seq<char>)
    requires
        s.len() > 0,
        pat.len() > 0,
        !pat.is_prefix_of(s),
    ensures
        replaced(s, pat, with) == seq![s[0]] + replaced(s.drop_first(), pat, with),
{
    if s.len() < pat.len() {
        assert(replaced(s.drop_first(), pat, with) == s.drop_first());
        assert(s == seq![s[0]] + s.drop_first());
    }
}

/// Entities are read from left to right in one pass: what was read is not read again, so that no
/// entity comes of the character of another.
pub proof fn law_entities_are_read_once(s: Seq<char>)
    ensures
        unescaped(s) == one_pass(s, entities()),
{
    reveal_strlit("&lt;");
    reveal_strlit("&gt;");
    reveal_strlit("&quot;");
    reveal_strlit("&apos;");
    reveal_strlit("&amp;");
    reveal_strlit("<");
    reveal_strlit(">");
    reveal_strlit("\"");
    reveal_strlit("'");
    reveal_strlit("&");
    let list = entities();
    assert("<"@ == seq!['<']);
    assert(">"@ == seq!['>']);
    assert("\""@ == seq!['"']);
    assert("'"@ == seq!['\'']);
    assert("&"@ == seq!['&']);
    lemma_nothing_read(s);
    lemma_next_entity(s, list.take(0), "&lt;"@, '<');
    assert(list.take(0).push(("&lt;"@, '<')) == list.take(1));
    lemma_next_entity(s, list.take(1), "&gt;"@, '>');
    assert(list.take(1).push(("&gt;"@, '>')) == list.take(2));
    lemma_next_entity(s, list.take(2), "&quot;"@, '"');
    assert(list.take(2).push(("&quot;"@, '"')) == list.take(3));
    lemma_next_entity(s, list.take(3), "&apos;"@, '\'');
    assert(list.take(3).push(("&apos;"@, '\'')) == list.take(4));
    lemma_next_entity(s, list.take(4), "&amp;"@, '&');
    assert(list.take(4).push(("&amp;"@, '&')) == list);
    assert(list.take(0) == Seq::<(Seq<char>, char)>::empty());
}

/// A text that is read without entities is left as it is.
proof fn lemma_nothing_read(s: Seq<char>)
    ensures
        one_pass(s, Seq::empty()) == s,
    decreases s.len(),
{
    if s.len() > 0 {
        lemma_nothing_read(s.drop_first());
        assert(s == seq![s[0]] + s.drop_first());
    }
}

/// The text is read as it stands in an element: it holds no markup, no entity, and no white space
/// at its ends.
pub open spec fn is_plain(t: Seq<char>) -> bool {
    !t.contains('<') && !t.contains('&') && trimmed(t) == t
}

/// The name of an element.
pub open spec fn is_name(tag: Seq<char>) -> bool {
    tag.len() > 0 && tag[0] != '/' && !tag.contains('<') && !tag.contains('>')
}

/// A plain text holds no entity to be read.
proof fn lemma_unescaped_plain(t: Seq<char>)
    requires
        !t.contains('&'),
    ensures
        unescaped(t) == t,
{
    reveal_strlit("&lt;");
    reveal_strlit("&gt;");
    reveal_strlit("&quot;");
    reveal_strlit("&apos;");
    reveal_strlit("&amp;");
    lemma_replaced_absent(t, "&lt;"@, "<"@);
    lemma_replaced_absent(t, "&gt;"@, ">"@);
    lemma_replaced_absent(t, "&quot;"@, "\""@);
    lemma_replaced_absent(t, "&apos;"@, "'"@);
    lemma_replaced_absent(t, "&amp;"@, "&"@);
}

/// A piece of markup and the text behind it: `<q>t`.
spec fn markup(q: Seq<char>, t: Seq<char>) -> Seq<char> {
    seq!['<'] + q + seq!['>'] + t
}

/// The text of a piece of markup: it holds no angle bracket.
spec fn is_tag(q: Seq<char>) -> bool {
    !q.contains('<') && !q.contains('>')
}

/// A piece of markup and the text behind it is passed over in the search for another piece.
proof fn lemma_markup_passed(q: Seq<char>, t: Seq<char>, rest: Seq<char>, p: Seq<char>)
    requires
        is_tag(q),
        is_tag(p),
        !t.contains('<'),
        q != p,
    ensures
        match find(rest, seq!['<'] + p + seq!['>']) {
            Some(i) => find(markup(q, t) + rest, seq!['<'] + p + seq!['>']) == Some(
                i + markup(q, t).len(),
            ),
            None => find(markup(q, t) + rest, seq!['<'] + p + seq!['>']) is None,
        },
{
    let open = seq!['<'] + p + seq!['>'];
    let head = markup(q, t);
    let s = head + rest;
    let n = head.len() as int;
    assert forall|j: int| 0 <= j < n implies !#[trigger] occurs_at(s, open, j) by {
        if occurs_at(s, open, j) {
            let found = s.subrange(j, j + open.len());
            assert(found[0] == '<');
            assert(s[j] == '<');
            if j == 0 {
                let k = q.len() as int;
                let l = p.len() as int;
                assert(s[k + 1] == '>');
                if k < l {
                    assert(found[k + 1] == p[k]);
                    assert(p.contains(p[k]));
                } else if l < k {
                    assert(found[l + 1] == '>');
                    assert(s[l + 1] == q[l]);
                    assert(q.contains(q[l]));
                } else {
                    assert forall|i: int| 0 <= i < k implies q[i] == p[i] by {
                        assert(found[i + 1] == p[i]);
                        assert(s[i + 1] == q[i]);
                    }
                    assert(q == p);
                }
            } else if j <= q.len() {
                assert(s[j] == q[j - 1]);
                assert(q.contains(q[j - 1]));
            } else if j > q.len() + 1 {
                assert(s[j] == t[j - q.len() - 2]);
                assert(t.contains(t[j - q.len() - 2]));
            }
        }
    }
    lemma_find_behind(s, open, n);
    assert(s.skip(n) == rest);
}

/// A piece of markup and the text behind it is passed over in the search for another element.
proof fn lemma_other_markup(q: Seq<char>, t: Seq<char>, rest: Seq<char>, tag: Seq<char>)
    requires
        is_tag(q),
        !t.contains('<'),
        is_tag(tag),
        q != tag,
    ensures
        first_element(markup(q, t) + rest, tag) == first_element(rest, tag),
{
    let open = opening(tag);
    let n = markup(q, t).len();
    lemma_markup_passed(q, t, rest, tag);
    lemma_find(rest, open);
    if let Some(i) = find(rest, open) {
        assert((markup(q, t) + rest).skip(i + n + open.len()) == rest.skip(i + open.len()));
    }
}

/// The element `name` with the plain text `t`.
pub open spec fn plain_element(name: Seq<char>, t: Seq<char>) -> Seq<char> {
    "<"@ + name + ">"@ + t + "</"@ + name + ">"@
}

/// An element of plain text is two pieces of markup.
proof fn lemma_two_pieces(name: Seq<char>, t: Seq<char>, rest: Seq<char>)
    ensures
        plain_element(name, t) + rest == markup(name, t) + (markup(seq!['/'] + name, Seq::empty())
            + rest),
        plain_element(name, t) + rest == opening(name) + (t + closing(name) + rest),
{
    reveal_strlit("<");
    reveal_strlit(">");
    reveal_strlit("</");
    assert(plain_element(name, t) + rest =~= markup(name, t) + (markup(
        seq!['/'] + name,
        Seq::empty(),
    ) + rest));
    assert(plain_element(name, t) + rest =~= opening(name) + (t + closing(name) + rest));
}

/// The name of a closing tag is a tag, and differs from the name of an element.
proof fn lemma_closing_tag(name: Seq<char>, other: Seq<char>)
    requires
        is_name(name),
        is_name(other),
    ensures
        is_tag(seq!['/'] + name),
        seq!['/'] + name != other,
        name != other ==> seq!['/'] + name != seq!['/'] + other,
        name != seq!['/'] + other,
{
    let close = seq!['/'] + name;
    assert forall|i: int| 0 <= i < close.len() implies close[i] != '<' && close[i] != '>' by {
        if i > 0 {
            assert(name.contains(name[i - 1]));
        }
    }
    assert(close[0] == '/');
    assert((seq!['/'] + other)[0] == '/');
    if close == seq!['/'] + other {
        assert(name == close.drop_first());
        assert(other == (seq!['/'] + other).drop_first());
    }
}

/// An element of plain text is read back as its text, and as nothing else.
pub proof fn law_plain_element_is_read_back(
    name: Seq<char>,
    t: Seq<char>,
    other: Seq<char>,
    rest: Seq<char>,
)
    requires
        is_name(name),
        is_plain(t),
        is_name(other),
        other != name,
    ensures
        tag_one(plain_element(name, t) + rest, name) == Some(t),
        tags_all(plain_element(name, t) + rest, name) == seq![t] + tags_all(rest, name),
        tag_one(plain_element(name, t) + rest, other) == tag_one(rest, other),
        tags_all(plain_element(name, t) + rest, other) == tags_all(rest, other),
        find(rest, "<"@ + name + ">"@) is None ==> tag_one(rest, name) is None && tags_all(
            rest,
            name,
        ).len() == 0,
{
    reveal_strlit("<");
    reveal_strlit(">");
    lemma_plain_element(name, t, rest);
    lemma_element_passed(name, t, rest, other);
    assert("<"@ + name + ">"@ == opening(name));
}

/// An element of plain text is read back, and what follows it is what follows it.
proof fn lemma_plain_element(name: Seq<char>, t: Seq<char>, rest: Seq<char>)
    requires
        is_plain(t),
    ensures
        first_element(plain_element(name, t) + rest, name) == Some((t, rest)),
{
    let open = opening(name);
    let close = closing(name);
    let body = plain_element(name, t) + rest;
    let inner = t + close + rest;
    lemma_two_pieces(name, t, rest);
    assert(open == body.subrange(0, open.len() as int));
    assert(body.skip(open.len() as int) == inner);
    assert forall|i: int| 0 <= i < t.len() implies t[i] != close[0] by {
        assert(t.contains(t[i]));
    }
    lemma_find_after(t, close, rest);
    assert(inner.take(t.len() as int) == t);
    assert(inner.skip((t.len() + close.len()) as int) == rest);
    lemma_unescaped_plain(t);
}

/// An element of plain text is passed over in the search for another.
proof fn lemma_element_passed(name: Seq<char>, t: Seq<char>, rest: Seq<char>, other: Seq<char>)
    requires
        is_name(name),
        !t.contains('<'),
        is_name(other),
        other != name,
    ensures
        first_element(plain_element(name, t) + rest, other) == first_element(rest, other),
{
    lemma_two_pieces(name, t, rest);
    lemma_closing_tag(name, other);
    let end = markup(seq!['/'] + name, Seq::empty());
    lemma_other_markup(seq!['/'] + name, Seq::empty(), rest, other);
    lemma_other_markup(name, t, end + rest, other);
}

/// The elements of a record, one after the other.
pub open spec fn fields_text(fields: Seq<(Seq<char>, Seq<char>)>) -> Seq<char>
    decreases fields.len(),
{
    if fields.len() == 0 {
        Seq::empty()
    } else {
        plain_element(fields[0].0, fields[0].1) + fields_text(fields.drop_first())
    }
}

/// The record that holds these elements.
pub open spec fn record(fields: Seq<(Seq<char>, Seq<char>)>) -> Seq<char> {
    "<item>"@ + fields_text(fields) + "</item>"@
}

/// The text of the first element of this name.
pub open spec fn field(fields: Seq<(Seq<char>, Seq<char>)>, name: Seq<char>) -> Option<Seq<char>>
    decreases fields.len(),
{
    if fields.len() == 0 {
        None
    } else if fields[0].0 == name {
        Some(fields[0].1)
    } else {
        field(fields.drop_first(), name)
    }
}

/// The elements have names other than that of the record, and plain texts.
pub open spec fn are_fields(fields: Seq<(Seq<char>, Seq<char>)>) -> bool {
    forall|i: int|
        0 <= i < fields.len() ==> is_name((#[trigger] fields[i]).0) && fields[i].0 != "item"@
            && is_plain(fields[i].1)
}

/// The element `name` of a record is its first one.
proof fn lemma_field(fields: Seq<(Seq<char>, Seq<char>)>, name: Seq<char>, end: Seq<char>)
    requires
        are_fields(fields),
        is_name(name),
        first_element(end, name) is None,
    ensures
        (match first_element(fields_text(fields) + end, name) {
            Some(e) => Some(e.0),
            None => None,
        }) == field(fields, name),
    decreases fields.len(),
{
    if fields.len() == 0 {
        assert(fields_text(fields) + end == end);
    } else {
        let f = fields[0];
        let rest = fields.drop_first();
        assert(is_name(f.0) && is_plain(f.1));
        assert(fields_text(fields) + end == plain_element(f.0, f.1) + (fields_text(rest) + end));
        assert forall|i: int| 0 <= i < rest.len() implies is_name((#[trigger] rest[i]).0)
            && rest[i].0 != "item"@ && is_plain(rest[i].1) by {
            assert(rest[i] == fields[i + 1]);
        }
        lemma_field(rest, name, end);
        if f.0 == name {
            lemma_plain_element(f.0, f.1, fields_text(rest) + end);
        } else {
            lemma_element_passed(f.0, f.1, fields_text(rest) + end, name);
        }
    }
}

/// A record is read back: the text of an element is that of the first element of its name, and
/// there is none where the record holds none.
pub proof fn law_record_is_read_back(fields: Seq<(Seq<char>, Seq<char>)>, name: Seq<char>)
    requires
        are_fields(fields),
        is_name(name),
        name != "item"@,
    ensures
        tag_one(record(fields), name) == field(fields, name),
{
    lemma_item_tags();
    let end = markup("/item"@, Seq::empty());
    assert(!Seq::<char>::empty().contains('<'));
    assert("/item"@ != name) by {
        assert("/item"@[0] == '/');
    }
    assert(markup("/item"@, Seq::empty()) + Seq::<char>::empty() == end);
    assert(find(Seq::<char>::empty(), opening(name)) is None);
    lemma_other_markup("/item"@, Seq::empty(), Seq::empty(), name);
    assert(first_element(end, name) is None);
    lemma_field(fields, name, end);
    lemma_other_markup("item"@, Seq::empty(), fields_text(fields) + end, name);
    assert(record(fields) == markup("item"@, Seq::empty()) + (fields_text(fields) + end));
}

/// The tags of a record.
proof fn lemma_item_tags()
    ensures
        "<item>"@ == markup("item"@, Seq::empty()),
        "</item>"@ == markup("/item"@, Seq::empty()),
        "/item"@ == seq!['/'] + "item"@,
        "/item"@[0] == '/',
        is_tag("item"@),
        is_tag("/item"@),
        is_name("item"@),
        "<item>"@.len() == 6,
        "</item>"@.len() == 7,
{
    reveal_strlit("<item>");
    reveal_strlit("</item>");
    reveal_strlit("item");
    reveal_strlit("/item");
    assert("<item>"@ =~= markup("item"@, Seq::empty()));
    assert("</item>"@ =~= markup("/item"@, Seq::empty()));
    assert("/item"@ =~= seq!['/'] + "item"@);
}

/// The end of a record stands behind its elements.
proof fn lemma_record_end(fields: Seq<(Seq<char>, Seq<char>)>, rest: Seq<char>)
    requires
        are_fields(fields),
    ensures
        find(fields_text(fields) + ("</item>"@ + rest), "</item>"@) == Some(
            fields_text(fields).len() as int,
        ),
    decreases fields.len(),
{
    lemma_item_tags();
    let end = "</item>"@ + rest;
    let close = "</item>"@;
    assert(close == seq!['<'] + "/item"@ + seq!['>']);
    if fields.len() == 0 {
        assert(fields_text(fields) + end == end);
        assert(close == end.subrange(0, 7));
    } else {
        let f = fields[0];
        let others = fields.drop_first();
        assert(is_name(f.0) && f.0 != "item"@ && is_plain(f.1));
        assert forall|i: int| 0 <= i < others.len() implies is_name((#[trigger] others[i]).0)
            && others[i].0 != "item"@ && is_plain(others[i].1) by {
            assert(others[i] == fields[i + 1]);
        }
        lemma_record_end(others, rest);
        let behind = fields_text(others) + end;
        assert(fields_text(fields) + end == plain_element(f.0, f.1) + behind);
        lemma_two_pieces(f.0, f.1, behind);
        lemma_two_pieces(f.0, f.1, Seq::empty());
        assert(plain_element(f.0, f.1) + Seq::<char>::empty() == plain_element(f.0, f.1));
        lemma_closing_tag(f.0, "item"@);
        let second = markup(seq!['/'] + f.0, Seq::empty());
        lemma_markup_passed(seq!['/'] + f.0, Seq::empty(), behind, "/item"@);
        lemma_markup_passed(f.0, f.1, second + behind, "/item"@);
        assert(plain_element(f.0, f.1).len() == markup(f.0, f.1).len() + second.len());
    }
}

/// Records are read one after the other: what stands behind a record is read as it is read alone.
pub proof fn law_records_are_read_in_order(fields: Seq<(Seq<char>, Seq<char>)>, rest: Seq<char>)
    requires
        are_fields(fields),
    ensures
        item_chunks(record(fields) + rest) == seq![record(fields)] + item_chunks(rest),
        find(rest, "<item>"@) is None ==> item_chunks(rest).len() == 0,
{
    let whole = record(fields);
    let body = whole + rest;
    let text = fields_text(fields);
    lemma_item_tags();
    assert("<item>"@ == body.subrange(0, 6));
    assert(find(body, "<item>"@) == Some(0int));
    assert(body.skip(0) == body);
    lemma_record_end(fields, rest);
    assert(body == markup("item"@, Seq::empty()) + (text + ("</item>"@ + rest)));
    assert("item"@ != "/item"@) by {
        assert("item"@[0] != '/');
    }
    lemma_markup_passed("item"@, Seq::empty(), text + ("</item>"@ + rest), "/item"@);
    assert("</item>"@ == seq!['<'] + "/item"@ + seq!['>']);
    assert(whole.len() == text.len() + 13);
    assert(find(body, "</item>"@) == Some(text.len() as int + 6));
    assert(body.subrange(0, whole.len() as int) == whole);
    assert(body.skip(whole.len() as int) == rest);
}

/// The first of two texts that is there.
pub open spec fn either(a: Option<Seq<char>>, b: Option<Seq<char>>) -> Option<Seq<char>> {
    if a is Some {
        a
    } else {
        b
    }
}

/// A reply that lists records is read as a list of store tasks: a record that names an image by
/// `amiId`, or else by `imageId`, is a task with the texts of its elements, and every other record
/// is none.
pub proof fn law_task_is_read_back(fields: Seq<(Seq<char>, Seq<char>)>, rest: Seq<char>)
    requires
        are_fields(fields),
    ensures
        ({
            let image = either(field(fields, "amiId"@), field(fields, "imageId"@));
            let key = either(
                field(fields, "s3objectKey"@),
                either(field(fields, "s3ObjectKey"@), field(fields, "objectKey"@)),
            );
            let state = either(field(fields, "storeTaskState"@), field(fields, "state"@));
            let progress = either(
                field(fields, "storeTaskProgressPercentage"@),
                field(fields, "progressPercentage"@),
            );
            let bucket = field(fields, "bucket"@);
            let empty = Seq::<char>::empty();
            store_tasks(record(fields) + rest) == (if image is Some && image->0.len() > 0 {
                seq![
                    StoreImageTaskView {
                        image_id: image->0,
                        bucket: bucket.unwrap_or(empty),
                        object_key: key.unwrap_or(empty),
                        state: state.unwrap_or(empty),
                        progress: progress.unwrap_or(empty),
                    },
                ]
            } else {
                Seq::empty()
            }) + store_tasks(rest)
        }),
        find(rest, "<item>"@) is None ==> store_tasks(rest).len() == 0,
{
    law_records_are_read_in_order(fields, rest);
    lemma_names();
    lemma_present(record(fields), item_chunks(rest));
    law_record_is_read_back(fields, "amiId"@);
    law_record_is_read_back(fields, "imageId"@);
    law_record_is_read_back(fields, "bucket"@);
    law_record_is_read_back(fields, "s3objectKey"@);
    law_record_is_read_back(fields, "s3ObjectKey"@);
    law_record_is_read_back(fields, "objectKey"@);
    law_record_is_read_back(fields, "storeTaskState"@);
    law_record_is_read_back(fields, "state"@);
    law_record_is_read_back(fields, "storeTaskProgressPercentage"@);
    law_record_is_read_back(fields, "progressPercentage"@);
    let item = record(fields);
    reveal_with_fuel(tag_first, 4);
    lemma_tag_first_two(item, "amiId"@, "imageId"@);
    lemma_tag_first_two(item, "storeTaskState"@, "state"@);
    lemma_tag_first_two(item, "storeTaskProgressPercentage"@, "progressPercentage"@);
    lemma_tag_first_two(item, "s3ObjectKey"@, "objectKey"@);
    assert(seq!["s3objectKey"@, "s3ObjectKey"@, "objectKey"@].drop_first() == seq![
        "s3ObjectKey"@,
        "objectKey"@,
    ]);
    assert(seq!["bucket"@].drop_first().len() == 0);
    assert(item_chunks(rest).len() == 0 ==> store_tasks(rest).len() == 0);
}

/// The first of two names that a text has as an element.
proof fn lemma_tag_first_two(body: Seq<char>, a: Seq<char>, b: Seq<char>)
    ensures
        tag_first(body, seq![a, b]) == either(tag_one(body, a), tag_one(body, b)),
        tag_first(body, seq![a]) == tag_one(body, a),
{
    reveal_with_fuel(tag_first, 3);
    assert(seq![a, b].drop_first() == seq![b]);
    assert(seq![b].drop_first().len() == 0);
    assert(seq![a].drop_first().len() == 0);
}

/// The tasks of a list of items are that of the first, where it is one, and those of the others.
proof fn lemma_present(item: Seq<char>, others: Seq<Seq<char>>)
    ensures
        present((seq![item] + others).map_values(|i: Seq<char>| task_of(i))) == (match task_of(item) {
            Some(t) => seq![t],
            None => Seq::empty(),
        }) + present(others.map_values(|i: Seq<char>| task_of(i))),
        present((seq![item] + others).map_values(|i: Seq<char>| snapshot_result_of(i))) == (
        match snapshot_result_of(item) {
            Some(t) => seq![t],
            None => Seq::empty(),
        }) + present(others.map_values(|i: Seq<char>| snapshot_result_of(i))),
{
    let f = |i: Seq<char>| task_of(i);
    let g = |i: Seq<char>| snapshot_result_of(i);
    assert((seq![item] + others).map_values(f) == seq![task_of(item)] + others.map_values(f));
    assert((seq![item] + others).map_values(g) == seq![snapshot_result_of(item)]
        + others.map_values(g));
    law_present_values_are_kept(task_of(item), others.map_values(f));
    law_present_values_are_kept(snapshot_result_of(item), others.map_values(g));
}

/// Of a list, the values that are there are kept, in order.
pub proof fn law_present_values_are_kept<T>(first: Option<T>, others: Seq<Option<T>>)
    ensures
        present(Seq::<Option<T>>::empty()).len() == 0,
        present(seq![first] + others) == (match first {
            Some(t) => seq![t],
            None => Seq::empty(),
        }) + present(others),
    decreases others.len(),
{
    let all = seq![first] + others;
    let head = match first {
        Some(t) => seq![t],
        None => Seq::<T>::empty(),
    };
    if others.len() == 0 {
        assert(all.drop_last() == Seq::<Option<T>>::empty());
        assert(all.last() == first);
        assert(present(all.drop_last()) == Seq::<T>::empty());
        assert(present(all) == head);
        assert(present(others) == Seq::<T>::empty());
        assert(head + present(others) == head);
    } else {
        assert(all.drop_last() == seq![first] + others.drop_last());
        assert(all.last() == others.last());
        law_present_values_are_kept(first, others.drop_last());
        if let Some(t) = others.last() {
            assert((head + present(others.drop_last())).push(t) == head + present(
                others.drop_last(),
            ).push(t));
        }
    }
}

/// The names of the elements that are read out of records.
proof fn lemma_names()
    ensures
        is_name("amiId"@) && "amiId"@ != "item"@,
        is_name("imageId"@) && "imageId"@ != "item"@,
        is_name("bucket"@) && "bucket"@ != "item"@,
        is_name("s3objectKey"@) && "s3objectKey"@ != "item"@,
        is_name("s3ObjectKey"@) && "s3ObjectKey"@ != "item"@,
        is_name("objectKey"@) && "objectKey"@ != "item"@,
        is_name("storeTaskState"@) && "storeTaskState"@ != "item"@,
        is_name("state"@) && "state"@ != "item"@,
        is_name("storeTaskProgressPercentage"@) && "storeTaskProgressPercentage"@ != "item"@,
        is_name("progressPercentage"@) && "progressPercentage"@ != "item"@,
        is_name("snapshotId"@) && "snapshotId"@ != "item"@,
        is_name("returnCode"@) && "returnCode"@ != "item"@,
{
    reveal_strlit("item");
    reveal_strlit("amiId");
    reveal_strlit("imageId");
    reveal_strlit("bucket");
    reveal_strlit("s3objectKey");
    reveal_strlit("s3ObjectKey");
    reveal_strlit("objectKey");
    reveal_strlit("storeTaskState");
    reveal_strlit("state");
    reveal_strlit("storeTaskProgressPercentage");
    reveal_strlit("progressPercentage");
    reveal_strlit("snapshotId");
    reveal_strlit("returnCode");
    assert("state"@.len() == 5);
    assert("amiId"@.len() == 5);
    assert("item"@.len() == 4);
}

/// A store task that is written with the elements `amiId`, `bucket`, `s3objectKey` and
/// `storeTaskState` is read back with exactly these texts.
pub proof fn law_written_task_is_read_back(
    image: Seq<char>,
    bucket: Seq<char>,
    key: Seq<char>,
    state: Seq<char>,
)
    requires
        image.len() > 0,
        is_plain(image) && is_plain(bucket) && is_plain(key) && is_plain(state),
    ensures
        store_tasks(
            "<item><amiId>"@ + image + "</amiId><bucket>"@ + bucket + "</bucket><s3objectKey>"@ + key
                + "</s3objectKey><storeTaskState>"@ + state + "</storeTaskState></item>"@,
        ) == seq![
            StoreImageTaskView {
                image_id: image,
                bucket,
                object_key: key,
                state,
                progress: Seq::empty(),
            },
        ],
{
    let fields = seq![
        ("amiId"@, image),
        ("bucket"@, bucket),
        ("s3objectKey"@, key),
        ("storeTaskState"@, state),
    ];
    lemma_names();
    law_task_is_read_back(fields, Seq::empty());
    reveal_with_fuel(field, 5);
    reveal_with_fuel(fields_text, 5);
    lemma_four_fields(fields, image, bucket, key, state);
    reveal_strlit("<item>");
    assert(find(Seq::<char>::empty(), "<item>"@) is None);
    assert(record(fields) + Seq::<char>::empty() == record(fields));
}

/// The text of a record of four elements, and the texts of its elements.
proof fn lemma_four_fields(
    fields: Seq<(Seq<char>, Seq<char>)>,
    image: Seq<char>,
    bucket: Seq<char>,
    key: Seq<char>,
    state: Seq<char>,
)
    requires
        fields == seq![
            ("amiId"@, image),
            ("bucket"@, bucket),
            ("s3objectKey"@, key),
            ("storeTaskState"@, state),
        ],
    ensures
        record(fields) == "<item><amiId>"@ + image + "</amiId><bucket>"@ + bucket
            + "</bucket><s3objectKey>"@ + key + "</s3objectKey><storeTaskState>"@ + state
            + "</storeTaskState></item>"@,
        field(fields, "amiId"@) == Some(image),
        field(fields, "bucket"@) == Some(bucket),
        field(fields, "s3objectKey"@) == Some(key),
        field(fields, "storeTaskState"@) == Some(state),
        field(fields, "storeTaskProgressPercentage"@) is None,
        field(fields, "progressPercentage"@) is None,
{
    reveal_strlit("<");
    reveal_strlit(">");
    reveal_strlit("</");
    reveal_strlit("<item>");
    reveal_strlit("</item>");
    reveal_strlit("amiId");
    reveal_strlit("bucket");
    reveal_strlit("s3objectKey");
    reveal_strlit("storeTaskState");
    reveal_strlit("storeTaskProgressPercentage");
    reveal_strlit("progressPercentage");
    reveal_strlit("<item><amiId>");
    reveal_strlit("</amiId><bucket>");
    reveal_strlit("</bucket><s3objectKey>");
    reveal_strlit("</s3objectKey><storeTaskState>");
    reveal_strlit("</storeTaskState></item>");
    let b = fields.drop_first();
    let c = b.drop_first();
    let d = c.drop_first();
    assert(d.drop_first().len() == 0);
    assert("amiId"@.len() == 5 && "bucket"@.len() == 6 && "s3objectKey"@.len() == 11
        && "storeTaskState"@.len() == 14 && "storeTaskProgressPercentage"@.len() == 27
        && "progressPercentage"@.len() == 18);
    reveal_with_fuel(field, 6);
    assert(fields_text(d.drop_first()) == Seq::<char>::empty());
    assert(fields_text(d) == plain_element("storeTaskState"@, state));
    assert(fields_text(c) == plain_element("s3objectKey"@, key) + fields_text(d));
    assert(fields_text(b) == plain_element("bucket"@, bucket) + fields_text(c));
    assert(fields_text(fields) == plain_element("amiId"@, image) + fields_text(b));
    assert(record(fields) =~= "<item><amiId>"@ + image + "</amiId><bucket>"@ + bucket
        + "</bucket><s3objectKey>"@ + key + "</s3objectKey><storeTaskState>"@ + state
        + "</storeTaskState></item>"@);
}

/// A reply that lists records is read as a list of snapshots: a record that names a snapshot tells
/// of it with its return code, and every other record tells of none.
pub proof fn law_snapshot_result_is_read_back(fields: Seq<(Seq<char>, Seq<char>)>, rest: Seq<char>)
    requires
        are_fields(fields),
    ensures
        ({
            let snapshot = field(fields, "snapshotId"@);
            let code = field(fields, "returnCode"@);
            snapshot_results(record(fields) + rest) == (if snapshot is Some && snapshot->0.len() > 0 {
                seq![(snapshot->0, code.unwrap_or(Seq::<char>::empty()))]
            } else {
                Seq::empty()
            }) + snapshot_results(rest)
        }),
        find(rest, "<item>"@) is None ==> snapshot_results(rest).len() == 0,
{
    law_records_are_read_in_order(fields, rest);
    lemma_names();
    lemma_present(record(fields), item_chunks(rest));
    law_record_is_read_back(fields, "snapshotId"@);
    law_record_is_read_back(fields, "returnCode"@);
    lemma_tag_first_two(record(fields), "snapshotId"@, "returnCode"@);
    lemma_tag_first_two(record(fields), "returnCode"@, "snapshotId"@);
    assert(item_chunks(rest).len() == 0 ==> snapshot_results(rest).len() == 0);
}

/// Each markup character is written as its entity, and every other character as itself; a text is
/// written character by character.
pub proof fn law_markup_is_escaped(a: Seq<char>, c: char, b: Seq<char>)
    ensures
        escaped(a + b) == escaped(a) + escaped(b),
        escaped(seq![c]) == (match c {
            '&' => "&amp;"@,
            '<' => "&lt;"@,
            '>' => "&gt;"@,
            '"' => "&quot;"@,
            '\'' => "&apos;"@,
            _ => seq![c],
        }),
    decreases a.len(),
{
    assert(seq![c].drop_first().len() == 0);
    assert(escaped(seq![c].drop_first()) == Seq::<char>::empty());
    assert(entity(c) + Seq::<char>::empty() == entity(c));
    if a.len() == 0 {
        assert(a + b == b);
        assert(escaped(a) + escaped(b) == escaped(b));
    } else {
        law_markup_is_escaped(a.drop_first(), c, b);
        assert((a + b).drop_first() == a.drop_first() + b);
        assert(entity(a[0]) + (escaped(a.drop_first()) + escaped(b)) == escaped(a) + escaped(b));
    }
}

/// What is looked for is found where it first stands, whatever follows it.
proof fn lemma_find_first(a: Seq<char>, pat: Seq<char>, rest: Seq<char>)
    requires
        find(a + pat, pat) == Some(a.len() as int),
    ensures
        find(a + pat + rest, pat) == Some(a.len() as int),
    decreases a.len(),
{
    let s = a + pat;
    let t = a + pat + rest;
    if a.len() == 0 {
        assert(t.subrange(0, pat.len() as int) == pat);
    } else {
        assert(s.drop_first() == a.drop_first() + pat);
        assert(t.drop_first() == a.drop_first() + pat + rest);
        assert(s.subrange(0, pat.len() as int) == t.subrange(0, pat.len() as int));
        lemma_find_first(a.drop_first(), pat, rest);
    }
}

/// An element is read wherever it first stands: its text goes up to the next end of an element of
/// its name, and the white space around it does not count. The elements behind it follow.
pub proof fn law_elements_are_read_in_order(
    tag: Seq<char>,
    head: Seq<char>,
    inner: Seq<char>,
    rest: Seq<char>,
)
    requires
        find(head + ("<"@ + tag + ">"@), "<"@ + tag + ">"@) == Some(head.len() as int),
        find(inner + ("</"@ + tag + ">"@), "</"@ + tag + ">"@) == Some(inner.len() as int),
    ensures
        ({
            let body = head + ("<"@ + tag + ">"@) + (inner + ("</"@ + tag + ">"@) + rest);
            &&& tag_one(body, tag) == Some(unescaped(trimmed(inner)))
            &&& tags_all(body, tag) == seq![unescaped(trimmed(inner))] + tags_all(rest, tag)
        }),
{
    reveal_strlit("<");
    reveal_strlit(">");
    reveal_strlit("</");
    let open = opening(tag);
    let close = closing(tag);
    assert("<"@ + tag + ">"@ == open);
    assert("</"@ + tag + ">"@ == close);
    let behind = inner + close + rest;
    let body = head + open + behind;
    lemma_find_first(head, open, behind);
    lemma_find_first(inner, close, rest);
    assert(body.skip((head.len() + open.len()) as int) == behind);
    assert(behind.take(inner.len() as int) == inner);
    assert(behind.skip((inner.len() + close.len()) as int) == rest);
}

/// An element that does not begin, or does not end, is not there.
pub proof fn law_elements_begin_and_end(body: Seq<char>, tag: Seq<char>)
    requires
        find(body, "<"@ + tag + ">"@) is None || find(body, "</"@ + tag + ">"@) is None,
    ensures
        tag_one(body, tag) is None,
        tags_all(body, tag).len() == 0,
{
    reveal_strlit("<");
    reveal_strlit(">");
    reveal_strlit("</");
    let open = opening(tag);
    let close = closing(tag);
    assert("<"@ + tag + ">"@ == open);
    assert("</"@ + tag + ">"@ == close);
    if let Some(i) = find(body, open) {
        lemma_find(body, open);
        let inner = body.skip(i + open.len());
        lemma_find(inner, close);
        lemma_find(body, close);
        if let Some(j) = find(inner, close) {
            let k = i + open.len() + j;
            assert(body.subrange(k, k + close.len()) == inner.subrange(j, j + close.len()));
            assert(occurs_at(body, close, k));
        }
    }
}

/// The first of several names that an element has counts.
pub proof fn law_first_name_counts(body: Seq<char>, tag: Seq<char>, others: Seq<Seq<char>>)
    ensures
        tag_first(body, Seq::empty()) is None,
        tag_one(body, tag) is Some ==> tag_first(body, seq![tag] + others) == tag_one(body, tag),
        tag_one(body, tag) is None ==> tag_first(body, seq![tag] + others) == tag_first(
            body,
            others,
        ),
{
    let all = seq![tag] + others;
    assert(all[0] == tag);
    assert(all.drop_first() == others);
}

/// The items of a reply are read in order: an item goes from its beginning up to the next end of
/// an item, both of them included, and what stands between items does not count.
pub proof fn law_items_are_read_in_order(head: Seq<char>, inner: Seq<char>, rest: Seq<char>)
    requires
        find(head + "<item>"@, "<item>"@) == Some(head.len() as int),
        find("<item>"@ + inner + "</item>"@, "</item>"@) == Some(
            ("<item>"@.len() + inner.len()) as int,
        ),
    ensures
        item_chunks(head + ("<item>"@ + inner + "</item>"@) + rest) == seq![
            "<item>"@ + inner + "</item>"@,
        ] + item_chunks(rest),
        find(rest, "<item>"@) is None || find(rest, "</item>"@) is None ==> item_chunks(rest).len()
            == 0,
{
    let open = "<item>"@;
    let close = "</item>"@;
    let item = open + inner + close;
    let body = head + item + rest;
    lemma_find_first(head, open, inner + close + rest);
    assert(body == head + open + (inner + close + rest));
    lemma_find_first(open + inner, close, rest);
    assert(body.skip(head.len() as int) == open + inner + close + rest);
    assert(first_item(body) == Some((head.len() as int, (head.len() + item.len()) as int)));
    assert(body.subrange(head.len() as int, (head.len() + item.len()) as int) == item);
    assert(body.skip((head.len() + item.len()) as int) == rest);
    if let Some(i) = find(rest, open) {
        lemma_find(rest, open);
        lemma_find(rest, close);
        lemma_find(rest.skip(i), close);
        if let Some(j) = find(rest.skip(i), close) {
            assert(rest.subrange(i + j, i + j + close.len()) == rest.skip(i).subrange(
                j,
                j + close.len(),
            ));
            assert(occurs_at(rest, close, i + j));
        }
    }
}

}
