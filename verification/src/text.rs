//! Text as a sequence of characters: searching, trimming, splitting and joining.
//!
//! Every function here is stated over `Seq<char>`, the view of `str` and `String`.
use vstd::prelude::*;
use vstd::string::*;

verus! {

/// `String::push` appends the given character to the end of the string.
pub assume_specification[ String::push ](s: &mut String, c: char)
    ensures
        final(s)@ == old(s)@.push(c),
;

/// The texts of a list of strings.
pub open spec fn texts(list: Seq<String>) -> Seq<Seq<char>> {
    list.map_values(|s: String| s@)
}

/// The texts of a list of string slices.
pub open spec fn slices(list: Seq<&str>) -> Seq<Seq<char>> {
    list.map_values(|s: &str| s@)
}

/// The texts of a list of pairs of strings.
pub open spec fn pair_texts(list: Seq<(String, String)>) -> Seq<(Seq<char>, Seq<char>)> {
    list.map_values(|p: (String, String)| (p.0@, p.1@))
}

/// The text of an optional string.
pub open spec fn opt_text(s: Option<String>) -> Option<Seq<char>> {
    match s {
        Some(t) => Some(t@),
        None => None,
    }
}

/// The characters of `s`, in order.
pub fn to_chars(s: &str) -> (v: Vec<char>)
    ensures
        v@ == s@,
{
    let mut v: Vec<char> = Vec::new();
    for c in it: s.chars()
        invariant
            v@ == it.seq().take(it.index() as int),
            it.seq() == s@,
    {
        v.push(c);
    }
    v
}

/// The string made of the characters of `v` from `from` up to, but not including, `to`.
pub fn from_chars(v: &Vec<char>, from: usize, to: usize) -> (s: String)
    requires
        from <= to <= v@.len(),
    ensures
        s@ == v@.subrange(from as int, to as int),
{
    let mut s = String::new();
    for i in from..to
        invariant
            from <= to <= v@.len(),
            s@ == v@.subrange(from as int, i as int),
    {
        s.push(v[i]);
    }
    s
}

/// Whether the two texts are the same.
pub fn same(a: &str, b: &str) -> (r: bool)
    ensures
        r == (a@ == b@),
{
    let x = to_chars(a);
    let y = to_chars(b);
    if x.len() != y.len() {
        return false;
    }
    for i in 0..x.len()
        invariant
            x@.len() == y@.len(),
            x@ == a@,
            y@ == b@,
            x@.take(i as int) == y@.take(i as int),
    {
        if x[i] != y[i] {
            return false;
        }
        assert(x@.take(i + 1) == x@.take(i as int).push(x@[i as int]));
        assert(y@.take(i + 1) == y@.take(i as int).push(y@[i as int]));
    }
    assert(x@.take(x@.len() as int) == x@);
    assert(y@.take(y@.len() as int) == y@);
    true
}

/// The index of the first occurrence of `pat` in `s`.
pub open spec fn find(s: Seq<char>, pat: Seq<char>) -> Option<int>
    decreases s.len(),
{
    if s.len() < pat.len() {
        None
    } else if pat.is_prefix_of(s) {
        Some(0)
    } else if s.len() == 0 {
        None
    } else {
        match find(s.drop_first(), pat) {
            Some(i) => Some(i + 1),
            None => None,
        }
    }
}

/// `pat` stands in `s` at index `i`.
pub open spec fn occurs_at(s: Seq<char>, pat: Seq<char>, i: int) -> bool {
    0 <= i <= s.len() - pat.len() && s.subrange(i, i + pat.len()) == pat
}

/// `find` gives the least index at which the pattern stands, and gives nothing only where the
/// pattern stands nowhere.
pub proof fn lemma_find(s: Seq<char>, pat: Seq<char>)
    ensures
        match find(s, pat) {
            Some(i) => occurs_at(s, pat, i) && (forall|j: int| 0 <= j < i ==> !occurs_at(s, pat, j)),
            None => forall|j: int| !occurs_at(s, pat, j),
        },
    decreases s.len(),
{
    if s.len() < pat.len() {
    } else if pat.is_prefix_of(s) {
        assert(s.subrange(0, pat.len() as int) == pat);
    } else if s.len() == 0 {
    } else {
        let t = s.drop_first();
        lemma_find(t, pat);
        assert(!occurs_at(s, pat, 0)) by {
            if occurs_at(s, pat, 0) {
                assert(pat == s.subrange(0, pat.len() as int));
            }
        }
        assert forall|j: int| 1 <= j implies occurs_at(s, pat, j) == occurs_at(t, pat, j - 1) by {
            if j <= s.len() - pat.len() {
                assert(s.subrange(j, j + pat.len()) =~= t.subrange(j - 1, j - 1 + pat.len()));
            }
        }
        match find(t, pat) {
            Some(i) => {
                assert(occurs_at(t, pat, i));
                assert(occurs_at(s, pat, i + 1));
                assert forall|j: int| 0 <= j < i + 1 implies !occurs_at(s, pat, j) by {
                    if j >= 1 {
                        assert(!occurs_at(t, pat, j - 1));
                    }
                }
            },
            None => {
                assert forall|j: int| !occurs_at(s, pat, j) by {
                    if j >= 1 {
                        assert(!occurs_at(t, pat, j - 1));
                    }
                }
            },
        }
    }
}

/// Where no character of `head` is the first of `pat`, the first occurrence of `pat` in `head`
/// followed by `pat` is the one after `head`.
pub proof fn lemma_find_after(head: Seq<char>, pat: Seq<char>, rest: Seq<char>)
    requires
        pat.len() > 0,
        forall|i: int| 0 <= i < head.len() ==> head[i] != pat[0],
    ensures
        find(head + pat + rest, pat) == Some(head.len() as int),
    decreases head.len(),
{
    let s = head + pat + rest;
    if head.len() == 0 {
        assert(pat == s.subrange(0, pat.len() as int));
    } else {
        assert(s[0] == head[0]);
        assert(!pat.is_prefix_of(s)) by {
            if pat.is_prefix_of(s) {
                assert(s.subrange(0, pat.len() as int)[0] == pat[0]);
            }
        }
        assert(s.drop_first() == head.drop_first() + pat + rest);
        lemma_find_after(head.drop_first(), pat, rest);
    }
}

/// Whether `pat` stands in `v` at index `i`.
fn stands_at(v: &Vec<char>, pat: &Vec<char>, i: usize) -> (r: bool)
    requires
        i <= v@.len(),
    ensures
        r == pat@.is_prefix_of(v@.skip(i as int)),
{
    if v.len() - i < pat.len() {
        return false;
    }
    for k in 0..pat.len()
        invariant
            i + pat.len() <= v.len(),
            forall|m: int| 0 <= m < k ==> v@[i + m] == pat@[m],
    {
        if v[i + k] != pat[k] {
            assert(v@.skip(i as int)[k as int] != pat@[k as int]);
            return false;
        }
    }
    assert(pat@ == v@.skip(i as int).subrange(0, pat@.len() as int));
    true
}

/// The index in `v`, at or after `from`, of the first occurrence of `pat`.
pub fn find_from(v: &Vec<char>, pat: &Vec<char>, from: usize) -> (r: Option<usize>)
    requires
        from <= v@.len(),
    ensures
        match r {
            Some(i) => from <= i && i + pat.len() <= v.len() && find(v@.skip(from as int), pat@) == Some(
                i - from,
            ),
            None => find(v@.skip(from as int), pat@) is None,
        },
{
    let mut i: usize = from;
    while v.len() - i >= pat.len()
        invariant
            from <= i <= v@.len(),
            match find(v@.skip(i as int), pat@) {
                Some(k) => find(v@.skip(from as int), pat@) == Some(k + (i - from)),
                None => find(v@.skip(from as int), pat@) is None,
            },
        decreases v@.len() - i,
    {
        if stands_at(v, pat, i) {
            return Some(i);
        }
        if i == v.len() {
            assert(v@.skip(i as int).len() == 0);
            return None;
        }
        assert(v@.skip(i as int).drop_first() == v@.skip(i + 1));
        i += 1;
    }
    None
}

/// Whether `pat` stands somewhere in `s`.
pub fn contains(s: &str, pat: &str) -> (r: bool)
    ensures
        r == (find(s@, pat@) is Some),
{
    let v = to_chars(s);
    assert(v@.skip(0) == v@);
    match find_from(&v, &to_chars(pat), 0) {
        Some(_) => true,
        None => false,
    }
}

/// Whether `s` begins with `prefix`.
pub fn starts_with(s: &str, prefix: &str) -> (r: bool)
    ensures
        r == prefix@.is_prefix_of(s@),
{
    let v = to_chars(s);
    assert(v@.skip(0) == v@);
    stands_at(&v, &to_chars(prefix), 0)
}

/// `s` with every occurrence of `pat` replaced by `with`, from left to right and without overlap.
pub open spec fn replaced(s: Seq<char>, pat: Seq<char>, with: Seq<char>) -> Seq<char>
    decreases s.len(),
{
    if pat.len() == 0 || s.len() < pat.len() {
        s
    } else if pat.is_prefix_of(s) {
        with + replaced(s.skip(pat.len() as int), pat, with)
    } else {
        seq![s[0]] + replaced(s.drop_first(), pat, with)
    }
}

/// Replaces every occurrence of `pat` by `with`.
pub fn replace(s: &str, pat: &str, with: &str) -> (r: String)
    requires
        pat@.len() > 0,
    ensures
        r@ == replaced(s@, pat@, with@),
{
    let v = to_chars(s);
    let p = to_chars(pat);
    let mut out = String::new();
    let mut i: usize = 0;
    assert(v@.skip(0) == v@);
    assert(out@ + replaced(v@, p@, with@) == replaced(v@, p@, with@));
    while i < v.len()
        invariant
            i <= v@.len(),
            p@ == pat@,
            p@.len() > 0,
            out@ + replaced(v@.skip(i as int), p@, with@) == replaced(v@, p@, with@),
        decreases v@.len() - i,
    {
        let ghost before = out@;
        let ghost rest = v@.skip(i as int);
        if stands_at(&v, &p, i) {
            out.append(with);
            assert(rest.skip(p@.len() as int) == v@.skip(i + p@.len()));
            assert(before + (with@ + replaced(rest.skip(p@.len() as int), p@, with@)) == out@
                + replaced(v@.skip(i + p@.len()), p@, with@));
            i += p.len();
        } else {
            out.push(v[i]);
            assert(rest.drop_first() == v@.skip(i + 1));
            proof {
                if rest.len() < p@.len() {
                    assert(rest == seq![rest[0]] + rest.drop_first());
                }
            }
            assert(before + (seq![rest[0]] + replaced(rest.drop_first(), p@, with@)) == out@
                + replaced(v@.skip(i + 1), p@, with@));
            i += 1;
        }
    }
    assert(v@.skip(i as int).len() == 0);
    assert(out@ + replaced(v@.skip(i as int), p@, with@) == out@);
    out
}


/// A character with the Unicode property White_Space.
pub open spec fn is_white(c: char) -> bool {
    let n = c as u32;
    9 <= n <= 13 || n == 0x20 || n == 0x85 || n == 0xA0 || n == 0x1680 || 0x2000 <= n <= 0x200A
        || n == 0x2028 || n == 0x2029 || n == 0x202F || n == 0x205F || n == 0x3000
}

/// Whether `c` is white space.
pub fn is_white_space(c: char) -> (r: bool)
    ensures
        r == is_white(c),
{
    let n: u32 = c as u32;
    9 <= n && n <= 13 || n == 0x20 || n == 0x85 || n == 0xA0 || n == 0x1680 || 0x2000 <= n && n
        <= 0x200A || n == 0x2028 || n == 0x2029 || n == 0x202F || n == 0x205F || n == 0x3000
}

/// `s` without the leading characters that satisfy `p`.
pub open spec fn strip_start(s: Seq<char>, p: spec_fn(char) -> bool) -> Seq<char>
    decreases s.len(),
{
    if s.len() > 0 && p(s[0]) {
        strip_start(s.drop_first(), p)
    } else {
        s
    }
}

/// `s` without the trailing characters that satisfy `p`.
pub open spec fn strip_end(s: Seq<char>, p: spec_fn(char) -> bool) -> Seq<char>
    decreases s.len(),
{
    if s.len() > 0 && p(s.last()) {
        strip_end(s.drop_last(), p)
    } else {
        s
    }
}

/// `s` without its leading and trailing white space.
pub open spec fn trimmed(s: Seq<char>) -> Seq<char> {
    strip_end(strip_start(s, |c: char| is_white(c)), |c: char| is_white(c))
}

/// The bounds within `from..to` of the text of `v` that is left when the white space at both ends
/// is gone.
pub fn trim_bounds(v: &Vec<char>, from: usize, to: usize) -> (r: (usize, usize))
    requires
        from <= to <= v@.len(),
    ensures
        from <= r.0 <= r.1 <= to,
        v@.subrange(r.0 as int, r.1 as int) == trimmed(v@.subrange(from as int, to as int)),
{
    let ghost white = |c: char| is_white(c);
    let ghost whole = v@.subrange(from as int, to as int);
    let mut a: usize = from;
    while a < to && is_white_space(v[a])
        invariant
            from <= a <= to <= v@.len(),
            white == (|c: char| is_white(c)),
            whole == v@.subrange(from as int, to as int),
            strip_start(v@.subrange(a as int, to as int), white) == strip_start(whole, white),
        decreases to - a,
    {
        assert(v@.subrange(a as int, to as int).drop_first() == v@.subrange(a + 1, to as int));
        a += 1;
    }
    let ghost left = v@.subrange(a as int, to as int);
    assert(strip_start(left, white) == left) by {
        if a < to {
            assert(left[0] == v@[a as int]);
        }
    }
    let mut b: usize = to;
    while a < b && is_white_space(v[b - 1])
        invariant
            from <= a <= b <= to <= v@.len(),
            white == (|c: char| is_white(c)),
            left == v@.subrange(a as int, to as int),
            strip_end(v@.subrange(a as int, b as int), white) == strip_end(left, white),
        decreases b,
    {
        assert(v@.subrange(a as int, b as int).drop_last() == v@.subrange(a as int, b - 1));
        b -= 1;
    }
    let ghost inner = v@.subrange(a as int, b as int);
    assert(strip_end(inner, white) == inner) by {
        if a < b {
            assert(inner.last() == v@[b - 1]);
        }
    }
    (a, b)
}

/// The part of `v` between `from` and `to`, trimmed of white space.
pub fn trim_part(v: &Vec<char>, from: usize, to: usize) -> (r: String)
    requires
        from <= to <= v@.len(),
    ensures
        r@ == trimmed(v@.subrange(from as int, to as int)),
{
    let (a, b) = trim_bounds(v, from, to);
    from_chars(v, a, b)
}

/// `s` trimmed of white space.
pub fn trim(s: &str) -> (r: String)
    ensures
        r@ == trimmed(s@),
{
    let v = to_chars(s);
    assert(v@.subrange(0, v@.len() as int) == s@);
    trim_part(&v, 0, v.len())
}

/// The words of `cur` followed by `s`: the runs of characters that are not white space, where
/// `cur` is the part read so far of the word that `s` goes on with.
pub open spec fn words_from(s: Seq<char>, cur: Seq<char>) -> Seq<Seq<char>>
    decreases s.len(),
{
    let done = if cur.len() == 0 {
        Seq::<Seq<char>>::empty()
    } else {
        seq![cur]
    };
    if s.len() == 0 {
        done
    } else if is_white(s[0]) {
        done + words_from(s.drop_first(), Seq::empty())
    } else {
        words_from(s.drop_first(), cur.push(s[0]))
    }
}

/// The words of `s`: its runs of characters that are not white space.
pub open spec fn words_of(s: Seq<char>) -> Seq<Seq<char>> {
    words_from(s, Seq::empty())
}

/// Splits `s` into its words.
pub fn words(s: &str) -> (r: Vec<String>)
    ensures
        texts(r@) == words_of(s@),
{
    let v = to_chars(s);
    let mut out: Vec<String> = Vec::new();
    let mut cur = String::new();
    assert(v@.skip(0) == v@);
    assert(texts(out@) + words_from(v@, cur@) == words_of(v@));
    for i in 0..v.len()
        invariant
            texts(out@) + words_from(v@.skip(i as int), cur@) == words_of(v@),
    {
        let ghost rest = v@.skip(i as int);
        assert(rest.drop_first() == v@.skip(i + 1));
        if is_white_space(v[i]) {
            if !cur.as_str().is_empty() {
                let ghost before = texts(out@);
                let ghost word = cur@;
                out.push(cur);
                cur = String::new();
                assert(texts(out@) == before.push(word));
                assert(before + (seq![word] + words_from(v@.skip(i + 1), Seq::empty())) == texts(
                    out@,
                ) + words_from(v@.skip(i + 1), Seq::empty()));
            }
            assert(cur@ == Seq::<char>::empty());
        } else {
            cur.push(v[i]);
        }
    }
    assert(v@.skip(v@.len() as int).len() == 0);
    if !cur.as_str().is_empty() {
        let ghost before = texts(out@);
        let ghost word = cur@;
        out.push(cur);
        assert(texts(out@) == before.push(word));
    }
    out
}

/// The texts of `parts`, each but the first preceded by `sep`.
pub open spec fn joined(parts: Seq<Seq<char>>, sep: Seq<char>) -> Seq<char>
    decreases parts.len(),
{
    if parts.len() == 0 {
        Seq::empty()
    } else if parts.len() == 1 {
        parts[0]
    } else {
        joined(parts.drop_last(), sep) + sep + parts.last()
    }
}

/// Joins `parts` with `sep` between them.
pub fn join(parts: &Vec<String>, sep: &str) -> (r: String)
    ensures
        r@ == joined(texts(parts@), sep@),
{
    let mut out = String::new();
    let ghost all = texts(parts@);
    for i in 0..parts.len()
        invariant
            all == texts(parts@),
            out@ == joined(all.take(i as int), sep@),
    {
        assert(all.take(i + 1).drop_last() == all.take(i as int));
        if i > 0 {
            out.append(sep);
        }
        out.append(parts[i].as_str());
        assert(all.take(1).len() == 1);
        assert(out@ == joined(all.take(i + 1), sep@));
    }
    assert(all.take(all.len() as int) == all);
    out
}

/// The pieces of `cur` followed by `s` between the characters `sep`, where `cur` is the part read
/// so far of the first piece.
pub open spec fn split_from(s: Seq<char>, sep: char, cur: Seq<char>) -> Seq<Seq<char>>
    decreases s.len(),
{
    if s.len() == 0 {
        seq![cur]
    } else if s[0] == sep {
        seq![cur] + split_from(s.drop_first(), sep, Seq::empty())
    } else {
        split_from(s.drop_first(), sep, cur.push(s[0]))
    }
}

/// The pieces of `s` between the characters `sep`.
pub open spec fn split_of(s: Seq<char>, sep: char) -> Seq<Seq<char>> {
    split_from(s, sep, Seq::empty())
}

/// There is always a first piece.
pub proof fn lemma_split_not_empty(s: Seq<char>, sep: char, cur: Seq<char>)
    ensures
        split_from(s, sep, cur).len() > 0,
    decreases s.len(),
{
    if s.len() > 0 && s[0] != sep {
        lemma_split_not_empty(s.drop_first(), sep, cur.push(s[0]));
    }
}

/// Splits `s` at every `sep`.
pub fn split(s: &str, sep: char) -> (r: Vec<String>)
    ensures
        texts(r@) == split_of(s@, sep),
{
    let v = to_chars(s);
    let mut out: Vec<String> = Vec::new();
    let mut cur = String::new();
    assert(v@.skip(0) == v@);
    assert(texts(out@) + split_from(v@, sep, cur@) == split_of(v@, sep));
    for i in 0..v.len()
        invariant
            texts(out@) + split_from(v@.skip(i as int), sep, cur@) == split_of(v@, sep),
    {
        assert(v@.skip(i as int).drop_first() == v@.skip(i + 1));
        if v[i] == sep {
            let ghost before = texts(out@);
            let ghost piece = cur@;
            out.push(cur);
            cur = String::new();
            assert(texts(out@) == before.push(piece));
            assert(before + (seq![piece] + split_from(v@.skip(i + 1), sep, Seq::empty())) == texts(
                out@,
            ) + split_from(v@.skip(i + 1), sep, cur@));
        } else {
            cur.push(v[i]);
        }
    }
    assert(v@.skip(v@.len() as int).len() == 0);
    let ghost before = texts(out@);
    let ghost piece = cur@;
    out.push(cur);
    assert(texts(out@) == before.push(piece));
    out
}

/// `c`, in lower case where it is an ASCII upper case letter.
pub open spec fn lower(c: char) -> char {
    if 'A' <= c <= 'Z' {
        (c as u32 + 32) as char
    } else {
        c
    }
}

/// `s` with its ASCII upper case letters in lower case.
pub open spec fn lowered(s: Seq<char>) -> Seq<char> {
    s.map_values(|c: char| lower(c))
}

/// `c`, in lower case where it is an ASCII upper case letter.
pub fn lower_char(c: char) -> (r: char)
    ensures
        r == lower(c),
{
    if 'A' <= c && c <= 'Z' {
        let b: u8 = c as u8;
        (b + 32) as char
    } else {
        c
    }
}

/// `s` with its ASCII upper case letters in lower case.
pub fn to_lower(s: &str) -> (r: String)
    ensures
        r@ == lowered(s@),
{
    let v = to_chars(s);
    let mut out = String::new();
    for i in 0..v.len()
        invariant
            out@ == lowered(v@.take(i as int)),
    {
        out.push(lower_char(v[i]));
        assert(lowered(v@.take(i + 1)) == lowered(v@.take(i as int)).push(lower(v@[i as int])));
    }
    assert(v@.take(v@.len() as int) == v@);
    out
}

/// Whether the two texts are the same but for the case of ASCII letters.
pub fn same_but_case(a: &str, b: &str) -> (r: bool)
    ensures
        r == (lowered(a@) == lowered(b@)),
{
    same(to_lower(a).as_str(), to_lower(b).as_str())
}

/// `s` stands before `t` in the order of their characters' code points.
pub open spec fn before(s: Seq<char>, t: Seq<char>) -> bool
    decreases t.len(),
{
    if t.len() == 0 {
        false
    } else if s.len() == 0 {
        true
    } else if s[0] != t[0] {
        s[0] < t[0]
    } else {
        before(s.drop_first(), t.drop_first())
    }
}

/// Whether `s` stands before `t` in the order of their characters' code points.
pub fn is_before(s: &str, t: &str) -> (r: bool)
    ensures
        r == before(s@, t@),
{
    let x = to_chars(s);
    let y = to_chars(t);
    let mut i: usize = 0;
    assert(x@.skip(0) == x@);
    assert(y@.skip(0) == y@);
    while i < y.len()
        invariant
            i <= x@.len(),
            i <= y@.len(),
            x@ == s@,
            y@ == t@,
            before(x@.skip(i as int), y@.skip(i as int)) == before(s@, t@),
        decreases y@.len() - i,
    {
        if i == x.len() {
            return true;
        }
        if x[i] != y[i] {
            return x[i] < y[i];
        }
        assert(x@.skip(i as int).drop_first() == x@.skip(i + 1));
        assert(y@.skip(i as int).drop_first() == y@.skip(i + 1));
        i += 1;
    }
    false
}

/// No text stands before itself.
pub proof fn lemma_before_irreflexive(s: Seq<char>)
    ensures
        !before(s, s),
    decreases s.len(),
{
    if s.len() > 0 {
        lemma_before_irreflexive(s.drop_first());
    }
}

/// Of two texts that differ, one stands before the other, and not the other way round.
pub proof fn lemma_before_total(s: Seq<char>, t: Seq<char>)
    ensures
        before(s, t) ==> !before(t, s),
        before(s, t) || before(t, s) || s == t,
    decreases s.len(),
{
    if s.len() > 0 && t.len() > 0 {
        lemma_before_total(s.drop_first(), t.drop_first());
        if s[0] == t[0] && s.drop_first() == t.drop_first() {
            assert(s == seq![s[0]] + s.drop_first());
            assert(t == seq![t[0]] + t.drop_first());
        }
    } else if s.len() == 0 && t.len() == 0 {
        assert(s == t);
    }
}

/// `before` is transitive.
pub proof fn lemma_before_transitive(s: Seq<char>, t: Seq<char>, u: Seq<char>)
    requires
        before(s, t),
        before(t, u),
    ensures
        before(s, u),
    decreases s.len(),
{
    if s.len() > 0 && s[0] == t[0] && t[0] == u[0] {
        lemma_before_transitive(s.drop_first(), t.drop_first(), u.drop_first());
    }
}

/// Trimming takes white space from the two ends of a text, all of it and nothing else.
pub proof fn law_trimming_takes_white_space(s: Seq<char>)
    ensures
        trimmed(s).len() > 0 ==> !is_white(trimmed(s)[0]) && !is_white(trimmed(s).last()),
        exists|from: int, to: int|
            {
                &&& 0 <= from <= to <= s.len()
                &&& trimmed(s) == #[trigger] s.subrange(from, to)
                &&& forall|i: int|
                    0 <= i < from || to <= i < s.len() ==> is_white(#[trigger] s[i])
            },
{
    let white = |c: char| is_white(c);
    let from = lemma_strip_start(s, white);
    let left = s.skip(from);
    let kept = lemma_strip_end(left, white);
    let to = from + kept;
    assert(trimmed(s) == left.take(kept));
    assert(left.take(kept) == s.subrange(from, to));
    assert forall|i: int| 0 <= i < from || to <= i < s.len() implies is_white(#[trigger] s[i]) by {
        if i >= to {
            assert(left[i - from] == s[i]);
        } else {
            assert(white(s[i]));
        }
    }
    if kept > 0 {
        assert(left.take(kept)[0] == left[0]);
        assert(!white(left[0]));
        assert(!white(left.take(kept).last()));
    }
}

/// How many characters are stripped at the start.
proof fn lemma_strip_start(s: Seq<char>, p: spec_fn(char) -> bool) -> (n: int)
    ensures
        0 <= n <= s.len(),
        strip_start(s, p) == s.skip(n),
        forall|i: int| 0 <= i < n ==> p(#[trigger] s[i]),
        n < s.len() ==> !p(s[n]),
    decreases s.len(),
{
    if s.len() > 0 && p(s[0]) {
        let n = lemma_strip_start(s.drop_first(), p);
        assert(s.drop_first().skip(n) == s.skip(n + 1));
        assert forall|i: int| 0 <= i < n + 1 implies p(#[trigger] s[i]) by {
            if i > 0 {
                assert(s.drop_first()[i - 1] == s[i]);
            }
        }
        n + 1
    } else {
        assert(s.skip(0) == s);
        0
    }
}

/// How many characters are left when the end is stripped.
proof fn lemma_strip_end(s: Seq<char>, p: spec_fn(char) -> bool) -> (n: int)
    ensures
        0 <= n <= s.len(),
        strip_end(s, p) == s.take(n),
        forall|i: int| n <= i < s.len() ==> p(#[trigger] s[i]),
        n > 0 ==> !p(s[n - 1]),
    decreases s.len(),
{
    if s.len() > 0 && p(s.last()) {
        let n = lemma_strip_end(s.drop_last(), p);
        assert(s.drop_last().take(n) == s.take(n));
        assert forall|i: int| n <= i < s.len() implies p(#[trigger] s[i]) by {
            if i < s.len() - 1 {
                assert(s.drop_last()[i] == s[i]);
            }
        }
        n
    } else {
        assert(s.take(s.len() as int) == s);
        s.len() as int
    }
}

/// White space around a text that is to be trimmed does not matter, and a text that has none at
/// its ends stays as it is.
pub proof fn law_white_space_around_does_not_matter(a: Seq<char>, s: Seq<char>, b: Seq<char>)
    requires
        forall|i: int| 0 <= i < a.len() ==> is_white(#[trigger] a[i]),
        forall|i: int| 0 <= i < b.len() ==> is_white(#[trigger] b[i]),
        s.len() > 0 ==> !is_white(s[0]) && !is_white(s.last()),
    ensures
        trimmed(a + s + b) == s,
{
    let white = |c: char| is_white(c);
    let t = a + s + b;
    let from = lemma_strip_start(t, white);
    let left = t.skip(from);
    let kept = lemma_strip_end(left, white);
    if s.len() == 0 {
        if from < t.len() {
            assert(white(t[from]));
        }
        assert(left.len() == 0);
    } else {
        assert(t[a.len() as int] == s[0]);
        if from < a.len() {
            assert(t[from] == a[from]);
            assert(white(t[from]));
        }
        if from > a.len() {
            assert(white(t[a.len() as int]));
        }
        let n = s.len() as int;
        assert(left[n - 1] == s.last());
        if kept > n {
            assert(left[kept - 1] == b[kept - 1 - n]);
            assert(white(left[kept - 1]));
        }
        if kept < n {
            assert(white(left[n - 1]));
        }
        assert(left.take(n) == s);
    }
}

/// Splitting cuts a text apart at every separator and nowhere else: no piece holds one, and the
/// pieces joined with separators between them are the text.
pub proof fn law_pieces_join_to_the_text(s: Seq<char>, sep: char)
    ensures
        joined(split_of(s, sep), seq![sep]) == s,
        forall|i: int| 0 <= i < split_of(s, sep).len() ==> !(#[trigger] split_of(s, sep)[i]).contains(sep),
{
    lemma_split_joined(s, sep, Seq::empty());
    assert(Seq::<char>::empty() + s == s);
}

/// What the pieces are, where the first was partly read.
proof fn lemma_split_joined(s: Seq<char>, sep: char, cur: Seq<char>)
    requires
        !cur.contains(sep),
    ensures
        joined(split_from(s, sep, cur), seq![sep]) == cur + s,
        forall|i: int|
            0 <= i < split_from(s, sep, cur).len() ==> !(#[trigger] split_from(s, sep, cur)[i]).contains(
                sep,
            ),
    decreases s.len(),
{
    let parts = split_from(s, sep, cur);
    if s.len() == 0 {
        assert(cur + s == cur);
    } else if s[0] == sep {
        let rest = split_from(s.drop_first(), sep, Seq::empty());
        lemma_split_joined(s.drop_first(), sep, Seq::empty());
        lemma_split_not_empty(s.drop_first(), sep, Seq::empty());
        law_joined_lists_are_joined(seq![cur], rest, seq![sep]);
        assert(Seq::<char>::empty() + s.drop_first() == s.drop_first());
        assert(cur + seq![sep] + s.drop_first() == cur + s);
        assert forall|i: int| 0 <= i < parts.len() implies !(#[trigger] parts[i]).contains(sep) by {
            if i > 0 {
                assert(parts[i] == rest[i - 1]);
            }
        }
    } else {
        assert forall|i: int| 0 <= i < cur.push(s[0]).len() implies cur.push(s[0])[i] != sep by {
            if i < cur.len() {
                assert(cur.contains(cur[i]));
            }
        }
        lemma_split_joined(s.drop_first(), sep, cur.push(s[0]));
        assert(cur.push(s[0]) + s.drop_first() == cur + s);
    }
}

/// Two lists that are not empty join to the text of the first, the separator and the text of the
/// second; a list of one text joins to this text, and an empty list to no text.
pub proof fn law_joined_lists_are_joined(a: Seq<Seq<char>>, b: Seq<Seq<char>>, sep: Seq<char>)
    ensures
        a.len() == 0 ==> joined(a, sep) == Seq::<char>::empty(),
        a.len() == 1 ==> joined(a, sep) == a[0],
        a.len() > 0 && b.len() > 0 ==> joined(a + b, sep) == joined(a, sep) + sep + joined(b, sep),
    decreases b.len(),
{
    if a.len() > 0 && b.len() > 0 {
        let all = a + b;
        assert(all.drop_last() == a + b.drop_last());
        if b.len() == 1 {
            assert(all.drop_last() == a);
        } else {
            law_joined_lists_are_joined(a, b.drop_last(), sep);
            let x = joined(a, sep);
            let y = joined(b.drop_last(), sep);
            assert((x + sep + y) + sep + b.last() == x + sep + (y + sep + b.last()));
        }
    }
}

/// The words of a text are its runs of characters that are not white space: a text without white
/// space is one word, an empty text has none, and white space parts the words on its two sides.
pub proof fn law_words_are_parted_by_white_space(a: Seq<char>, c: char, b: Seq<char>)
    requires
        is_white(c),
    ensures
        words_of(a.push(c) + b) == words_of(a) + words_of(b),
        a.len() > 0 && (forall|i: int| 0 <= i < a.len() ==> !is_white(#[trigger] a[i])) ==> words_of(
            a,
        ) == seq![a],
        a.len() == 0 ==> words_of(a) == Seq::<Seq<char>>::empty(),
{
    lemma_words_parted(a, c, b, Seq::empty());
    if a.len() > 0 && forall|i: int| 0 <= i < a.len() ==> !is_white(#[trigger] a[i]) {
        lemma_one_word(a, Seq::empty());
        assert(Seq::<char>::empty() + a == a);
    }
}

proof fn lemma_words_parted(a: Seq<char>, c: char, b: Seq<char>, cur: Seq<char>)
    requires
        is_white(c),
    ensures
        words_from(a.push(c) + b, cur) == words_from(a, cur) + words_of(b),
    decreases a.len(),
{
    let s = a.push(c) + b;
    let done = if cur.len() == 0 {
        Seq::<Seq<char>>::empty()
    } else {
        seq![cur]
    };
    if a.len() == 0 {
        assert(s[0] == c);
        assert(s.drop_first() == b);
    } else {
        assert(s[0] == a[0]);
        assert(s.drop_first() == a.drop_first().push(c) + b);
        if is_white(a[0]) {
            lemma_words_parted(a.drop_first(), c, b, Seq::empty());
            assert(done + (words_from(a.drop_first(), Seq::empty()) + words_of(b)) == done
                + words_from(a.drop_first(), Seq::empty()) + words_of(b));
        } else {
            lemma_words_parted(a.drop_first(), c, b, cur.push(a[0]));
        }
    }
}

proof fn lemma_one_word(a: Seq<char>, cur: Seq<char>)
    requires
        cur.len() + a.len() > 0,
        forall|i: int| 0 <= i < a.len() ==> !is_white(#[trigger] a[i]),
    ensures
        words_from(a, cur) == seq![cur + a],
    decreases a.len(),
{
    if a.len() == 0 {
        assert(cur + a == cur);
    } else {
        assert(!is_white(a[0]));
        assert forall|i: int| 0 <= i < a.drop_first().len() implies !is_white(
            #[trigger] a.drop_first()[i],
        ) by {
            assert(a.drop_first()[i] == a[i + 1]);
        }
        lemma_one_word(a.drop_first(), cur.push(a[0]));
        assert(cur.push(a[0]) + a.drop_first() == cur + a);
    }
}

/// Replacing goes from occurrence to occurrence: the text before the first one stays, the
/// replacement stands for it, and the text behind it is treated in the same way; a text without
/// the pattern stays as it is.
pub proof fn law_replacing_goes_by_occurrences(s: Seq<char>, pat: Seq<char>, with: Seq<char>)
    requires
        pat.len() > 0,
    ensures
        match find(s, pat) {
            Some(i) => replaced(s, pat, with) == s.take(i) + with + replaced(
                s.skip(i + pat.len()),
                pat,
                with,
            ),
            None => replaced(s, pat, with) == s,
        },
    decreases s.len(),
{
    if s.len() >= pat.len() {
        if pat.is_prefix_of(s) {
            assert(s.take(0) + with == with);
        } else {
            let t = s.drop_first();
            law_replacing_goes_by_occurrences(t, pat, with);
            if let Some(i) = find(t, pat) {
                lemma_find(t, pat);
                assert(t.skip(i + pat.len()) == s.skip(i + 1 + pat.len()));
                assert(seq![s[0]] + t.take(i) == s.take(i + 1));
                let rest = replaced(t.skip(i + pat.len()), pat, with);
                assert(seq![s[0]] + (t.take(i) + with + rest) == s.take(i + 1) + with + rest);
            } else {
                assert(seq![s[0]] + t == s);
            }
        }
    }
}

/// Lower case keeps every character but the ASCII upper case letters, whose lower case stands 32
/// code points on.
pub proof fn law_lower_case_is_ascii(s: Seq<char>, i: int)
    requires
        0 <= i < s.len(),
    ensures
        lowered(s).len() == s.len(),
        'A' <= s[i] <= 'Z' ==> lowered(s)[i] as u32 == s[i] as u32 + 32,
        !('A' <= s[i] <= 'Z') ==> lowered(s)[i] == s[i],
{
}

/// A text stands before another exactly where it is a shorter beginning of it, or where it has the
/// smaller character at the first place at which they differ.
pub proof fn law_order_is_decided_at_the_first_difference(s: Seq<char>, t: Seq<char>)
    ensures
        before(s, t) <==> {
            ||| s.len() < t.len() && s.is_prefix_of(t)
            ||| exists|i: int|
                0 <= i < s.len() && i < t.len() && #[trigger] s.take(i) == t.take(i) && s[i] < t[i]
        },
    decreases t.len(),
{
    if s.len() > 0 && t.len() > 0 {
        let a = s.drop_first();
        let b = t.drop_first();
        law_order_is_decided_at_the_first_difference(a, b);
        if s[0] == t[0] {
            assert(a.is_prefix_of(b) ==> s.is_prefix_of(t)) by {
                if a.is_prefix_of(b) {
                    assert(a == b.subrange(0, a.len() as int));
                    assert(s == t.subrange(0, s.len() as int)) by {
                        assert(s == seq![s[0]] + a);
                    }
                }
            }
            assert(s.is_prefix_of(t) ==> a.is_prefix_of(b)) by {
                if s.is_prefix_of(t) {
                    assert(s == t.subrange(0, s.len() as int));
                    assert(a == b.subrange(0, a.len() as int));
                }
            }
            if exists|i: int|
                0 <= i < a.len() && i < b.len() && #[trigger] a.take(i) == b.take(i) && a[i] < b[i] {
                let i = choose|i: int|
                    0 <= i < a.len() && i < b.len() && #[trigger] a.take(i) == b.take(i) && a[i]
                        < b[i];
                assert(s.take(i + 1) == seq![s[0]] + a.take(i));
                assert(t.take(i + 1) == seq![t[0]] + b.take(i));
            }
            if exists|i: int|
                0 <= i < s.len() && i < t.len() && #[trigger] s.take(i) == t.take(i) && s[i] < t[i] {
                let i = choose|i: int|
                    0 <= i < s.len() && i < t.len() && #[trigger] s.take(i) == t.take(i) && s[i]
                        < t[i];
                assert(a.take(i - 1) == s.take(i).drop_first());
                assert(b.take(i - 1) == t.take(i).drop_first());
            }
        } else {
            assert(s.take(0) == t.take(0));
            if s.is_prefix_of(t) {
                assert(s[0] == t.subrange(0, s.len() as int)[0]);
            }
            if exists|i: int|
                0 <= i < s.len() && i < t.len() && #[trigger] s.take(i) == t.take(i) && s[i] < t[i] {
                let i = choose|i: int|
                    0 <= i < s.len() && i < t.len() && #[trigger] s.take(i) == t.take(i) && s[i]
                        < t[i];
                if i > 0 {
                    assert(s.take(i)[0] == t.take(i)[0]);
                }
            }
        }
    } else if t.len() > 0 {
        assert(s == t.subrange(0, 0));
    }
}

/// Where the pattern stands at none of the first `n` places, it is found as in the rest.
pub proof fn lemma_find_behind(s: Seq<char>, pat: Seq<char>, n: int)
    requires
        0 <= n <= s.len(),
        forall|j: int| 0 <= j < n ==> !#[trigger] occurs_at(s, pat, j),
    ensures
        match find(s.skip(n), pat) {
            Some(i) => find(s, pat) == Some(i + n),
            None => find(s, pat) is None,
        },
    decreases n,
{
    if n == 0 {
        assert(s.skip(0) == s);
    } else {
        let t = s.drop_first();
        assert(!occurs_at(s, pat, 0));
        assert(!pat.is_prefix_of(s)) by {
            if pat.is_prefix_of(s) {
                assert(pat == s.subrange(0, pat.len() as int));
            }
        }
        assert forall|j: int| 0 <= j < n - 1 implies !#[trigger] occurs_at(t, pat, j) by {
            assert(!occurs_at(s, pat, j + 1));
            if occurs_at(t, pat, j) {
                assert(s.subrange(j + 1, j + 1 + pat.len()) == t.subrange(j, j + pat.len()));
            }
        }
        assert(t.skip(n - 1) == s.skip(n));
        lemma_find_behind(t, pat, n - 1);
        if s.len() < pat.len() {
            lemma_find(s.skip(n), pat);
        }
    }
}

/// A text that lacks the first character of the pattern stays as it is.
pub proof fn lemma_replaced_absent(s: Seq<char>, pat: Seq<char>, with: Seq<char>)
    requires
        pat.len() > 0,
        !s.contains(pat[0]),
    ensures
        replaced(s, pat, with) == s,
{
    law_replacing_goes_by_occurrences(s, pat, with);
    lemma_find(s, pat);
    if let Some(i) = find(s, pat) {
        assert(s.subrange(i, i + pat.len())[0] == pat[0]);
        assert(s[i] == pat[0]);
    }
}

/// Splitting undoes joining: texts that hold no separator, joined with separators between them,
/// are the pieces.
pub proof fn law_splitting_undoes_joining(parts: Seq<Seq<char>>, sep: char)
    requires
        parts.len() > 0,
        forall|i: int| 0 <= i < parts.len() ==> !(#[trigger] parts[i]).contains(sep),
    ensures
        split_of(joined(parts, seq![sep]), sep) == parts,
    decreases parts.len(),
{
    let first = parts[0];
    if parts.len() == 1 {
        lemma_split_piece(first, sep, Seq::empty());
        assert(Seq::<char>::empty() + first == first);
        assert(parts == seq![first]);
    } else {
        let rest = parts.drop_first();
        assert forall|i: int| 0 <= i < rest.len() implies !(#[trigger] rest[i]).contains(sep) by {
            assert(rest[i] == parts[i + 1]);
        }
        law_splitting_undoes_joining(rest, sep);
        law_joined_lists_are_joined(seq![first], rest, seq![sep]);
        assert(seq![first] + rest == parts);
        lemma_split_behind(first, sep, joined(rest, seq![sep]), Seq::empty());
        assert(Seq::<char>::empty() + first == first);
    }
}

proof fn lemma_split_piece(s: Seq<char>, sep: char, cur: Seq<char>)
    requires
        !s.contains(sep),
    ensures
        split_from(s, sep, cur) == seq![cur + s],
    decreases s.len(),
{
    if s.len() == 0 {
        assert(cur + s == cur);
    } else {
        assert(s.contains(s[0]));
        assert forall|i: int| 0 <= i < s.drop_first().len() implies s.drop_first()[i] != sep by {
            assert(s.contains(s[i + 1]));
        }
        lemma_split_piece(s.drop_first(), sep, cur.push(s[0]));
        assert(cur.push(s[0]) + s.drop_first() == cur + s);
    }
}

proof fn lemma_split_behind(s: Seq<char>, sep: char, rest: Seq<char>, cur: Seq<char>)
    requires
        !s.contains(sep),
    ensures
        split_from(s + seq![sep] + rest, sep, cur) == seq![cur + s] + split_of(rest, sep),
    decreases s.len(),
{
    let t = s + seq![sep] + rest;
    if s.len() == 0 {
        assert(t[0] == sep);
        assert(t.drop_first() == rest);
        assert(cur + s == cur);
    } else {
        assert(t[0] == s[0]);
        assert(s.contains(s[0]));
        assert(t.drop_first() == s.drop_first() + seq![sep] + rest);
        assert forall|i: int| 0 <= i < s.drop_first().len() implies s.drop_first()[i] != sep by {
            assert(s.contains(s[i + 1]));
        }
        lemma_split_behind(s.drop_first(), sep, rest, cur.push(s[0]));
        assert(cur.push(s[0]) + s.drop_first() == cur + s);
    }
}

/// White space is what Unicode counts as such: the six controls, the spaces and the separators.
pub proof fn law_white_space(c: char)
    ensures
        is_white(c) <==> seq![
            9u32,
            10,
            11,
            12,
            13,
            32,
            133,
            160,
            5760,
            8192,
            8193,
            8194,
            8195,
            8196,
            8197,
            8198,
            8199,
            8200,
            8201,
            8202,
            8232,
            8233,
            8239,
            8287,
            12288,
        ].contains(c as u32),
{
    let all = seq![
        9u32, 10, 11, 12, 13, 32, 133, 160, 5760, 8192, 8193, 8194, 8195, 8196, 8197, 8198, 8199,
        8200, 8201, 8202, 8232, 8233, 8239, 8287, 12288,
    ];
    let n = c as u32;
    assert(all[0] == 9 && all[1] == 10 && all[2] == 11 && all[3] == 12 && all[4] == 13);
    assert(all[5] == 32 && all[6] == 133 && all[7] == 160 && all[8] == 5760);
    assert(all[9] == 8192 && all[10] == 8193 && all[11] == 8194 && all[12] == 8195);
    assert(all[13] == 8196 && all[14] == 8197 && all[15] == 8198 && all[16] == 8199);
    assert(all[17] == 8200 && all[18] == 8201 && all[19] == 8202 && all[20] == 8232);
    assert(all[21] == 8233 && all[22] == 8239 && all[23] == 8287 && all[24] == 12288);
}

/// `word` stands somewhere in `text`.
pub open spec fn is_within(word: Seq<char>, text: Seq<char>) -> bool {
    exists|i: int|
        0 <= i && i + word.len() <= text.len() && #[trigger] text.subrange(i, i + word.len())
            == word
}

/// A text is found exactly where it stands somewhere.
pub proof fn lemma_within(word: Seq<char>, text: Seq<char>)
    ensures
        is_within(word, text) <==> find(text, word) is Some,
{
    lemma_find(text, word);
    if is_within(word, text) && find(text, word) is None {
        let i = choose|i: int|
            0 <= i && i + word.len() <= text.len() && #[trigger] text.subrange(i, i + word.len())
                == word;
        assert(!occurs_at(text, word, i));
    }
    if let Some(i) = find(text, word) {
        assert(occurs_at(text, word, i));
        assert(text.subrange(i, i + word.len()) == word);
    }
}

}
