//! The files that AWS profiles are kept in.
use crate::text::{
    find, find_from, from_chars, is_white, joined, law_splitting_undoes_joining,
    law_white_space_around_does_not_matter, lemma_find, lemma_find_after, lowered, opt_text, same,
    split, split_of, strip_end, strip_start, texts, to_chars, to_lower, trim, trim_part, trimmed,
};
use vstd::prelude::*;
use vstd::string::*;

verus! {

/// A quotation mark, single or double.
pub open spec fn is_quote(c: char) -> bool {
    c == '"' || c == '\''
}

/// `s` without the quotation marks at its two ends.
pub open spec fn unquoted(s: Seq<char>) -> Seq<char> {
    strip_end(strip_start(s, |c: char| is_quote(c)), |c: char| is_quote(c))
}

/// `s` without the quotation marks at its two ends.
fn unquote(s: &str) -> (r: String)
    ensures
        r@ == unquoted(s@),
{
    let v = to_chars(s);
    let ghost quote = |c: char| is_quote(c);
    let mut a: usize = 0;
    assert(v@.skip(0) == v@);
    while a < v.len() && (v[a] == '"' || v[a] == '\'')
        invariant
            a <= v@.len(),
            quote == (|c: char| is_quote(c)),
            strip_start(v@.skip(a as int), quote) == strip_start(v@, quote),
        decreases v@.len() - a,
    {
        assert(v@.skip(a as int).drop_first() == v@.skip(a + 1));
        a += 1;
    }
    let ghost left = v@.skip(a as int);
    assert(strip_start(left, quote) == left) by {
        if a < v@.len() {
            assert(left[0] == v@[a as int]);
        }
    }
    let mut b: usize = v.len();
    assert(v@.subrange(a as int, b as int) == left);
    while a < b && (v[b - 1] == '"' || v[b - 1] == '\'')
        invariant
            a <= b <= v@.len(),
            quote == (|c: char| is_quote(c)),
            strip_end(v@.subrange(a as int, b as int), quote) == strip_end(left, quote),
        decreases b,
    {
        assert(v@.subrange(a as int, b as int).drop_last() == v@.subrange(a as int, b - 1));
        b -= 1;
    }
    let ghost inner = v@.subrange(a as int, b as int);
    assert(strip_end(inner, quote) == inner) by {
        if a < b {
            assert(inner.last() == v@[b - 1]);
        }
    }
    from_chars(&v, a, b)
}

/// What a line of the file says.
pub enum IniLine {
    /// Nothing: it is empty, a comment, or none of the others.
    Nothing,
    /// The settings that follow belong to this section.
    Section(String),
    /// This key has this value.
    Setting(String, String),
}

/// [`IniLine`] with its texts.
pub enum IniLineView {
    Nothing,
    Section(Seq<char>),
    Setting(Seq<char>, Seq<char>),
}

impl View for IniLine {
    type V = IniLineView;

    open spec fn view(&self) -> IniLineView {
        match self {
            IniLine::Nothing => IniLineView::Nothing,
            IniLine::Section(name) => IniLineView::Section(name@),
            IniLine::Setting(key, value) => IniLineView::Setting(key@, value@),
        }
    }
}

/// What a line of the file says. White space at its ends does not matter. A comment begins with
/// `#` or `;`, and a section stands in square brackets. The key of a setting is taken in lower
/// case, and its value without the quotation marks around it.
pub open spec fn line_of(raw: Seq<char>) -> IniLineView {
    let line = trimmed(raw);
    if line.len() == 0 || line[0] == '#' || line[0] == ';' {
        IniLineView::Nothing
    } else if line[0] == '[' && find(line, seq![']']) is Some {
        IniLineView::Section(trimmed(line.subrange(1, find(line, seq![']'])->0)))
    } else {
        match find(line, seq!['=']) {
            Some(i) => IniLineView::Setting(
                lowered(trimmed(line.take(i))),
                unquoted(trimmed(line.skip(i + 1))),
            ),
            None => IniLineView::Nothing,
        }
    }
}

/// Reads a line of the file.
fn read_line(raw: &str) -> (r: IniLine)
    ensures
        r@ == line_of(raw@),
{
    let line = to_chars(trim(raw).as_str());
    if line.len() == 0 || line[0] == '#' || line[0] == ';' {
        return IniLine::Nothing;
    }
    assert(line@.skip(0) == line@);
    if line[0] == '[' {
        let close = vec![']'];
        assert(close@ == seq![']']);
        if let Some(i) = find_from(&line, &close, 0) {
            proof {
                lemma_find(line@, seq![']']);
                assert(line@.subrange(i as int, i + 1)[0] == ']');
            }
            return IniLine::Section(trim_part(&line, 1, i));
        }
    }
    let equals = vec!['='];
    assert(equals@ == seq!['=']);
    match find_from(&line, &equals, 0) {
        Some(i) => {
            assert(line@.subrange(0, i as int) == line@.take(i as int));
            assert(line@.subrange(i + 1, line@.len() as int) == line@.skip(i + 1));
            let key = to_lower(trim_part(&line, 0, i).as_str());
            let value = unquote(trim_part(&line, i + 1, line.len()).as_str());
            IniLine::Setting(key, value)
        },
        None => IniLine::Nothing,
    }
}

/// The settings that lines make, in order, each with the section it belongs to. `section` is the
/// one that the first lines belong to; settings of a section without a name do not count.
pub open spec fn settings_from(lines: Seq<Seq<char>>, section: Seq<char>) -> Seq<
    (Seq<char>, Seq<char>, Seq<char>),
>
    decreases lines.len(),
{
    if lines.len() == 0 {
        Seq::empty()
    } else {
        match line_of(lines[0]) {
            IniLineView::Nothing => settings_from(lines.drop_first(), section),
            IniLineView::Section(name) => settings_from(lines.drop_first(), name),
            IniLineView::Setting(key, value) => if section.len() == 0 {
                settings_from(lines.drop_first(), section)
            } else {
                seq![(section, key, value)] + settings_from(lines.drop_first(), section)
            },
        }
    }
}

/// The settings of a file.
pub open spec fn settings(data: Seq<char>) -> Seq<(Seq<char>, Seq<char>, Seq<char>)> {
    settings_from(split_of(data, '\n'), Seq::empty())
}

/// The value of a key in a section: that of its last setting.
pub open spec fn setting(
    list: Seq<(Seq<char>, Seq<char>, Seq<char>)>,
    section: Seq<char>,
    key: Seq<char>,
) -> Option<Seq<char>>
    decreases list.len(),
{
    if list.len() == 0 {
        None
    } else if list.last().0 == section && list.last().1 == key {
        Some(list.last().2)
    } else {
        setting(list.drop_last(), section, key)
    }
}

/// One setting of a file.
pub struct Setting {
    pub section: String,
    pub key: String,
    pub value: String,
}

/// The settings of a file.
pub struct Ini {
    pub settings: Vec<Setting>,
}

impl View for Ini {
    type V = Seq<(Seq<char>, Seq<char>, Seq<char>)>;

    open spec fn view(&self) -> Seq<(Seq<char>, Seq<char>, Seq<char>)> {
        self.settings@.map_values(|s: Setting| (s.section@, s.key@, s.value@))
    }
}

/// Reads the settings of a file.
pub fn parse_ini(data: &str) -> (r: Ini)
    ensures
        r@ == settings(data@),
{
    let lines = split(data, '\n');
    let ghost all = texts(lines@);
    let mut ini = Ini { settings: Vec::new() };
    let mut section = String::new();
    assert(all.skip(0) == all);
    assert(ini@ + settings_from(all, section@) == settings_from(all, section@));
    for i in 0..lines.len()
        invariant
            all == texts(lines@),
            ini@ + settings_from(all.skip(i as int), section@) == settings_from(
                all,
                Seq::<char>::empty(),
            ),
    {
        assert(all.skip(i as int).drop_first() == all.skip(i + 1));
        match read_line(lines[i].as_str()) {
            IniLine::Nothing => {},
            IniLine::Section(name) => {
                section = name;
            },
            IniLine::Setting(key, value) => {
                if !section.as_str().is_empty() {
                    let ghost earlier = ini@;
                    let ghost entry = (section@, key@, value@);
                    let ghost rest = settings_from(all.skip(i + 1), section@);
                    ini.settings.push(Setting { section: section.clone(), key, value });
                    assert(ini@ == earlier.push(entry));
                    assert(earlier + (seq![entry] + rest) == ini@ + rest);
                }
            },
        }
    }
    assert(all.skip(all.len() as int).len() == 0);
    assert(ini@ + Seq::empty() == ini@);
    ini
}

impl Ini {
    /// The value of a key in a section.
    pub fn get(&self, section: &str, key: &str) -> (r: Option<String>)
        ensures
            opt_text(r) == setting(self@, section@, key@),
    {
        let ghost all = self@;
        let mut i: usize = self.settings.len();
        assert(all.take(all.len() as int) == all);
        while i > 0
            invariant
                i <= self.settings.len(),
                all == self@,
                setting(all.take(i as int), section@, key@) == setting(all, section@, key@),
            decreases i,
        {
            i -= 1;
            let s = &self.settings[i];
            assert(all.take(i + 1).last() == (s.section@, s.key@, s.value@));
            assert(all.take(i + 1).drop_last() == all.take(i as int));
            if same(s.section.as_str(), section) && same(s.key.as_str(), key) {
                return Some(s.value.clone());
            }
        }
        assert(all.take(0).len() == 0);
        None
    }
}

/// Neither end of the text is white space.
pub open spec fn is_trimmed(s: Seq<char>) -> bool {
    s.len() > 0 ==> !is_white_at_ends(s)
}

/// One end of the text is white space.
pub open spec fn is_white_at_ends(s: Seq<char>) -> bool {
    is_white(s[0]) || is_white(s.last())
}

/// A text that has nothing to trim is left as it is.
proof fn lemma_trimmed(s: Seq<char>)
    requires
        is_trimmed(s),
    ensures
        trimmed(s) == s,
{
}

/// A setting is read back as it was written: lines that hold a section's name in square brackets,
/// and a key and a value on the two sides of an equals sign, make this one setting, wherever the
/// name and the key are plain and nothing has to be trimmed.
pub proof fn law_setting_is_read_back(
    section: Seq<char>,
    key: Seq<char>,
    value: Seq<char>,
    rest: Seq<Seq<char>>,
    outer: Seq<char>,
)
    requires
        section.len() > 0,
        !section.contains(']'),
        is_trimmed(section),
        key.len() > 0,
        !key.contains('='),
        key[0] != '[' && key[0] != '#' && key[0] != ';',
        is_trimmed(key),
        lowered(key) == key,
        is_trimmed(value),
        value.len() > 0 ==> !is_quote(value[0]) && !is_quote(value.last()),
    ensures
        settings_from(
            seq![seq!['['] + section + seq![']'], key + seq!['='] + value] + rest,
            outer,
        ) == seq![(section, key, value)] + settings_from(rest, section),
{
    let a = seq!['['] + section + seq![']'];
    let b = key + seq!['='] + value;
    let lines = seq![a, b] + rest;
    lemma_trimmed(section);
    lemma_trimmed(key);
    lemma_trimmed(value);
    lemma_trimmed(a);
    lemma_trimmed(b);
    let head = seq!['['] + section;
    assert forall|i: int| 0 <= i < head.len() implies head[i] != ']' by {
        if i > 0 {
            assert(section.contains(section[i - 1]));
        }
    }
    lemma_find_after(head, seq![']'], Seq::empty());
    assert(head + seq![']'] + Seq::<char>::empty() == a);
    assert(a.subrange(1, head.len() as int) == section);
    assert(line_of(a) == IniLineView::Section(section));
    assert forall|i: int| 0 <= i < key.len() implies key[i] != '=' by {
        assert(key.contains(key[i]));
    }
    lemma_find_after(key, seq!['='], value);
    assert(b.take(key.len() as int) == key);
    assert(b.skip(key.len() as int + 1) == value);
    assert(b[0] == key[0]);
    assert(unquoted(value) == value);
    assert(line_of(b) == IniLineView::Setting(key, value));
    assert(lines.drop_first() == seq![b] + rest);
    assert((seq![b] + rest).drop_first() == rest);
    assert(lines[0] == a);
    assert((seq![b] + rest)[0] == b);
    assert(settings_from(seq![b] + rest, section) == seq![(section, key, value)] + settings_from(
        rest,
        section,
    ));
    assert(settings_from(lines, outer) == settings_from(seq![b] + rest, section));
}

/// A line that says nothing can stand anywhere: it changes no setting.
pub proof fn law_comments_do_not_matter(
    lines: Seq<Seq<char>>,
    at: int,
    line: Seq<char>,
    section: Seq<char>,
)
    requires
        0 <= at <= lines.len(),
        line_of(line) is Nothing,
    ensures
        settings_from(lines.insert(at, line), section) == settings_from(lines, section),
    decreases at,
{
    let more = lines.insert(at, line);
    if at == 0 {
        assert(more.drop_first() == lines);
    } else {
        assert(more[0] == lines[0]);
        assert(more.drop_first() == lines.drop_first().insert(at - 1, line));
        let next = match line_of(lines[0]) {
            IniLineView::Section(name) => name,
            _ => section,
        };
        law_comments_do_not_matter(lines.drop_first(), at - 1, line, next);
    }
}

/// Every character is white space.
pub open spec fn is_blank(s: Seq<char>) -> bool {
    forall|i: int| 0 <= i < s.len() ==> is_white(#[trigger] s[i])
}

/// Every character is a quotation mark.
pub open spec fn is_quoting(s: Seq<char>) -> bool {
    forall|i: int| 0 <= i < s.len() ==> (#[trigger] s[i]) == '"' || s[i] == '\''
}

/// The quotation marks around a value are taken off, and nothing else.
pub proof fn law_quotation_marks_are_taken_off(a: Seq<char>, s: Seq<char>, b: Seq<char>)
    requires
        is_quoting(a),
        is_quoting(b),
        s.len() > 0,
        s[0] != '"' && s[0] != '\'',
        s.last() != '"' && s.last() != '\'',
    ensures
        unquoted(a + s + b) == s,
{
    lemma_unquoted_start(a, s + b);
    assert(a + s + b == a + (s + b));
    lemma_unquoted_end(s, b);
}

proof fn lemma_unquoted_start(a: Seq<char>, t: Seq<char>)
    requires
        is_quoting(a),
        t.len() > 0,
        !is_quote(t[0]),
    ensures
        strip_start(a + t, |c: char| is_quote(c)) == t,
    decreases a.len(),
{
    if a.len() == 0 {
        assert(a + t == t);
    } else {
        assert((a + t)[0] == a[0]);
        assert(is_quote(a[0]));
        assert((a + t).drop_first() == a.drop_first() + t);
        assert forall|i: int| 0 <= i < a.drop_first().len() implies (#[trigger] a.drop_first()[i])
            == '"' || a.drop_first()[i] == '\'' by {
            assert(a.drop_first()[i] == a[i + 1]);
        }
        lemma_unquoted_start(a.drop_first(), t);
    }
}

proof fn lemma_unquoted_end(s: Seq<char>, b: Seq<char>)
    requires
        is_quoting(b),
        s.len() > 0,
        !is_quote(s.last()),
    ensures
        strip_end(s + b, |c: char| is_quote(c)) == s,
    decreases b.len(),
{
    if b.len() == 0 {
        assert(s + b == s);
    } else {
        assert((s + b).last() == b.last());
        assert(is_quote(b[b.len() - 1]));
        assert((s + b).drop_last() == s + b.drop_last());
        assert forall|i: int| 0 <= i < b.drop_last().len() implies (#[trigger] b.drop_last()[i])
            == '"' || b.drop_last()[i] == '\'' by {
            assert(b.drop_last()[i] == b[i]);
        }
        lemma_unquoted_end(s, b.drop_last());
    }
}

/// A line with an equals sign sets a key to a value. The key is taken in lower case; white space
/// around the key, the value and the line does not matter.
pub proof fn law_setting_line(
    a: Seq<char>,
    key: Seq<char>,
    b: Seq<char>,
    c: Seq<char>,
    value: Seq<char>,
    d: Seq<char>,
)
    requires
        is_blank(a) && is_blank(b) && is_blank(c) && is_blank(d),
        key.len() > 0 && is_trimmed(key) && !key.contains('='),
        key[0] != '[' && key[0] != '#' && key[0] != ';',
        is_trimmed(value),
    ensures
        line_of(a + (key + b + seq!['='] + c + value) + d) == IniLineView::Setting(
            lowered(key),
            unquoted(value),
        ),
{
    let none = Seq::<char>::empty();
    let core = key + b + seq!['='] + c + value;
    if value.len() > 0 {
        assert(core.last() == value.last());
        law_white_space_around_does_not_matter(a, core, d);
        assert(core == key + b + seq!['='] + (c + value));
        lemma_setting_core(key, b, c + value, core);
        law_white_space_around_does_not_matter(c, value, none);
        assert(c + value + none == c + value);
    } else {
        let kept = key + b + seq!['='];
        assert(a + core + d == a + kept + (c + d));
        assert forall|i: int| 0 <= i < (c + d).len() implies is_white(#[trigger] (c + d)[i]) by {
            if i < c.len() {
                assert((c + d)[i] == c[i]);
            } else {
                assert((c + d)[i] == d[i - c.len()]);
            }
        }
        assert(kept.last() == '=');
        assert(kept[0] == key[0]);
        law_white_space_around_does_not_matter(a, kept, c + d);
        lemma_setting_core(key, b, none, kept);
        law_white_space_around_does_not_matter(none, none, none);
        assert(none + none + none == none);
        assert(value == none);
    }
}

/// What a trimmed line says that holds an equals sign.
proof fn lemma_setting_core(key: Seq<char>, b: Seq<char>, behind: Seq<char>, core: Seq<char>)
    requires
        is_blank(b),
        key.len() > 0 && is_trimmed(key) && !key.contains('='),
        key[0] != '[' && key[0] != '#' && key[0] != ';',
        core == key + b + seq!['='] + behind,
        trimmed(core) == core,
    ensures
        line_of(core) == IniLineView::Setting(lowered(key), unquoted(trimmed(behind))),
{
    let none = Seq::<char>::empty();
    let head = key + b;
    assert forall|i: int| 0 <= i < head.len() implies head[i] != seq!['='][0] by {
        if i < key.len() {
            assert(key.contains(key[i]));
        } else {
            assert(is_white(b[i - key.len()]));
            assert(head[i] == b[i - key.len()]);
        }
    }
    lemma_find_after(head, seq!['='], behind);
    assert(core == head + seq!['='] + behind);
    assert(core[0] == key[0]);
    assert(core.take(head.len() as int) == head);
    assert(core.skip(head.len() as int + 1) == behind);
    law_white_space_around_does_not_matter(none, key, b);
    assert(none + key + b == head);
}

/// A line in square brackets begins a section of the name between them; white space around the
/// name and the line does not matter, nor what stands behind the brackets.
pub proof fn law_section_line(
    a: Seq<char>,
    b: Seq<char>,
    name: Seq<char>,
    c: Seq<char>,
    behind: Seq<char>,
    d: Seq<char>,
)
    requires
        is_blank(a) && is_blank(b) && is_blank(c) && is_blank(d),
        is_trimmed(name) && !name.contains(']'),
        behind.len() > 0 ==> !is_white(behind.last()),
    ensures
        line_of(a + (seq!['['] + b + name + c + seq![']'] + behind) + d) == IniLineView::Section(name),
{
    let core = seq!['['] + b + name + c + seq![']'] + behind;
    let head = seq!['['] + b + name + c;
    if behind.len() > 0 {
        assert(core.last() == behind.last());
    } else {
        assert(core.last() == ']');
    }
    assert(core[0] == '[');
    law_white_space_around_does_not_matter(a, core, d);
    assert forall|i: int| 0 <= i < head.len() implies head[i] != seq![']'][0] by {
        if i == 0 {
        } else if i < 1 + b.len() {
            assert(head[i] == b[i - 1]);
            assert(is_white(b[i - 1]));
        } else if i < 1 + b.len() + name.len() {
            assert(head[i] == name[i - 1 - b.len()]);
            assert(name.contains(name[i - 1 - b.len()]));
        } else {
            assert(head[i] == c[i - 1 - b.len() - name.len()]);
            assert(is_white(c[i - 1 - b.len() - name.len()]));
        }
    }
    lemma_find_after(head, seq![']'], behind);
    assert(core == head + seq![']'] + behind);
    assert(core.subrange(1, head.len() as int) == b + name + c);
    law_white_space_around_does_not_matter(b, name, c);
}

/// A line says nothing where it is blank, where it begins with `#` or `;`, and where it neither
/// begins with a square bracket nor holds an equals sign; white space around it does not matter.
pub proof fn law_other_lines_say_nothing(a: Seq<char>, s: Seq<char>, b: Seq<char>)
    requires
        is_blank(a) && is_blank(b),
        is_trimmed(s),
        s.len() > 0 ==> s[0] == '#' || s[0] == ';' || (s[0] != '[' && !s.contains('=')),
    ensures
        line_of(a + s + b) is Nothing,
{
    law_white_space_around_does_not_matter(a, s, b);
    lemma_find(s, seq!['=']);
    if let Some(i) = find(s, seq!['=']) {
        assert(s.subrange(i, i + 1)[0] == '=');
        assert(s.contains(s[i]));
    }
}

/// The lines of a file are read in order: a section counts for the lines behind it, a setting
/// belongs to the section that it stands in, and a setting that stands in none does not count.
pub proof fn law_lines_are_read_in_order(
    line: Seq<char>,
    rest: Seq<Seq<char>>,
    section: Seq<char>,
)
    ensures
        settings_from(Seq::empty(), section).len() == 0,
        line_of(line) is Nothing ==> settings_from(seq![line] + rest, section) == settings_from(
            rest,
            section,
        ),
        line_of(line) matches IniLineView::Section(name) ==> settings_from(
            seq![line] + rest,
            section,
        ) == settings_from(rest, name),
        line_of(line) matches IniLineView::Setting(key, value) ==> settings_from(
            seq![line] + rest,
            section,
        ) == (if section.len() > 0 {
            seq![(section, key, value)]
        } else {
            Seq::empty()
        }) + settings_from(rest, section),
{
    let all = seq![line] + rest;
    assert(all[0] == line);
    assert(all.drop_first() == rest);
    assert(Seq::<(Seq<char>, Seq<char>, Seq<char>)>::empty() + settings_from(rest, section)
        == settings_from(rest, section));
}

/// A file is its lines, with line feeds between them.
pub proof fn law_files_are_made_of_lines(lines: Seq<Seq<char>>)
    requires
        lines.len() > 0,
        forall|i: int| 0 <= i < lines.len() ==> !(#[trigger] lines[i]).contains('\n'),
    ensures
        settings(joined(lines, seq!['\n'])) == settings_from(lines, Seq::empty()),
{
    law_splitting_undoes_joining(lines, '\n');
}

/// The last setting of a key in a section counts, and settings of other keys or sections do not
/// matter.
pub proof fn law_last_setting_counts(
    list: Seq<(Seq<char>, Seq<char>, Seq<char>)>,
    section: Seq<char>,
    key: Seq<char>,
    other: (Seq<char>, Seq<char>, Seq<char>),
    value: Seq<char>,
)
    ensures
        setting(Seq::empty(), section, key) is None,
        setting(list.push((section, key, value)), section, key) == Some(value),
        other.0 != section || other.1 != key ==> setting(list.push(other), section, key) == setting(
            list,
            section,
            key,
        ),
{
    assert(list.push((section, key, value)).last() == (section, key, value));
    assert(list.push(other).drop_last() == list);
}

/// Every line that is no comment and begins no section is a setting where it has an equals sign:
/// the key stands before the first one, and the value behind it.
pub proof fn law_first_equals_sign_parts_the_line(
    a: Seq<char>,
    left: Seq<char>,
    right: Seq<char>,
    b: Seq<char>,
)
    requires
        is_blank(a) && is_blank(b),
        is_trimmed(left + seq!['='] + right),
        !left.contains('='),
        left.len() > 0 ==> left[0] != '#' && left[0] != ';',
        left.len() > 0 && left[0] == '[' ==> !left.contains(']') && !right.contains(']'),
    ensures
        line_of(a + (left + seq!['='] + right) + b) == IniLineView::Setting(
            lowered(trimmed(left)),
            unquoted(trimmed(right)),
        ),
{
    let s = left + seq!['='] + right;
    law_white_space_around_does_not_matter(a, s, b);
    assert forall|i: int| 0 <= i < left.len() implies left[i] != seq!['='][0] by {
        assert(left.contains(left[i]));
    }
    lemma_find_after(left, seq!['='], right);
    assert(s.take(left.len() as int) == left);
    assert(s.skip(left.len() as int + 1) == right);
    assert(s[0] == if left.len() > 0 {
        left[0]
    } else {
        '='
    });
    lemma_find(s, seq![']']);
    if let Some(i) = find(s, seq![']']) {
        assert(s.subrange(i, i + 1)[0] == ']');
        if left.len() > 0 && left[0] == '[' {
            if i < left.len() {
                assert(left.contains(left[i]));
            } else if i > left.len() {
                assert(right.contains(right[i - left.len() - 1]));
            }
        }
    }
}

/// A value of nothing but quotation marks is empty.
pub proof fn law_quotation_marks_alone_are_nothing(s: Seq<char>)
    requires
        is_quoting(s),
    ensures
        unquoted(s).len() == 0,
    decreases s.len(),
{
    if s.len() > 0 {
        assert(is_quote(s[0]));
        assert forall|i: int| 0 <= i < s.drop_first().len() implies (#[trigger] s.drop_first()[i])
            == '"' || s.drop_first()[i] == '\'' by {
            assert(s.drop_first()[i] == s[i + 1]);
        }
        law_quotation_marks_alone_are_nothing(s.drop_first());
    }
}

}
