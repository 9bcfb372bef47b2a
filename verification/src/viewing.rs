use vstd::prelude::*;
use vstd::utf8::*;

use crate::note_lock::{is_locked_content, LOCKED_HEADER};
use crate::paths::{file_name, file_name_of, file_stem, file_stem_of};
use crate::text::{
    is_ws, lemma_split_on_append, lemma_split_on_no_sep, last_index_of, ascii_lower, char_to_ascii_lower, chars_eq_ignore_ascii_case, chars_of, collapse_whitespace,
    drop_leading, drop_leading_chars, drop_trailing, drop_trailing_chars, eq_ignore_ascii_case,
    has_prefix, is_ascii_alnum, join, join_range, lines_chars, lines_of, lemma_split_on_nonempty,
    replace_char, replace_chars, hex_digits, hex_prefix, split_chars, split_on, string_from_chars, take_chars, take_prefix,
    trim, trim_chars, views, words,
};

verus! {

/// Longest slug kept in a viewing window's label.
pub const MAX_VIEWING_SLUG_LEN: usize = 48;

/// Longest display title, in characters.
pub const MAX_TITLE_CHARS: usize = 120;

// ── Display titles ──────────────────────────────────────────────

/// A line that stands for an HTML line break (`<br>`, `<br/>`, `<br />`,
/// in any ASCII case).
pub open spec fn is_break_placeholder(line: Seq<char>) -> bool {
    eq_ignore_ascii_case(line, "<br>"@) || eq_ignore_ascii_case(line, "<br/>"@)
        || eq_ignore_ascii_case(line, "<br />"@)
}

/// A heading line as a title: trimmed, leading `#`s dropped, words joined by
/// single spaces.
pub open spec fn normalized_title(line: Seq<char>) -> Seq<char> {
    join(words(drop_leading(trim(line), '#')), seq![' '])
}

/// The title that a file name gives: the file stem, with the date, time and
/// id parts of a `YYYYMMDD-HHMMSS-slug-id` name dropped, dashes as spaces.
pub open spec fn filename_title(path: Seq<char>) -> Seq<char> {
    let stem = match file_name_of(path) {
        Some(n) => file_stem_of(n),
        None => "Untitled"@,
    };
    let parts = split_on(stem, '-');
    let raw = if parts.len() > 3 {
        join(parts.subrange(2, parts.len() - 1), seq![' '])
    } else {
        replace_char(stem, '-', ' ')
    };
    let title = join(words(raw), seq![' ']);
    if title.len() == 0 {
        "Untitled"@
    } else {
        take_chars(title, 120)
    }
}

/// A word without whitespace is the one word of itself.
proof fn lemma_words_of_one_word(w: Seq<char>)
    requires
        w.len() > 0,
        forall|i: int| 0 <= i < w.len() ==> !is_ws(w[i]),
    ensures
        words(w) == seq![w],
    decreases w.len(),
{
    if w.len() == 1 {
        assert(w.drop_last() =~= Seq::<char>::empty());
        assert(words(w.drop_last()) =~= Seq::<Seq<char>>::empty());
        assert(seq![w.last()] =~= w);
        assert(Seq::<Seq<char>>::empty().push(seq![w.last()]) =~= seq![w]);
    } else {
        lemma_words_of_one_word(w.drop_last());
        assert(w[w.len() - 2] == w.drop_last().last());
        assert(w.drop_last().push(w.last()) =~= w);
        assert(seq![w.drop_last()].update(0, w.drop_last().push(w.last())) =~= seq![w]);
    }
}

/// A Stik file name `date-time-word-id.md` (four parts, none holding `-`
/// or `.`) is titled by its word alone, whatever the date, time and id are.
pub proof fn law_stik_file_name_titles_its_word(
    path: Seq<char>,
    date: Seq<char>,
    time: Seq<char>,
    word: Seq<char>,
    id: Seq<char>,
)
    requires
        file_name_of(path) == Some(date + seq!['-'] + time + seq!['-'] + word + seq!['-'] + id + seq!['.', 'm', 'd']),
        forall|i: int| 0 <= i < date.len() ==> date[i] != '-' && date[i] != '.',
        forall|i: int| 0 <= i < time.len() ==> time[i] != '-' && time[i] != '.',
        forall|i: int| 0 <= i < id.len() ==> id[i] != '-' && id[i] != '.',
        forall|i: int| 0 <= i < word.len() ==> word[i] != '-' && word[i] != '.' && !is_ws(word[i]),
        0 < word.len() <= 120,
    ensures
        filename_title(path) == word,
{
    let stem = date + seq!['-'] + time + seq!['-'] + word + seq!['-'] + id;
    let name = stem + seq!['.', 'm', 'd'];
    assert forall|i: int| 0 <= i < stem.len() implies stem[i] != '.' by {
        let a = date.len() as int;
        let b = a + 1 + time.len();
        let c = b + 1 + word.len();
        if i < a {
            assert(stem[i] == date[i]);
        } else if i == a || i == b || i == c {
        } else if i < b {
            assert(stem[i] == time[i - a - 1]);
        } else if i < c {
            assert(stem[i] == word[i - b - 1]);
        } else {
            assert(stem[i] == id[i - c - 1]);
        }
    }
    assert(name.drop_last() =~= stem + seq!['.', 'm']);
    assert((stem + seq!['.', 'm']).drop_last() =~= stem + seq!['.']);
    assert(last_index_of(stem + seq!['.'], '.') == stem.len());
    assert(last_index_of(stem + seq!['.', 'm'], '.') == stem.len());
    assert(last_index_of(name, '.') == stem.len());
    assert(name.take(stem.len() as int) =~= stem);
    assert(file_stem_of(name) == stem);
    lemma_split_on_no_sep(date, '-');
    lemma_split_on_append(date, '-', time);
    lemma_split_on_append(date + seq!['-'] + time, '-', word);
    lemma_split_on_append(date + seq!['-'] + time + seq!['-'] + word, '-', id);
    let parts = split_on(stem, '-');
    assert(parts =~= seq![date, time, word, id]);
    assert(parts.subrange(2, 3) =~= seq![word]);
    assert(join(seq![word], seq![' ']) == word);
    lemma_words_of_one_word(word);
    assert(take_chars(word, 120) == word);
}

/// The title of the first line that gives one, if any.
pub open spec fn first_title(lines: Seq<Seq<char>>) -> Option<Seq<char>>
    decreases lines.len(),
{
    if lines.len() == 0 {
        None
    } else {
        let t = trim(lines[0]);
        if t.len() == 0 || is_break_placeholder(t) {
            first_title(lines.drop_first())
        } else if normalized_title(t).len() > 0 {
            Some(take_chars(normalized_title(t), 120))
        } else {
            first_title(lines.drop_first())
        }
    }
}

/// The title shown for a note: the file name's title for a locked note,
/// else the first line with text, else the file name's title.
pub open spec fn display_title(content: Seq<char>, path: Seq<char>) -> Seq<char> {
    if has_prefix(content, LOCKED_HEADER@) {
        filename_title(path)
    } else {
        match first_title(lines_of(content)) {
            Some(t) => t,
            None => filename_title(path),
        }
    }
}

proof fn lemma_first_title_bounds(lines: Seq<Seq<char>>)
    ensures
        first_title(lines) matches Some(t) ==> 0 < t.len() <= MAX_TITLE_CHARS,
    decreases lines.len(),
{
    if lines.len() > 0 {
        lemma_first_title_bounds(lines.drop_first());
    }
}

/// A note's title is never empty and never longer than 120 characters.
pub proof fn law_display_title_bounds(content: Seq<char>, path: Seq<char>)
    ensures
        0 < display_title(content, path).len() <= MAX_TITLE_CHARS,
{
    reveal_strlit("Untitled");
    lemma_first_title_bounds(lines_of(content));
}

pub fn is_break_placeholder_line(line: &str) -> (res: bool)
    ensures
        res == is_break_placeholder(line@),
{
    let l = chars_of(line);
    let a = chars_of("<br>");
    let b = chars_of("<br/>");
    let c = chars_of("<br />");
    chars_eq_ignore_ascii_case(l.as_slice(), a.as_slice())
        || chars_eq_ignore_ascii_case(l.as_slice(), b.as_slice())
        || chars_eq_ignore_ascii_case(l.as_slice(), c.as_slice())
}

fn normalize_title_chars(line: &[char]) -> (res: Vec<char>)
    ensures
        res@ == normalized_title(line@),
{
    let t = trim_chars(line);
    let d = drop_leading_chars(t.as_slice(), '#');
    collapse_whitespace(d.as_slice())
}

pub fn normalize_display_title(line: &str) -> (res: String)
    ensures
        res@ == normalized_title(line@),
{
    let l = chars_of(line);
    let r = normalize_title_chars(l.as_slice());
    string_from_chars(r.as_slice())
}

fn filename_title_chars(path: &str) -> (res: Vec<char>)
    ensures
        res@ == filename_title(path@),
{
    let p = chars_of(path);
    let stem = match file_name(p.as_slice()) {
        Some(n) => file_stem(n.as_slice()),
        None => chars_of("Untitled"),
    };
    let parts = split_chars(stem.as_slice(), '-');
    proof { lemma_split_on_nonempty(stem@, '-'); }
    let sep = vec![' '];
    assert(sep@ =~= seq![' ']);
    assert(views(parts@) =~= split_on(stem@, '-'));
    let ghost stem_spec = match file_name_of(path@) {
        Some(n) => file_stem_of(n),
        None => "Untitled"@,
    };
    assert(stem@ == stem_spec);
    let raw = if parts.len() > 3 {
        let r = join_range(parts.as_slice(), 2, parts.len() - 1, sep.as_slice());
        assert(views(parts@).subrange(2, parts@.len() - 1) =~= split_on(stem@, '-').subrange(2, parts@.len() - 1));
        r
    } else {
        replace_chars(stem.as_slice(), '-', ' ')
    };
    let title = collapse_whitespace(raw.as_slice());
    assert(raw@ == (if split_on(stem_spec, '-').len() > 3 {
        join(split_on(stem_spec, '-').subrange(2, split_on(stem_spec, '-').len() - 1), seq![' '])
    } else {
        replace_char(stem_spec, '-', ' ')
    }));
    if title.len() == 0 {
        chars_of("Untitled")
    } else {
        take_prefix(title.as_slice(), MAX_TITLE_CHARS)
    }
}

pub fn filename_title_from_path(path: &str) -> (res: String)
    ensures
        res@ == filename_title(path@),
{
    let r = filename_title_chars(path);
    string_from_chars(r.as_slice())
}

pub fn extract_display_title(content: &str, path: &str) -> (res: String)
    ensures
        res@ == display_title(content@, path@),
{
    if is_locked_content(content) {
        return filename_title_from_path(path);
    }
    let c = chars_of(content);
    let lines = lines_chars(c.as_slice());
    let ghost ls = lines_of(content@);
    let mut i: usize = 0;
    assert(ls.skip(0) =~= ls);
    while i < lines.len()
        invariant
            i <= lines@.len(),
            views(lines@) == ls,
            ls == lines_of(content@),
            !has_prefix(content@, LOCKED_HEADER@),
            first_title(ls) == first_title(ls.skip(i as int)),
        decreases lines@.len() - i,
    {
        let ghost rest = ls.skip(i as int);
        assert(rest.drop_first() =~= ls.skip(i + 1));
        assert(rest[0] == lines@[i as int]@);
        let trimmed = trim_chars(lines[i].as_slice());
        let empty_or_break = trimmed.len() == 0 || {
            let tstr = string_from_chars(trimmed.as_slice());
            is_break_placeholder_line(tstr.as_str())
        };
        if !empty_or_break {
            let normalized = normalize_title_chars(trimmed.as_slice());
            if normalized.len() > 0 {
                let t = take_prefix(normalized.as_slice(), MAX_TITLE_CHARS);
                assert(trim(rest[0]) == trimmed@);
                assert(!is_break_placeholder(trimmed@));
                assert(first_title(rest) == Some(t@));
                return string_from_chars(t.as_slice());
            }
        }
        i = i + 1;
    }
    filename_title_from_path(path)
}

// ── Window labels ───────────────────────────────────────────────

/// The unbounded slug of `s`: ASCII letters and digits lowercased, each run
/// of other characters after the first letter or digit turned into one `-`.
pub open spec fn slug_full(s: Seq<char>) -> Seq<char>
    decreases s.len(),
{
    if s.len() == 0 {
        seq![]
    } else {
        let f = slug_full(s.drop_last());
        let c = s.last();
        if is_ascii_alnum(c) {
            f.push(ascii_lower(c))
        } else if f.len() == 0 || f.last() == '-' {
            f
        } else {
            f.push('-')
        }
    }
}

/// The label slug of a title: the unbounded slug cut to 48 characters,
/// without leading or trailing `-`, or `untitled` when nothing is left.
pub open spec fn slug_of(title: Seq<char>) -> Seq<char> {
    let t = drop_trailing(drop_leading(take_chars(slug_full(title), 48), '-'), '-');
    if t.len() == 0 {
        "untitled"@
    } else {
        t
    }
}

/// A character that a window label may hold.
pub open spec fn is_label_char(c: char) -> bool {
    ('a' <= c && c <= 'z') || ('0' <= c && c <= '9') || c == '-'
}

/// `p` begins `s`, element by element.
pub open spec fn is_prefix(p: Seq<char>, s: Seq<char>) -> bool {
    p.len() <= s.len() && forall|i: int| 0 <= i < p.len() ==> p[i] == s[i]
}

proof fn lemma_slug_full_prefix(s: Seq<char>, j: int)
    requires
        0 <= j <= s.len(),
    ensures
        is_prefix(slug_full(s.take(j)), slug_full(s)),
    decreases s.len(),
{
    if j == s.len() {
        assert(s.take(j) =~= s);
    } else {
        lemma_slug_full_prefix(s.drop_last(), j);
        assert(s.drop_last().take(j) =~= s.take(j));
    }
}

proof fn lemma_slug_full_chars(s: Seq<char>)
    ensures
        forall|i: int| 0 <= i < slug_full(s).len() ==> is_label_char(#[trigger] slug_full(s)[i]),
        slug_full(s).len() > 0 ==> slug_full(s)[0] != '-',
    decreases s.len(),
{
    if s.len() > 0 {
        lemma_slug_full_chars(s.drop_last());
        let f = slug_full(s.drop_last());
        let c = s.last();
        if is_ascii_alnum(c) {
            assert(is_label_char(ascii_lower(c))) by {
                if 'A' <= c && c <= 'Z' {
                    assert(((c as u8) + 32) as u8 as char == (((c as u8) + 32) as u8) as char);
                }
            }
            assert forall|i: int| 0 <= i < f.push(ascii_lower(c)).len() implies is_label_char(
                #[trigger] f.push(ascii_lower(c))[i],
            ) by {
                if i < f.len() {
                    assert(f.push(ascii_lower(c))[i] == f[i]);
                }
            }
        } else if !(f.len() == 0 || f.last() == '-') {
            assert forall|i: int| 0 <= i < f.push('-').len() implies is_label_char(#[trigger] f.push('-')[i]) by {
                if i < f.len() {
                    assert(f.push('-')[i] == f[i]);
                }
            }
        }
    }
}

proof fn lemma_drop_leading_keeps_label_chars(s: Seq<char>)
    requires
        forall|i: int| 0 <= i < s.len() ==> is_label_char(#[trigger] s[i]),
    ensures
        forall|i: int| 0 <= i < drop_leading(s, '-').len() ==> is_label_char(#[trigger] drop_leading(s, '-')[i]),
    decreases s.len(),
{
    if s.len() > 0 && s[0] == '-' {
        let t = s.drop_first();
        assert forall|i: int| 0 <= i < t.len() implies is_label_char(#[trigger] t[i]) by {
            assert(t[i] == s[i + 1]);
        }
        lemma_drop_leading_keeps_label_chars(t);
        assert(drop_leading(s, '-') == drop_leading(t, '-'));
    }
}

proof fn lemma_drop_trailing_keeps_label_chars(s: Seq<char>)
    requires
        forall|i: int| 0 <= i < s.len() ==> is_label_char(#[trigger] s[i]),
    ensures
        forall|i: int| 0 <= i < drop_trailing(s, '-').len() ==> is_label_char(#[trigger] drop_trailing(s, '-')[i]),
    decreases s.len(),
{
    if s.len() > 0 && s.last() == '-' {
        let t = s.drop_last();
        assert forall|i: int| 0 <= i < t.len() implies is_label_char(#[trigger] t[i]) by {
            assert(t[i] == s[i]);
        }
        lemma_drop_trailing_keeps_label_chars(t);
        assert(drop_trailing(s, '-') == drop_trailing(t, '-'));
    }
}

/// No two `-` stand next to each other in `s`.
pub open spec fn no_double_dash(s: Seq<char>) -> bool {
    forall|i: int, j: int| #![trigger s[i], s[j]] 0 <= i && j == i + 1 && j < s.len() ==> !(s[i] == '-' && s[j] == '-')
}

proof fn lemma_slug_full_no_double_dash(s: Seq<char>)
    ensures
        no_double_dash(slug_full(s)),
    decreases s.len(),
{
    if s.len() > 0 {
        lemma_slug_full_no_double_dash(s.drop_last());
        let f = slug_full(s.drop_last());
        let c = s.last();
        let g = slug_full(s);
        assert forall|i: int, j: int| 0 <= i && j == i + 1 && j < g.len() implies !(#[trigger] g[i] == '-' && #[trigger] g[j]
            == '-') by {
            if j < f.len() {
                assert(g[i] == f[i] && g[j] == f[j]);
            } else if is_ascii_alnum(c) {
                assert(g[j] == ascii_lower(c));
                if 'A' <= c && c <= 'Z' {
                    assert(((c as u8) + 32) as u8 as char == (((c as u8) + 32) as u8) as char);
                }
            } else {
                assert(g[i] == f.last());
            }
        }
    }
}

/// A part of `s` from `start` to `end` keeps `s` free of double dashes.
proof fn lemma_no_double_dash_subrange(s: Seq<char>, start: int, end: int)
    requires
        0 <= start <= end <= s.len(),
        no_double_dash(s),
    ensures
        no_double_dash(s.subrange(start, end)),
{
    let t = s.subrange(start, end);
    assert forall|i: int, j: int| 0 <= i && j == i + 1 && j < t.len() implies !(#[trigger] t[i] == '-' && #[trigger] t[j]
        == '-') by {
        assert(t[i] == s[start + i] && t[j] == s[start + j]);
    }
}

proof fn lemma_drop_leading_is_suffix(s: Seq<char>, c: char)
    ensures
        drop_leading(s, c).len() <= s.len(),
        drop_leading(s, c) == s.subrange(s.len() - drop_leading(s, c).len(), s.len() as int),
        drop_leading(s, c).len() > 0 ==> drop_leading(s, c)[0] != c,
    decreases s.len(),
{
    if s.len() > 0 && s[0] == c {
        lemma_drop_leading_is_suffix(s.drop_first(), c);
        let t = drop_leading(s, c);
        assert(s.drop_first().subrange(s.drop_first().len() - t.len(), s.drop_first().len() as int) =~= s.subrange(
            s.len() - t.len(),
            s.len() as int,
        ));
    } else {
        assert(s.subrange(0, s.len() as int) =~= s);
    }
}

proof fn lemma_drop_trailing_is_prefix(s: Seq<char>, c: char)
    ensures
        drop_trailing(s, c).len() <= s.len(),
        drop_trailing(s, c) == s.subrange(0, drop_trailing(s, c).len() as int),
        drop_trailing(s, c).len() > 0 ==> drop_trailing(s, c).last() != c,
    decreases s.len(),
{
    if s.len() > 0 && s.last() == c {
        lemma_drop_trailing_is_prefix(s.drop_last(), c);
        let t = drop_trailing(s, c);
        assert(s.drop_last().subrange(0, t.len() as int) =~= s.subrange(0, t.len() as int));
    } else {
        assert(s.subrange(0, s.len() as int) =~= s);
    }
}

/// The slug of any title is never empty, neither begins nor ends with `-`,
/// and never holds two `-` in a row.
pub proof fn law_slug_shape(title: Seq<char>)
    ensures
        slug_of(title).len() > 0,
        slug_of(title)[0] != '-',
        slug_of(title).last() != '-',
        no_double_dash(slug_of(title)),
{
    let full = slug_full(title);
    lemma_slug_full_no_double_dash(title);
    let cut = take_chars(full, 48);
    if full.len() > 48 {
        lemma_no_double_dash_subrange(full, 0, 48);
        assert(full.take(48) =~= full.subrange(0, 48));
    }
    assert(no_double_dash(cut));
    let lead = drop_leading(cut, '-');
    lemma_drop_leading_is_suffix(cut, '-');
    lemma_no_double_dash_subrange(cut, cut.len() - lead.len(), cut.len() as int);
    let t = drop_trailing(lead, '-');
    lemma_drop_trailing_is_prefix(lead, '-');
    lemma_no_double_dash_subrange(lead, 0, t.len() as int);
    if t.len() == 0 {
        reveal_strlit("untitled");
        let u = "untitled"@;
        assert forall|i: int, j: int| 0 <= i && j == i + 1 && j < u.len() implies !(#[trigger] u[i] == '-' && #[trigger] u[j]
            == '-') by {}
    } else {
        assert(t[0] == lead[0]);
    }
}

/// The slug of a title, for use in a window label.
pub fn sanitize_label_slug(title: &str) -> (res: String)
    ensures
        res@ == slug_of(title@),
        res@.len() > 0,
        res@.len() <= MAX_VIEWING_SLUG_LEN,
        forall|i: int| 0 <= i < res@.len() ==> is_label_char(#[trigger] res@[i]),
{
    let cs = chars_of(title);
    let n = cs.len();
    let mut slug: Vec<char> = Vec::new();
    let mut last_was_separator = false;
    let mut stopped = false;
    let mut i: usize = 0;
    while i < n && !stopped
        invariant
            i <= n,
            n == cs@.len(),
            slug@ == slug_full(cs@.take(i as int)),
            slug@.len() <= MAX_VIEWING_SLUG_LEN,
            last_was_separator == (slug@.len() > 0 && slug@.last() == '-'),
            stopped ==> slug@.len() == MAX_VIEWING_SLUG_LEN,
        decreases n - i + (if stopped { 0int } else { 1int }),
    {
        let ch = cs[i];
        let ghost pre = cs@.take(i as int);
        assert(cs@.take(i + 1).drop_last() =~= pre);
        if is_alnum(ch) {
            if slug.len() >= MAX_VIEWING_SLUG_LEN {
                stopped = true;
            } else {
                slug.push(char_to_ascii_lower(ch));
                last_was_separator = false;
                i = i + 1;
            }
        } else if slug.len() == 0 || last_was_separator {
            i = i + 1;
        } else if slug.len() >= MAX_VIEWING_SLUG_LEN {
            stopped = true;
        } else {
            slug.push('-');
            last_was_separator = true;
            i = i + 1;
        }
    }
    proof {
        lemma_slug_full_prefix(cs@, i as int);
        if stopped {
            assert(take_chars(slug_full(cs@), 48) =~= slug@);
        } else {
            assert(cs@.take(i as int) =~= cs@);
        }
        lemma_slug_full_chars(cs@);
        lemma_slug_full_chars(cs@.take(i as int));
    }
    let lead = drop_leading_chars(slug.as_slice(), '-');
    let trimmed = drop_trailing_chars(lead.as_slice(), '-');
    proof {
        lemma_drop_leading_keeps_label_chars(slug@);
        lemma_drop_trailing_keeps_label_chars(lead@);
        lemma_drop_len(slug@);
        lemma_drop_len(lead@);
    }
    if trimmed.len() == 0 {
        proof {
            reveal_strlit("untitled");
        }
        let u = string_from_chars(chars_of("untitled").as_slice());
        return u;
    }
    string_from_chars(trimmed.as_slice())
}

proof fn lemma_drop_len(s: Seq<char>)
    ensures
        drop_leading(s, '-').len() <= s.len(),
        drop_trailing(s, '-').len() <= s.len(),
    decreases s.len(),
{
    if s.len() > 0 {
        lemma_drop_len(s.drop_first());
        lemma_drop_len(s.drop_last());
    }
}

fn is_alnum(c: char) -> (res: bool)
    ensures
        res == is_ascii_alnum(c),
{
    ('0' <= c && c <= '9') || ('a' <= c && c <= 'z') || ('A' <= c && c <= 'Z')
}

// ── Path hash ───────────────────────────────────────────────────

pub const FNV_OFFSET_BASIS: u64 = 0xcbf29ce484222325;
pub const FNV_PRIME: u64 = 0x100000001b3;

/// The 64-bit FNV-1a hash of `bytes`.
pub open spec fn fnv1a(bytes: Seq<u8>) -> u64
    decreases bytes.len(),
{
    if bytes.len() == 0 {
        FNV_OFFSET_BASIS
    } else {
        (fnv1a(bytes.drop_last()) ^ (bytes.last() as u64)).wrapping_mul(FNV_PRIME)
    }
}

/// A short stable hash of a path: the first 12 hexadecimal digits of the
/// FNV-1a hash of its UTF-8 bytes.
pub open spec fn path_hash(path: Seq<char>) -> Seq<char> {
    hex_digits(fnv1a(encode_utf8(path)), 12)
}

pub fn stable_path_hash(path: &str) -> (res: String)
    ensures
        res@ == path_hash(path@),
        res@.len() == 12,
        forall|i: int| 0 <= i < res@.len() ==> is_label_char(#[trigger] res@[i]),
{
    let bytes = path.as_bytes();
    let mut hash: u64 = FNV_OFFSET_BASIS;
    let mut i: usize = 0;
    while i < bytes.len()
        invariant
            i <= bytes@.len(),
            bytes@ == encode_utf8(path@),
            hash == fnv1a(bytes@.take(i as int)),
        decreases bytes@.len() - i,
    {
        assert(bytes@.take(i + 1).drop_last() =~= bytes@.take(i as int));
        hash = hash ^ (bytes[i] as u64);
        hash = hash.wrapping_mul(FNV_PRIME);
        i = i + 1;
    }
    assert(bytes@.take(bytes@.len() as int) =~= bytes@);
    let digits = hex_prefix(hash, 12);
    string_from_chars(digits.as_slice())
}

// ── Viewing window identity ─────────────────────────────────────

pub struct ViewingWindowIdentity {
    pub display_title: String,
    pub viewing_id: String,
}

/// The label of the viewing window of a note: `view-`, the slug of its
/// title, `-`, the hash of its path.
pub open spec fn viewing_id(content: Seq<char>, path: Seq<char>) -> Seq<char> {
    "view-"@ + slug_of(display_title(content, path)) + "-"@ + path_hash(path)
}

/// The title and window label of a note opened for viewing. The label is
/// Tauri-safe: lowercase ASCII letters, digits and `-` only.
pub fn derive_viewing_window_identity(content: &str, path: &str) -> (res: ViewingWindowIdentity)
    ensures
        res.display_title@ == display_title(content@, path@),
        res.viewing_id@ == viewing_id(content@, path@),
        forall|i: int| 0 <= i < res.viewing_id@.len() ==> is_label_char(#[trigger] res.viewing_id@[i]),
        has_prefix(res.viewing_id@, "view-"@),
{
    let display_title = extract_display_title(content, path);
    let title_slug = sanitize_label_slug(display_title.as_str());
    let path_hash = stable_path_hash(path);
    let mut id = String::from_str("view-");
    id.append(title_slug.as_str());
    id.append("-");
    id.append(path_hash.as_str());
    proof {
        reveal_strlit("view-");
        reveal_strlit("-");
        let v = id@;
        assert(v =~= "view-"@ + title_slug@ + "-"@ + path_hash@);
        assert forall|i: int| 0 <= i < v.len() implies is_label_char(#[trigger] v[i]) by {
            if i < 5 {
            } else if i < 5 + title_slug@.len() {
                assert(v[i] == title_slug@[i - 5]);
            } else if i == 5 + title_slug@.len() {
            } else {
                assert(v[i] == path_hash@[i - 6 - title_slug@.len()]);
            }
        }
        assert(v.take(5) =~= "view-"@);
    }
    ViewingWindowIdentity { display_title, viewing_id: id }
}

/// The window label of a note depends only on its title and its path:
/// reopening the same note finds the same window.
pub proof fn law_viewing_id_depends_on_title_and_path(content: Seq<char>, other_content: Seq<char>, path: Seq<char>)
    requires
        display_title(content, path) == display_title(other_content, path),
    ensures
        viewing_id(content, path) == viewing_id(other_content, path),
{
}

// ── Last saved note ─────────────────────────────────────────────

/// The note that the "reopen last note" shortcut opens.
pub struct LastSavedNote {
    pub path: String,
    pub folder: String,
}

/// Remember a note as the last one; a blank path is ignored.
pub fn remember_last_note(last: &mut Option<LastSavedNote>, path: &str, folder: &str)
    ensures
        trim(path@).len() == 0 ==> *final(last) == *old(last),
        trim(path@).len() > 0 ==> (*final(last) matches Some(n) && n.path@ == path@ && n.folder@ == folder@),
{
    let p = chars_of(path);
    let t = trim_chars(p.as_slice());
    if t.len() == 0 {
        return;
    }
    *last = Some(LastSavedNote { path: String::from_str(path), folder: String::from_str(folder) });
}

} // verus!
