use vstd::prelude::*;

verus! {

// ── Character classes ───────────────────────────────────────────

/// The Unicode `White_Space` property, which is what `char::is_whitespace`
/// tests (and hence `str::trim` and `str::split_whitespace` use).
pub open spec fn is_ws(c: char) -> bool {
    let u = c as u32;
    (0x09 <= u && u <= 0x0d) || u == 0x20 || u == 0x85 || u == 0xa0 || u == 0x1680
        || (0x2000 <= u && u <= 0x200a) || u == 0x2028 || u == 0x2029 || u == 0x202f
        || u == 0x205f || u == 0x3000
}

pub fn char_is_ws(c: char) -> (res: bool)
    ensures
        res == is_ws(c),
{
    let u = c as u32;
    (0x09 <= u && u <= 0x0d) || u == 0x20 || u == 0x85 || u == 0xa0 || u == 0x1680
        || (0x2000 <= u && u <= 0x200a) || u == 0x2028 || u == 0x2029 || u == 0x202f
        || u == 0x205f || u == 0x3000
}

// ── Sequences of characters ─────────────────────────────────────

/// `s` with its leading whitespace removed.
pub open spec fn trim_start(s: Seq<char>) -> Seq<char>
    decreases s.len(),
{
    if s.len() > 0 && is_ws(s[0]) {
        trim_start(s.drop_first())
    } else {
        s
    }
}

/// `s` with its trailing whitespace removed.
pub open spec fn trim_end(s: Seq<char>) -> Seq<char>
    decreases s.len(),
{
    if s.len() > 0 && is_ws(s.last()) {
        trim_end(s.drop_last())
    } else {
        s
    }
}

/// What `str::trim` gives: leading and trailing whitespace removed.
pub open spec fn trim(s: Seq<char>) -> Seq<char> {
    trim_end(trim_start(s))
}

proof fn lemma_trim_start_front(s: Seq<char>)
    ensures
        trim_start(s).len() > 0 ==> !is_ws(trim_start(s)[0]),
    decreases s.len(),
{
    if s.len() > 0 && is_ws(s[0]) {
        lemma_trim_start_front(s.drop_first());
    }
}

proof fn lemma_trim_end_shape(s: Seq<char>)
    ensures
        trim_end(s).len() <= s.len(),
        trim_end(s) == s.take(trim_end(s).len() as int),
        trim_end(s).len() > 0 ==> !is_ws(trim_end(s).last()),
    decreases s.len(),
{
    if s.len() > 0 && is_ws(s.last()) {
        lemma_trim_end_shape(s.drop_last());
        assert(s.drop_last().take(trim_end(s).len() as int) =~= s.take(trim_end(s).len() as int));
    } else {
        assert(s.take(s.len() as int) =~= s);
    }
}

/// Trimming twice trims no more than once.
pub proof fn lemma_trim_idempotent(s: Seq<char>)
    ensures
        trim(trim(s)) == trim(s),
{
    let t = trim_start(s);
    let u = trim_end(t);
    lemma_trim_start_front(s);
    lemma_trim_end_shape(t);
    if u.len() > 0 {
        assert(u[0] == t[0]);
    }
    assert(trim_start(u) == u);
    assert(trim_end(u) == u);
}

/// `s` with every leading `c` removed (`str::trim_start_matches` with a char).
pub open spec fn drop_leading(s: Seq<char>, c: char) -> Seq<char>
    decreases s.len(),
{
    if s.len() > 0 && s[0] == c {
        drop_leading(s.drop_first(), c)
    } else {
        s
    }
}

/// The maximal runs of non-whitespace characters of `s`, in order
/// (what `str::split_whitespace` yields).
pub open spec fn words(s: Seq<char>) -> Seq<Seq<char>>
    decreases s.len(),
{
    if s.len() == 0 {
        seq![]
    } else {
        let w = words(s.drop_last());
        let c = s.last();
        if is_ws(c) {
            w
        } else if s.len() == 1 || is_ws(s[s.len() - 2]) {
            w.push(seq![c])
        } else {
            w.update(w.len() - 1, w.last().push(c))
        }
    }
}

/// The parts joined with `sep` between consecutive parts.
pub open spec fn join(parts: Seq<Seq<char>>, sep: Seq<char>) -> Seq<char>
    decreases parts.len(),
{
    if parts.len() == 0 {
        seq![]
    } else if parts.len() == 1 {
        parts[0]
    } else {
        join(parts.drop_last(), sep) + sep + parts.last()
    }
}

/// The pieces of `s` between occurrences of `c` (what `str::split` with a
/// char yields); there is always at least one piece.
pub open spec fn split_on(s: Seq<char>, c: char) -> Seq<Seq<char>>
    decreases s.len(),
{
    if s.len() == 0 {
        seq![seq![]]
    } else {
        let p = split_on(s.drop_last(), c);
        if s.last() == c {
            p.push(seq![])
        } else {
            p.update(p.len() - 1, p.last().push(s.last()))
        }
    }
}

/// `s` without one trailing carriage return.
pub open spec fn strip_cr(s: Seq<char>) -> Seq<char> {
    if s.len() > 0 && s.last() == '\r' {
        s.drop_last()
    } else {
        s
    }
}

/// The lines of `s` as `str::lines` yields them: split at `\n`, a `\r`
/// right before a `\n` removed, and no empty line after a final `\n`.
pub open spec fn lines_of(s: Seq<char>) -> Seq<Seq<char>> {
    let p = split_on(s, '\n');
    let body = Seq::new((p.len() - 1) as nat, |k: int| strip_cr(p[k]));
    if p.last().len() == 0 {
        body
    } else {
        body.push(p.last())
    }
}

/// A text without the separator is one piece.
pub proof fn lemma_split_on_no_sep(t: Seq<char>, c: char)
    requires
        forall|i: int| 0 <= i < t.len() ==> t[i] != c,
    ensures
        split_on(t, c) == seq![t],
    decreases t.len(),
{
    if t.len() > 0 {
        lemma_split_on_no_sep(t.drop_last(), c);
        assert(t.drop_last().push(t.last()) =~= t);
        assert(seq![t.drop_last()].update(0, t.drop_last().push(t.last())) =~= seq![t]);
    } else {
        assert(t =~= seq![]);
        assert(seq![seq![]] =~= seq![t]);
    }
}

/// A separator followed by a text without it ends the pieces with that text.
pub proof fn lemma_split_on_append(s: Seq<char>, c: char, t: Seq<char>)
    requires
        forall|i: int| 0 <= i < t.len() ==> t[i] != c,
    ensures
        split_on(s + seq![c] + t, c) == split_on(s, c).push(t),
    decreases t.len(),
{
    let x = s + seq![c] + t;
    if t.len() == 0 {
        assert(x =~= s.push(c));
        assert(x.drop_last() =~= s);
        assert(t =~= seq![]);
        assert(split_on(s, c).push(seq![]) =~= split_on(s, c).push(t));
    } else {
        let t0 = t.drop_last();
        lemma_split_on_append(s, c, t0);
        assert(x.drop_last() =~= s + seq![c] + t0);
        let p = split_on(s, c).push(t0);
        assert(t0.push(t.last()) =~= t);
        assert(p.update(p.len() - 1, p.last().push(t.last())) =~= split_on(s, c).push(t));
    }
}

/// No piece holds the separator.
pub proof fn lemma_split_on_pieces(s: Seq<char>, c: char)
    ensures
        forall|k: int, i: int| 0 <= k < split_on(s, c).len() && 0 <= i < split_on(s, c)[k].len()
            ==> #[trigger] split_on(s, c)[k][i] != c,
    decreases s.len(),
{
    if s.len() > 0 {
        let p = split_on(s.drop_last(), c);
        lemma_split_on_pieces(s.drop_last(), c);
        lemma_split_on_nonempty(s.drop_last(), c);
        if s.last() != c {
            let q = p.update(p.len() - 1, p.last().push(s.last()));
            assert forall|k: int, i: int| 0 <= k < q.len() && 0 <= i < q[k].len() implies #[trigger] q[k][i] != c by {
                if k == p.len() - 1 && i == p.last().len() {
                } else if k == p.len() - 1 {
                    assert(q[k][i] == p[k][i]);
                } else {
                    assert(q[k] == p[k]);
                }
            }
        } else {
            let q = p.push(seq![]);
            assert forall|k: int, i: int| 0 <= k < q.len() && 0 <= i < q[k].len() implies #[trigger] q[k][i] != c by {
                assert(q[k] == p[k]);
            }
        }
    }
}

/// `p` is a prefix of `s`.
pub open spec fn has_prefix(s: Seq<char>, p: Seq<char>) -> bool {
    p.len() <= s.len() && s.take(p.len() as int) == p
}

// ── Lemmas ──────────────────────────────────────────────────────

pub proof fn lemma_split_on_nonempty(s: Seq<char>, c: char)
    ensures
        split_on(s, c).len() >= 1,
    decreases s.len(),
{
    if s.len() > 0 {
        lemma_split_on_nonempty(s.drop_last(), c);
    }
}

pub proof fn lemma_words_nonempty(s: Seq<char>)
    ensures
        forall|k: int| 0 <= k < words(s).len() ==> #[trigger] words(s)[k].len() > 0,
        s.len() > 0 && !is_ws(s.last()) ==> words(s).len() > 0,
    decreases s.len(),
{
    if s.len() > 0 {
        let t = s.drop_last();
        lemma_words_nonempty(t);
        if s.len() > 1 {
            assert(t.last() == s[s.len() - 2]);
        }
        let w = words(t);
        let c = s.last();
        if !is_ws(c) && !(s.len() == 1 || is_ws(s[s.len() - 2])) {
            let w2 = w.update(w.len() - 1, w.last().push(c));
            assert(words(s) == w2);
            assert forall|k: int| 0 <= k < w2.len() implies #[trigger] w2[k].len() > 0 by {
                if k != w.len() - 1 {
                    assert(w2[k] == w[k]);
                }
            }
        } else if !is_ws(c) {
            let w2 = w.push(seq![c]);
            assert(words(s) == w2);
            assert forall|k: int| 0 <= k < w2.len() implies #[trigger] w2[k].len() > 0 by {
                if k < w.len() {
                    assert(w2[k] == w[k]);
                }
            }
        }
    }
}

pub proof fn lemma_join_extend_last(w: Seq<Seq<char>>, sep: Seq<char>, c: char)
    requires
        w.len() > 0,
    ensures
        join(w.update(w.len() - 1, w.last().push(c)), sep) == join(w, sep).push(c),
{
    let w2 = w.update(w.len() - 1, w.last().push(c));
    if w.len() == 1 {
    } else {
        assert(w2.drop_last() =~= w.drop_last());
        assert(join(w2, sep) =~= join(w, sep).push(c));
    }
}

pub proof fn lemma_join_push(w: Seq<Seq<char>>, sep: Seq<char>, x: Seq<char>)
    ensures
        join(w.push(x), sep) == if w.len() == 0 { x } else { join(w, sep) + sep + x },
{
    assert(w.push(x).drop_last() =~= w);
}

pub proof fn lemma_join_empty_iff(w: Seq<Seq<char>>, sep: Seq<char>)
    requires
        forall|k: int| 0 <= k < w.len() ==> #[trigger] w[k].len() > 0,
    ensures
        join(w, sep).len() == 0 <==> w.len() == 0,
    decreases w.len(),
{
    if w.len() > 1 {
        lemma_join_empty_iff(w.drop_last(), sep);
    }
}


// ── Executable helpers ──────────────────────────────────────────

/// The characters of `s`, in order.
pub fn chars_of(s: &str) -> (res: Vec<char>)
    ensures
        res@ == s@,
{
    let mut res: Vec<char> = Vec::new();
    for c in it: s.chars()
        invariant
            res@ == it.seq().take(it.index() as int),
            it.seq() == s@,
    {
        res.push(c);
    }
    res
}

/// A `String` holding exactly the given characters
/// (`FromIterator<&char> for String`).
#[verifier::external_body]
pub(crate) fn string_from_chars(v: &[char]) -> (res: String)
    ensures
        res@ == v@,
{
    v.iter().collect::<String>()
}

/// The range `[start, end)` of `s` that `trim` keeps.
pub fn trim_bounds(s: &[char]) -> (res: (usize, usize))
    ensures
        res.0 <= res.1 <= s@.len(),
        s@.subrange(res.0 as int, res.1 as int) == trim(s@),
{
    let n = s.len();
    let mut i: usize = 0;
    assert(s@.subrange(0, n as int) =~= s@);
    while i < n && char_is_ws(s[i])
        invariant
            i <= n,
            n == s@.len(),
            trim_start(s@) == trim_start(s@.subrange(i as int, n as int)),
        decreases n - i,
    {
        assert(s@.subrange(i as int, n as int).drop_first() =~= s@.subrange(i + 1, n as int));
        i = i + 1;
    }
    assert(trim_start(s@) == s@.subrange(i as int, n as int));
    let mut j: usize = n;
    while j > i && char_is_ws(s[j - 1])
        invariant
            i <= j <= n,
            n == s@.len(),
            trim(s@) == trim_end(s@.subrange(i as int, j as int)),
        decreases j,
    {
        assert(s@.subrange(i as int, j as int).drop_last() =~= s@.subrange(i as int, j - 1));
        j = j - 1;
    }
    (i, j)
}

/// What `str::trim` gives, as characters.
pub fn trim_chars(s: &[char]) -> (res: Vec<char>)
    ensures
        res@ == trim(s@),
{
    let (a, b) = trim_bounds(s);
    let mut res: Vec<char> = Vec::new();
    let mut k = a;
    while k < b
        invariant
            a <= k <= b <= s@.len(),
            res@ == s@.subrange(a as int, k as int),
        decreases b - k,
    {
        res.push(s[k]);
        k = k + 1;
        assert(res@ =~= s@.subrange(a as int, k as int));
    }
    res
}

/// What `str::trim` gives.
pub fn trim_str(s: &str) -> (res: String)
    ensures
        res@ == trim(s@),
{
    let v = chars_of(s);
    let t = trim_chars(v.as_slice());
    string_from_chars(t.as_slice())
}

/// The words of `s` joined by single spaces
/// (`split_whitespace().collect::<Vec<_>>().join(" ")`).
pub fn collapse_whitespace(s: &[char]) -> (res: Vec<char>)
    ensures
        res@ == join(words(s@), seq![' ']),
{
    let n = s.len();
    let mut res: Vec<char> = Vec::new();
    let mut i: usize = 0;
    while i < n
        invariant
            i <= n,
            n == s@.len(),
            res@ == join(words(s@.take(i as int)), seq![' ']),
        decreases n - i,
    {
        let c = s[i];
        let ghost pre = s@.take(i as int);
        let ghost cur = s@.take(i + 1);
        assert(cur.drop_last() =~= pre);
        proof {
            lemma_words_nonempty(pre);
            lemma_join_empty_iff(words(pre), seq![' ']);
        }
        if char_is_ws(c) {
        } else if i == 0 || char_is_ws(s[i - 1]) {
            proof {
                lemma_join_push(words(pre), seq![' '], seq![c]);
            }
            if res.len() > 0 {
                res.push(' ');
            }
            res.push(c);
            assert(res@ =~= join(words(cur), seq![' ']));
        } else {
            proof {
                lemma_join_extend_last(words(pre), seq![' '], c);
            }
            res.push(c);
        }
        i = i + 1;
    }
    assert(s@.take(n as int) =~= s@);
    res
}

/// The pieces of `s` between occurrences of `c`.
pub fn split_chars(s: &[char], c: char) -> (res: Vec<Vec<char>>)
    ensures
        res@.len() == split_on(s@, c).len(),
        forall|k: int| 0 <= k < res@.len() ==> #[trigger] res@[k]@ == split_on(s@, c)[k],
{
    let n = s.len();
    let mut done: Vec<Vec<char>> = Vec::new();
    let mut cur: Vec<char> = Vec::new();
    let mut i: usize = 0;
    while i < n
        invariant
            i <= n,
            n == s@.len(),
            done@.len() + 1 == split_on(s@.take(i as int), c).len(),
            forall|k: int| 0 <= k < done@.len() ==> #[trigger] done@[k]@ == split_on(s@.take(i as int), c)[k],
            cur@ == split_on(s@.take(i as int), c).last(),
        decreases n - i,
    {
        let ghost pre = s@.take(i as int);
        assert(s@.take(i + 1).drop_last() =~= pre);
        proof { lemma_split_on_nonempty(pre, c); }
        if s[i] == c {
            let piece = cur;
            done.push(piece);
            cur = Vec::new();
        } else {
            cur.push(s[i]);
        }
        i = i + 1;
    }
    assert(s@.take(n as int) =~= s@);
    done.push(cur);
    done
}


/// The views of a sequence of character vectors.
pub open spec fn views(v: Seq<Vec<char>>) -> Seq<Seq<char>> {
    Seq::new(v.len(), |i: int| v[i]@)
}

/// The characters `s[start..end]`, copied.
pub fn copy_range(s: &[char], start: usize, end: usize) -> (res: Vec<char>)
    requires
        start <= end <= s@.len(),
    ensures
        res@ == s@.subrange(start as int, end as int),
{
    let mut res: Vec<char> = Vec::new();
    let mut k = start;
    while k < end
        invariant
            start <= k <= end <= s@.len(),
            res@ == s@.subrange(start as int, k as int),
        decreases end - k,
    {
        res.push(s[k]);
        k = k + 1;
        assert(res@ =~= s@.subrange(start as int, k as int));
    }
    res
}

/// Whether `s` begins with `p`.
pub fn starts_with_chars(s: &[char], p: &[char]) -> (res: bool)
    ensures
        res == has_prefix(s@, p@),
{
    if p.len() > s.len() {
        return false;
    }
    let mut i: usize = 0;
    while i < p.len()
        invariant
            i <= p@.len() <= s@.len(),
            s@.take(i as int) == p@.take(i as int),
        decreases p@.len() - i,
    {
        if s[i] != p[i] {
            assert(s@.take(p@.len() as int)[i as int] != p@[i as int]);
            return false;
        }
        i = i + 1;
        assert(s@.take(i as int) =~= p@.take(i as int));
    }
    assert(p@.take(p@.len() as int) =~= p@);
    true
}

/// Whether `a` and `b` hold the same characters.
pub fn chars_eq(a: &[char], b: &[char]) -> (res: bool)
    ensures
        res == (a@ == b@),
{
    if a.len() != b.len() {
        return false;
    }
    let r = starts_with_chars(a, b);
    assert(a@.take(b@.len() as int) =~= a@);
    r
}

/// The lines of `s` (what `str::lines` yields).
pub fn lines_chars(s: &[char]) -> (res: Vec<Vec<char>>)
    ensures
        views(res@) == lines_of(s@),
{
    let parts = split_chars(s, '\n');
    let ghost p = split_on(s@, '\n');
    proof { lemma_split_on_nonempty(s@, '\n'); }
    let m = parts.len();
    let mut res: Vec<Vec<char>> = Vec::new();
    let mut k: usize = 0;
    while k + 1 < m
        invariant
            m == p.len() >= 1,
            parts@.len() == m,
            forall|j: int| 0 <= j < m ==> #[trigger] parts@[j]@ == p[j],
            k + 1 <= m,
            res@.len() == k,
            forall|j: int| 0 <= j < k ==> #[trigger] res@[j]@ == strip_cr(p[j]),
        decreases m - k,
    {
        let part = &parts[k];
        let n = part.len();
        let line = if n > 0 && part[n - 1] == '\r' {
            copy_range(part.as_slice(), 0, n - 1)
        } else {
            copy_range(part.as_slice(), 0, n)
        };
        proof {
            assert(part@.subrange(0, n as int) =~= part@);
            assert(part@.subrange(0, n - 1) =~= part@.drop_last());
        }
        res.push(line);
        k = k + 1;
    }
    let last = &parts[m - 1];
    if last.len() > 0 {
        let l = copy_range(last.as_slice(), 0, last.len());
        assert(last@.subrange(0, last@.len() as int) =~= last@);
        res.push(l);
    }
    proof {
        let body = Seq::new((p.len() - 1) as nat, |k: int| strip_cr(p[k]));
        if p.last().len() == 0 {
            assert(views(res@) =~= body);
        } else {
            assert(views(res@) =~= body.push(p.last()));
        }
    }
    res
}

/// The parts from index `start` on, joined with `sep` between them.
pub fn join_from(parts: &[Vec<char>], start: usize, sep: &[char]) -> (res: Vec<char>)
    requires
        start <= parts@.len(),
    ensures
        res@ == join(views(parts@).skip(start as int), sep@),
{
    let r = join_range(parts, start, parts.len(), sep);
    assert(views(parts@).subrange(start as int, parts@.len() as int) =~= views(parts@).skip(start as int));
    r
}

/// The parts with indices in `[start, end)`, joined with `sep` between them.
pub fn join_range(parts: &[Vec<char>], start: usize, end: usize, sep: &[char]) -> (res: Vec<char>)
    requires
        start <= end <= parts@.len(),
    ensures
        res@ == join(views(parts@).subrange(start as int, end as int), sep@),
{
    let n = end;
    let mut res: Vec<char> = Vec::new();
    let mut i = start;
    let ghost all = views(parts@).subrange(start as int, end as int);
    assert(all.take(0) =~= Seq::<Seq<char>>::empty());
    while i < n
        invariant
            start <= i <= n,
            n <= parts@.len(),
            all == views(parts@).subrange(start as int, end as int),
            n == end,
            res@ == join(all.take(i - start), sep@),
        decreases n - i,
    {
        let ghost pre = all.take(i - start);
        proof {
            lemma_join_push(pre, sep@, parts@[i as int]@);
            assert(all.take(i + 1 - start) =~= pre.push(parts@[i as int]@));
        }
        if i > start {
            let mut k: usize = 0;
            while k < sep.len()
                invariant
                    k <= sep@.len(),
                    res@ == join(pre, sep@) + sep@.take(k as int),
                decreases sep@.len() - k,
            {
                res.push(sep[k]);
                k = k + 1;
                assert(res@ =~= join(pre, sep@) + sep@.take(k as int));
            }
            assert(sep@.take(sep@.len() as int) =~= sep@);
        }
        let ghost before = res@;
        let part = &parts[i];
        let mut k: usize = 0;
        while k < part.len()
            invariant
                k <= part@.len(),
                res@ == before + part@.take(k as int),
            decreases part@.len() - k,
        {
            res.push(part[k]);
            k = k + 1;
            assert(res@ =~= before + part@.take(k as int));
        }
        assert(part@.take(part@.len() as int) =~= part@);
        proof {
            if i == start {
                assert(pre.len() == 0);
                assert(before =~= Seq::<char>::empty());
                assert(res@ =~= part@);
            } else {
                assert(res@ =~= join(pre, sep@) + sep@ + part@);
            }
        }
        i = i + 1;
    }
    assert(all.take(n - start) =~= all);
    res
}

// ── ASCII case ──────────────────────────────────────────────────

/// `char::to_ascii_lowercase`.
pub open spec fn ascii_lower(c: char) -> char {
    if 'A' <= c && c <= 'Z' {
        ((c as u8) + 32) as u8 as char
    } else {
        c
    }
}

/// `str::eq_ignore_ascii_case`.
pub open spec fn eq_ignore_ascii_case(a: Seq<char>, b: Seq<char>) -> bool {
    a.len() == b.len() && forall|i: int| 0 <= i < a.len() ==> ascii_lower(#[trigger] a[i]) == ascii_lower(b[i])
}

/// `char::is_ascii_alphanumeric`.
pub open spec fn is_ascii_alnum(c: char) -> bool {
    ('0' <= c && c <= '9') || ('a' <= c && c <= 'z') || ('A' <= c && c <= 'Z')
}

pub fn char_to_ascii_lower(c: char) -> (res: char)
    ensures
        res == ascii_lower(c),
{
    if 'A' <= c && c <= 'Z' {
        ((c as u8) + 32) as char
    } else {
        c
    }
}

pub fn chars_eq_ignore_ascii_case(a: &[char], b: &[char]) -> (res: bool)
    ensures
        res == eq_ignore_ascii_case(a@, b@),
{
    if a.len() != b.len() {
        return false;
    }
    let mut i: usize = 0;
    while i < a.len()
        invariant
            i <= a@.len() == b@.len(),
            forall|j: int| 0 <= j < i ==> ascii_lower(#[trigger] a@[j]) == ascii_lower(b@[j]),
        decreases a@.len() - i,
    {
        if char_to_ascii_lower(a[i]) != char_to_ascii_lower(b[i]) {
            return false;
        }
        i = i + 1;
    }
    true
}

/// The first `n` characters of `s` (all of them when it is shorter):
/// `chars().take(n).collect()`.
pub open spec fn take_chars(s: Seq<char>, n: nat) -> Seq<char> {
    if s.len() <= n {
        s
    } else {
        s.take(n as int)
    }
}

pub fn take_prefix(s: &[char], n: usize) -> (res: Vec<char>)
    ensures
        res@ == take_chars(s@, n as nat),
{
    let end = if s.len() <= n { s.len() } else { n };
    let r = copy_range(s, 0, end);
    assert(s@.subrange(0, s@.len() as int) =~= s@);
    r
}

/// `s` with every `from` replaced by `to`.
pub open spec fn replace_char(s: Seq<char>, from: char, to: char) -> Seq<char> {
    s.map_values(|c: char| if c == from { to } else { c })
}

pub fn replace_chars(s: &[char], from: char, to: char) -> (res: Vec<char>)
    ensures
        res@ == replace_char(s@, from, to),
{
    let mut res: Vec<char> = Vec::new();
    let mut i: usize = 0;
    while i < s.len()
        invariant
            i <= s@.len(),
            res@ == replace_char(s@.take(i as int), from, to),
        decreases s@.len() - i,
    {
        let c = if s[i] == from { to } else { s[i] };
        res.push(c);
        i = i + 1;
        assert(res@ =~= replace_char(s@.take(i as int), from, to));
    }
    assert(s@.take(s@.len() as int) =~= s@);
    res
}

/// The index of the last `c` in `s`, or -1.
pub open spec fn last_index_of(s: Seq<char>, c: char) -> int
    decreases s.len(),
{
    if s.len() == 0 {
        -1
    } else if s.last() == c {
        s.len() - 1
    } else {
        last_index_of(s.drop_last(), c)
    }
}

pub proof fn lemma_last_index_of_bounds(s: Seq<char>, c: char)
    ensures
        -1 <= last_index_of(s, c) < s.len(),
        last_index_of(s, c) >= 0 ==> s[last_index_of(s, c)] == c,
    decreases s.len(),
{
    if s.len() > 0 && s.last() != c {
        lemma_last_index_of_bounds(s.drop_last(), c);
    }
}

pub fn find_last(s: &[char], c: char) -> (res: Option<usize>)
    ensures
        match res {
            Some(i) => last_index_of(s@, c) == i,
            None => last_index_of(s@, c) == -1,
        },
{
    let mut j = s.len();
    assert(s@.take(j as int) =~= s@);
    while j > 0
        invariant
            j <= s@.len(),
            last_index_of(s@, c) == last_index_of(s@.take(j as int), c),
        decreases j,
    {
        assert(s@.take(j as int).drop_last() =~= s@.take(j - 1));
        if s[j - 1] == c {
            return Some(j - 1);
        }
        j = j - 1;
    }
    None
}

/// `s` with every trailing `c` removed.
pub open spec fn drop_trailing(s: Seq<char>, c: char) -> Seq<char>
    decreases s.len(),
{
    if s.len() > 0 && s.last() == c {
        drop_trailing(s.drop_last(), c)
    } else {
        s
    }
}

/// `s` without its leading `c`s.
pub fn drop_leading_chars(s: &[char], c: char) -> (res: Vec<char>)
    ensures
        res@ == drop_leading(s@, c),
{
    let n = s.len();
    let mut i: usize = 0;
    assert(s@.subrange(0, n as int) =~= s@);
    while i < n && s[i] == c
        invariant
            i <= n,
            n == s@.len(),
            drop_leading(s@, c) == drop_leading(s@.subrange(i as int, n as int), c),
        decreases n - i,
    {
        assert(s@.subrange(i as int, n as int).drop_first() =~= s@.subrange(i + 1, n as int));
        i = i + 1;
    }
    copy_range(s, i, n)
}

/// `s` without its trailing `c`s.
pub fn drop_trailing_chars(s: &[char], c: char) -> (res: Vec<char>)
    ensures
        res@ == drop_trailing(s@, c),
{
    let mut j: usize = s.len();
    assert(s@.subrange(0, j as int) =~= s@);
    while j > 0 && s[j - 1] == c
        invariant
            j <= s@.len(),
            drop_trailing(s@, c) == drop_trailing(s@.subrange(0, j as int), c),
        decreases j,
    {
        assert(s@.subrange(0, j as int).drop_last() =~= s@.subrange(0, j - 1));
        j = j - 1;
    }
    copy_range(s, 0, j)
}

// ── Hexadecimal ─────────────────────────────────────────────────

/// The lowercase hexadecimal digit of `d` (for `d < 16`).
pub open spec fn hex_digit(d: u64) -> char {
    if d < 10 {
        (('0' as u8) + (d as u8)) as u8 as char
    } else {
        (('a' as u8) + ((d - 10) as u8)) as u8 as char
    }
}

/// The first `n` digits of `{:016x}` of `h`: the most significant first.
pub open spec fn hex_digits(h: u64, n: nat) -> Seq<char> {
    Seq::new(n, |i: int| hex_digit((h >> ((60 - 4 * i) as u64)) & 15))
}

/// The first `n` (at most 16) digits of `h` in zero-padded lowercase hexadecimal.
pub fn hex_prefix(h: u64, n: usize) -> (res: Vec<char>)
    requires
        n <= 16,
    ensures
        res@ == hex_digits(h, n as nat),
        forall|i: int| 0 <= i < res@.len() ==> ('0' <= #[trigger] res@[i] && res@[i] <= '9') || ('a' <= res@[i] && res@[i] <= 'f'),
{
    let mut res: Vec<char> = Vec::new();
    let mut i: usize = 0;
    while i < n
        invariant
            i <= n <= 16,
            res@ == hex_digits(h, i as nat),
            forall|j: int| 0 <= j < res@.len() ==> ('0' <= #[trigger] res@[j] && res@[j] <= '9') || ('a' <= res@[j] && res@[j] <= 'f'),
        decreases n - i,
    {
        let shift: u64 = (60 - 4 * i) as u64;
        let d: u64 = (h >> shift) & 15;
        assert(d < 16) by (bit_vector)
            requires
                d == (h >> shift) & 15,
        ;
        let c = if d < 10 {
            (('0' as u8) + (d as u8)) as char
        } else {
            (('a' as u8) + ((d - 10) as u8)) as char
        };
        assert(c == hex_digit(d));
        res.push(c);
        i = i + 1;
        assert(res@ =~= hex_digits(h, i as nat));
    }
    res
}

// ── Searching ───────────────────────────────────────────────────

/// The index of the first `c` in `s`, or -1.
pub open spec fn first_index_of(s: Seq<char>, c: char) -> int
    decreases s.len(),
{
    if s.len() == 0 {
        -1
    } else if s[0] == c {
        0
    } else if first_index_of(s.drop_first(), c) < 0 {
        -1
    } else {
        first_index_of(s.drop_first(), c) + 1
    }
}

pub proof fn lemma_first_index_of_bounds(s: Seq<char>, c: char)
    ensures
        -1 <= first_index_of(s, c) < s.len(),
        first_index_of(s, c) >= 0 ==> s[first_index_of(s, c)] == c,
    decreases s.len(),
{
    if s.len() > 0 && s[0] != c {
        lemma_first_index_of_bounds(s.drop_first(), c);
    }
}

pub fn find_first(s: &[char], c: char) -> (res: Option<usize>)
    ensures
        match res {
            Some(i) => first_index_of(s@, c) == i,
            None => first_index_of(s@, c) == -1,
        },
{
    let n = s.len();
    let mut i: usize = 0;
    assert(s@.subrange(0, n as int) =~= s@);
    while i < n
        invariant
            i <= n == s@.len(),
            first_index_of(s@, c) == if first_index_of(s@.subrange(i as int, n as int), c) < 0 {
                -1
            } else {
                first_index_of(s@.subrange(i as int, n as int), c) + i
            },
        decreases n - i,
    {
        assert(s@.subrange(i as int, n as int).drop_first() =~= s@.subrange(i + 1, n as int));
        if s[i] == c {
            return Some(i);
        }
        i = i + 1;
    }
    None
}

/// `p` occurs in `s` at index `i`.
pub open spec fn occurs_at(s: Seq<char>, p: Seq<char>, i: int) -> bool {
    0 <= i && i + p.len() <= s.len() && s.subrange(i, i + p.len()) == p
}

/// `str::contains` with a string pattern.
pub open spec fn contains(s: Seq<char>, p: Seq<char>) -> bool {
    exists|i: int| #[trigger] occurs_at(s, p, i)
}

pub fn contains_chars(s: &[char], p: &[char]) -> (res: bool)
    ensures
        res == contains(s@, p@),
{
    if p.len() > s.len() {
        return false;
    }
    if p.len() == 0 {
        assert(occurs_at(s@, p@, 0)) by {
            assert(s@.subrange(0, 0) =~= p@);
        }
        return true;
    }
    let last = s.len() - p.len();
    let slen = s.len();
    let mut i: usize = 0;
    while i <= last
        invariant
            last == s@.len() - p@.len(),
            p@.len() > 0,
            s@.len() == last + p@.len(),
            slen == s@.len(),
            i <= last + 1,
            forall|j: int| 0 <= j < i ==> !#[trigger] occurs_at(s@, p@, j),
        decreases last + 1 - i,
    {
        let mut k: usize = 0;
        let mut ok = true;
        while k < p.len() && ok
            invariant
                i <= last,
                last == s@.len() - p@.len(),
                s@.len() == last + p@.len(),
                slen == s@.len(),
                k <= p@.len(),
                ok ==> forall|m: int| 0 <= m < k ==> s@[i + m] == p@[m],
                !ok ==> !occurs_at(s@, p@, i as int),
            decreases p@.len() - k + (if ok { 1int } else { 0int }),
        {
            if s[i + k] != p[k] {
                ok = false;
                assert(s@.subrange(i as int, i + p@.len())[k as int] != p@[k as int]);
            } else {
                k = k + 1;
            }
        }
        if ok {
            assert(s@.subrange(i as int, i + p@.len()) =~= p@);
            assert(occurs_at(s@, p@, i as int));
            return true;
        }
        i = i + 1;
    }
    proof {
        assert forall|j: int| !#[trigger] occurs_at(s@, p@, j) by {
            if 0 <= j && j + p@.len() <= s@.len() {
                assert(j < i);
            }
        }
    }
    false
}

/// `s` ends with `p`.
pub open spec fn has_suffix(s: Seq<char>, p: Seq<char>) -> bool {
    p.len() <= s.len() && s.skip(s.len() - p.len()) == p
}

pub fn ends_with_chars(s: &[char], p: &[char]) -> (res: bool)
    ensures
        res == has_suffix(s@, p@),
{
    if p.len() > s.len() {
        return false;
    }
    let tail = copy_range(s, s.len() - p.len(), s.len());
    assert(s@.subrange(s@.len() - p@.len(), s@.len() as int) =~= s@.skip(s@.len() - p@.len()));
    chars_eq(tail.as_slice(), p)
}

/// `s` with the suffix `p` removed as often as it occurs
/// (`str::trim_end_matches` with a string pattern).
pub open spec fn strip_suffixes(s: Seq<char>, p: Seq<char>) -> Seq<char>
    decreases s.len(),
{
    if p.len() > 0 && has_suffix(s, p) {
        strip_suffixes(s.take(s.len() - p.len()), p)
    } else {
        s
    }
}

pub fn strip_suffixes_chars(s: &[char], p: &[char]) -> (res: Vec<char>)
    ensures
        res@ == strip_suffixes(s@, p@),
{
    let mut cur = copy_range(s, 0, s.len());
    assert(s@.subrange(0, s@.len() as int) =~= s@);
    if p.len() == 0 {
        return cur;
    }
    while ends_with_chars(cur.as_slice(), p)
        invariant
            p@.len() > 0,
            strip_suffixes(s@, p@) == strip_suffixes(cur@, p@),
        decreases cur@.len(),
    {
        let n = cur.len() - p.len();
        let next = copy_range(cur.as_slice(), 0, n);
        assert(cur@.subrange(0, n as int) =~= cur@.take(n as int));
        cur = next;
    }
    cur
}

/// Append the characters of `b` to `a`.
pub fn extend_chars(a: &mut Vec<char>, b: &[char])
    ensures
        final(a)@ == old(a)@ + b@,
{
    let mut k: usize = 0;
    let ghost a0 = a@;
    while k < b.len()
        invariant
            k <= b@.len(),
            a@ == a0 + b@.take(k as int),
        decreases b@.len() - k,
    {
        a.push(b[k]);
        k = k + 1;
        assert(a@ =~= a0 + b@.take(k as int));
    }
    assert(b@.take(b@.len() as int) =~= b@);
}

/// The decimal digit `d` (0 to 9) as a character.
pub open spec fn digit_char(d: nat) -> char {
    (48 + d) as char
}

/// The decimal numeral of `n`, without leading zeros.
pub open spec fn decimal(n: nat) -> Seq<char>
    decreases n,
{
    if n < 10 {
        seq![digit_char(n)]
    } else {
        decimal(n / 10).push(digit_char(n % 10))
    }
}

/// Append the decimal numeral of `n`.
pub fn push_decimal(out: &mut Vec<char>, n: usize)
    ensures
        final(out)@ == old(out)@ + decimal(n as nat),
    decreases n,
{
    if n >= 10 {
        push_decimal(out, n / 10);
    }
    let d: u8 = (n % 10) as u8;
    let c = (48u8 + d) as char;
    out.push(c);
    assert(out@ =~= old(out)@ + decimal(n as nat)) by {
        if n >= 10 {
            assert(decimal(n as nat) == decimal((n / 10) as nat).push(digit_char((n % 10) as nat)));
        }
    }
}

/// The decimal numeral of `n`.
pub fn decimal_text(n: usize) -> (res: String)
    ensures
        res@ == decimal(n as nat),
{
    let mut out: Vec<char> = Vec::new();
    push_decimal(&mut out, n);
    assert(out@ =~= decimal(n as nat));
    string_from_chars(out.as_slice())
}

} // verus!
