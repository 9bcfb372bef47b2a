use vstd::prelude::*;

use crate::text::{
    lemma_split_on_append, lemma_split_on_no_sep, lemma_split_on_pieces, chars_of, copy_range, find_last, has_prefix, join, join_range, last_index_of, lemma_last_index_of_bounds,
    split_chars, split_on, views,
};

verus! {

// Path names as the Unix `std::path` reads them: components separated by
// `/`, with empty and `.` pieces skipped (a leading `/` is the root, a
// leading `./` the current directory).

/// A piece of a path between slashes that names no component.
pub open spec fn is_skipped_piece(p: Seq<char>) -> bool {
    p.len() == 0 || p == seq!['.']
}

/// The index of the last piece before index `n` that names a component,
/// or -1 when there is none.
pub open spec fn last_kept(pieces: Seq<Seq<char>>, n: int) -> int
    decreases n,
{
    if n <= 0 {
        -1
    } else if !is_skipped_piece(pieces[n - 1]) {
        n - 1
    } else {
        last_kept(pieces, n - 1)
    }
}

pub proof fn lemma_last_kept_bounds(pieces: Seq<Seq<char>>, n: int)
    ensures
        -1 <= last_kept(pieces, n),
        n >= 0 ==> last_kept(pieces, n) < n,
        last_kept(pieces, n) >= 0 ==> !is_skipped_piece(pieces[last_kept(pieces, n)]),
    decreases n,
{
    if n > 0 && is_skipped_piece(pieces[n - 1]) {
        lemma_last_kept_bounds(pieces, n - 1);
    }
}

/// `Path::file_name`: the final component, unless there is none or it is `..`.
pub open spec fn file_name_of(path: Seq<char>) -> Option<Seq<char>> {
    let ps = split_on(path, '/');
    let k = last_kept(ps, ps.len() as int);
    if k < 0 || ps[k] == seq!['.', '.'] {
        None
    } else {
        Some(ps[k])
    }
}

/// `Path::file_stem` of a file name: the part before the last `.`, or the
/// whole name when it has no `.` other than a leading one.
pub open spec fn file_stem_of(name: Seq<char>) -> Seq<char> {
    let i = last_index_of(name, '.');
    if i <= 0 {
        name
    } else {
        name.take(i)
    }
}

/// `Path::parent` of a path whose last piece that names a component is not
/// a leading `.`: everything before that component, without the empty and
/// `.` pieces that end it, but keeping a leading root or current directory.
/// For the other paths it is the root, `.` or empty, none of which has a
/// file name (as none of what `Path::parent` gives for them has).
pub open spec fn parent_of(path: Seq<char>) -> Seq<char> {
    let ps = split_on(path, '/');
    let k = last_kept(ps, ps.len() as int);
    let j = last_kept(ps, k);
    if j >= 0 {
        join(ps.take(j + 1), seq!['/'])
    } else if path.len() > 0 && path[0] == '/' {
        seq!['/']
    } else if has_prefix(path, seq!['.', '/']) {
        seq!['.']
    } else {
        seq![]
    }
}

/// `PathBuf::push`: an absolute name replaces the base; otherwise a `/`
/// goes between them unless the base is empty or already ends with one.
pub open spec fn push_name(base: Seq<char>, name: Seq<char>) -> Seq<char> {
    if name.len() > 0 && name[0] == '/' {
        name
    } else if base.len() > 0 && base.last() != '/' {
        base + seq!['/'] + name
    } else {
        base + name
    }
}

/// `PathBuf::set_file_name`: the file name (if any) is removed, then the
/// name is pushed.
pub open spec fn with_file_name_of(path: Seq<char>, name: Seq<char>) -> Seq<char> {
    if file_name_of(path) is Some {
        push_name(parent_of(path), name)
    } else {
        push_name(path, name)
    }
}

/// `Path::is_absolute`: the path starts at the root.
pub open spec fn is_absolute_path(path: Seq<char>) -> bool {
    path.len() > 0 && path[0] == '/'
}

pub fn is_absolute(path: &str) -> (res: bool)
    ensures
        res == is_absolute_path(path@),
{
    let p = chars_of(path);
    p.len() > 0 && p[0] == '/'
}

/// A name of one component: not empty, not `.` or `..`, without `/`.
pub open spec fn is_plain_name(n: Seq<char>) -> bool {
    &&& n.len() > 0
    &&& n != seq!['.']
    &&& n != seq!['.', '.']
    &&& forall|i: int| 0 <= i < n.len() ==> n[i] != '/'
}

/// Pushing a name of one component makes it the file name.
pub proof fn lemma_file_name_of_push(base: Seq<char>, name: Seq<char>)
    requires
        is_plain_name(name),
    ensures
        file_name_of(push_name(base, name)) == Some(name),
{
    let r = push_name(base, name);
    assert(name[0] != '/');
    if base.len() > 0 && base.last() != '/' {
        assert(r == base + seq!['/'] + name);
        lemma_split_on_append(base, '/', name);
    } else if base.len() > 0 {
        assert(r =~= base.drop_last() + seq!['/'] + name);
        lemma_split_on_append(base.drop_last(), '/', name);
    } else {
        assert(r =~= name);
        lemma_split_on_no_sep(name, '/');
    }
    let ps = split_on(r, '/');
    assert(ps.last() == name);
    assert(!is_skipped_piece(name));
    assert(last_kept(ps, ps.len() as int) == ps.len() - 1);
}

/// Setting a file name of one component makes it the path's file name, as
/// `Path::file_name` then reads it.
pub proof fn law_set_file_name_then_file_name(path: Seq<char>, name: Seq<char>)
    requires
        is_plain_name(name),
    ensures
        file_name_of(with_file_name_of(path, name)) == Some(name),
{
    if file_name_of(path) is Some {
        lemma_file_name_of_push(parent_of(path), name);
    } else {
        lemma_file_name_of_push(path, name);
    }
}

/// A file name holds no `/`.
pub proof fn lemma_file_name_has_no_slash(path: Seq<char>)
    ensures
        file_name_of(path) matches Some(n) ==> n.len() > 0 && forall|i: int| 0 <= i < n.len() ==> n[i] != '/',
{
    let ps = split_on(path, '/');
    let k = last_kept(ps, ps.len() as int);
    lemma_last_kept_bounds(ps, ps.len() as int);
    lemma_split_on_pieces(path, '/');
    if k >= 0 {
        assert forall|i: int| 0 <= i < ps[k].len() implies ps[k][i] != '/' by {
            assert(split_on(path, '/')[k][i] != '/');
        }
    }
}

/// Whether a piece names no component.
fn is_skipped(piece: &[char]) -> (res: bool)
    ensures
        res == is_skipped_piece(piece@),
{
    let res = piece.len() == 0 || (piece.len() == 1 && piece[0] == '.');
    assert(res == is_skipped_piece(piece@)) by {
        if piece@.len() == 1 && piece@[0] == '.' {
            assert(piece@ =~= seq!['.']);
        }
    }
    res
}

/// The index of the last piece before `n` that names a component.
fn last_kept_index(pieces: &[Vec<char>], n: usize) -> (res: Option<usize>)
    requires
        n <= pieces@.len(),
    ensures
        match res {
            Some(j) => j as int == last_kept(views(pieces@), n as int),
            None => last_kept(views(pieces@), n as int) == -1,
        },
{
    let mut k = n;
    while k > 0
        invariant
            k <= n <= pieces@.len(),
            last_kept(views(pieces@), n as int) == last_kept(views(pieces@), k as int),
        decreases k,
    {
        assert(views(pieces@)[k - 1] == pieces@[k - 1]@);
        if !is_skipped(pieces[k - 1].as_slice()) {
            return Some(k - 1);
        }
        k = k - 1;
    }
    None
}

/// The final component of a path (`Path::file_name`).
pub fn file_name(path: &[char]) -> (res: Option<Vec<char>>)
    ensures
        match res {
            Some(n) => file_name_of(path@) == Some(n@),
            None => file_name_of(path@) is None,
        },
{
    let pieces = split_chars(path, '/');
    let ghost ps = split_on(path@, '/');
    assert(views(pieces@) =~= ps);
    match last_kept_index(pieces.as_slice(), pieces.len()) {
        None => None,
        Some(k) => {
            proof { lemma_last_kept_bounds(ps, ps.len() as int); }
            let piece = &pieces[k];
            assert(piece@ == ps[k as int]);
            let dotdot = piece.len() == 2 && piece[0] == '.' && piece[1] == '.';
            assert(dotdot == (piece@ == seq!['.', '.'])) by {
                if piece@.len() == 2 && piece@[0] == '.' && piece@[1] == '.' {
                    assert(piece@ =~= seq!['.', '.']);
                }
            }
            if dotdot {
                return None;
            }
            let name = copy_range(piece.as_slice(), 0, piece.len());
            assert(piece@.subrange(0, piece@.len() as int) =~= piece@);
            Some(name)
        },
    }
}

/// `Path::file_stem` of a file name.
pub fn file_stem(name: &[char]) -> (res: Vec<char>)
    ensures
        res@ == file_stem_of(name@),
{
    proof { lemma_last_index_of_bounds(name@, '.'); }
    match find_last(name, '.') {
        Some(i) if i > 0 => copy_range(name, 0, i),
        _ => {
            let r = copy_range(name, 0, name.len());
            assert(name@.subrange(0, name@.len() as int) =~= name@);
            r
        },
    }
}

/// The parent of a path, as `parent_of` describes it.
pub fn parent(path: &[char]) -> (res: Vec<char>)
    ensures
        res@ == parent_of(path@),
{
    let pieces = split_chars(path, '/');
    let ghost ps = split_on(path@, '/');
    assert(views(pieces@) =~= ps);
    proof {
        lemma_last_kept_bounds(ps, ps.len() as int);
    }
    let k = match last_kept_index(pieces.as_slice(), pieces.len()) {
        Some(k) => k,
        None => 0,
    };
    proof {
        lemma_last_kept_bounds(ps, k as int);
        assert(last_kept(ps, last_kept(ps, ps.len() as int)) == last_kept(ps, k as int));
    }
    match last_kept_index(pieces.as_slice(), k) {
        Some(j) => {
            let sep = vec!['/'];
            let r = join_range(pieces.as_slice(), 0, j + 1, sep.as_slice());
            assert(views(pieces@).subrange(0, j + 1) =~= ps.take(j + 1));
            assert(sep@ =~= seq!['/']);
            r
        },
        None => {
            if path.len() > 0 && path[0] == '/' {
                vec!['/']
            } else if path.len() >= 2 && path[0] == '.' && path[1] == '/' {
                assert(path@.take(2) =~= seq!['.', '/']);
                vec!['.']
            } else {
                assert(!has_prefix(path@, seq!['.', '/'])) by {
                    if has_prefix(path@, seq!['.', '/']) {
                        assert(path@.take(2)[0] == '.');
                        assert(path@.take(2)[1] == '/');
                    }
                }
                Vec::new()
            }
        },
    }
}

/// `base` with `name` pushed as `PathBuf::push` does.
fn push_name_chars(base: Vec<char>, name: &[char]) -> (res: Vec<char>)
    ensures
        res@ == push_name(base@, name@),
{
    let mut out = if name.len() > 0 && name[0] == '/' {
        Vec::new()
    } else {
        base
    };
    if out.len() > 0 && out[out.len() - 1] != '/' {
        out.push('/');
    }
    let ghost mid = out@;
    let mut i: usize = 0;
    while i < name.len()
        invariant
            i <= name@.len(),
            out@ == mid + name@.take(i as int),
        decreases name@.len() - i,
    {
        out.push(name[i]);
        i = i + 1;
        assert(out@ =~= mid + name@.take(i as int));
    }
    assert(name@.take(name@.len() as int) =~= name@);
    assert(out@ =~= push_name(base@, name@));
    out
}

/// The path with its file name replaced (`PathBuf::set_file_name`).
pub fn with_file_name(path: &[char], name: &[char]) -> (res: Vec<char>)
    ensures
        res@ == with_file_name_of(path@, name@),
{
    match file_name(path) {
        Some(_) => push_name_chars(parent(path), name),
        None => {
            let base = copy_range(path, 0, path.len());
            assert(base@ =~= path@);
            push_name_chars(base, name)
        },
    }
}

} // verus!
