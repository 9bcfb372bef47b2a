use vstd::prelude::*;
use vstd::utf8::*;

verus! {

// Where Stik keeps its files, from the user's directories that `dirs` finds.
// A directory is held as the bytes of its OS string, so that a path that is
// not UTF-8 names the same file as the `PathBuf` it came from.

/// Calls `dirs::home_dir` and `OsString::into_encoded_bytes` on the path
/// (on Unix the path's own bytes). Nothing is claimed: it depends on the
/// environment.
#[verifier::external_body]
pub(crate) fn home_dir() -> (res: Option<Vec<u8>>) {
    dirs::home_dir().map(|p| p.into_os_string().into_encoded_bytes())
}

/// Calls `dirs::document_dir` and `OsString::into_encoded_bytes` on the
/// path. Nothing is claimed: it depends on the environment.
#[verifier::external_body]
pub(crate) fn document_dir() -> (res: Option<Vec<u8>>) {
    dirs::document_dir().map(|p| p.into_os_string().into_encoded_bytes())
}

/// The byte of the path separator `/`.
pub open spec fn separator() -> u8 {
    47u8
}

/// `PathBuf::push` on the bytes of a path: an absolute name replaces the
/// base; otherwise a `/` goes between them unless the base is empty or
/// already ends with one.
pub open spec fn push_path(base: Seq<u8>, name: Seq<u8>) -> Seq<u8> {
    if name.len() > 0 && name[0] == separator() {
        name
    } else if base.len() > 0 && base.last() != separator() {
        base + seq![separator()] + name
    } else {
        base + name
    }
}

/// The error when the home directory is unknown.
pub open spec fn no_home_error() -> Seq<char> {
    "Cannot determine home directory"@
}

/// `base` joined with the names (as UTF-8) one after the other.
pub open spec fn joined(base: Seq<u8>, names: Seq<Seq<char>>) -> Seq<u8>
    decreases names.len(),
{
    if names.len() == 0 {
        base
    } else {
        push_path(joined(base, names.drop_last()), encode_utf8(names.last()))
    }
}

/// A path under the home directory, or the error when it is unknown.
pub open spec fn under_home(home: Option<Seq<u8>>, names: Seq<Seq<char>>) -> Result<Seq<u8>, Seq<char>> {
    match home {
        Some(h) => Ok(joined(h, names)),
        None => Err(no_home_error()),
    }
}

pub open spec fn view_opt_string(o: Option<String>) -> Option<Seq<char>> {
    match o {
        Some(s) => Some(s@),
        None => None,
    }
}

pub open spec fn view_opt_bytes(o: Option<Vec<u8>>) -> Option<Seq<u8>> {
    match o {
        Some(b) => Some(b@),
        None => None,
    }
}

pub open spec fn view_result_string(r: Result<String, String>) -> Result<Seq<char>, Seq<char>> {
    match r {
        Ok(s) => Ok(s@),
        Err(e) => Err(e@),
    }
}

pub open spec fn view_result_path(r: Result<Vec<u8>, String>) -> Result<Seq<u8>, Seq<char>> {
    match r {
        Ok(p) => Ok(p@),
        Err(e) => Err(e@),
    }
}

/// `base` joined with `name` (`Path::join`).
pub fn join_path_bytes(base: &[u8], name: &str) -> (res: Vec<u8>)
    ensures
        res@ == push_path(base@, encode_utf8(name@)),
{
    let n = name.as_bytes();
    let mut out: Vec<u8> = Vec::new();
    if n.len() > 0 && n[0] == 47u8 {
        let mut i: usize = 0;
        while i < n.len()
            invariant
                i <= n@.len(),
                out@ == n@.take(i as int),
            decreases n@.len() - i,
        {
            out.push(n[i]);
            i = i + 1;
            assert(out@ =~= n@.take(i as int));
        }
        assert(n@.take(n@.len() as int) =~= n@);
        return out;
    }
    let mut i: usize = 0;
    while i < base.len()
        invariant
            i <= base@.len(),
            out@ == base@.take(i as int),
        decreases base@.len() - i,
    {
        out.push(base[i]);
        i = i + 1;
        assert(out@ =~= base@.take(i as int));
    }
    assert(base@.take(base@.len() as int) =~= base@);
    if base.len() > 0 && base[base.len() - 1] != 47u8 {
        out.push(47u8);
    }
    let ghost mid = out@;
    let mut j: usize = 0;
    while j < n.len()
        invariant
            j <= n@.len(),
            out@ == mid + n@.take(j as int),
        decreases n@.len() - j,
    {
        out.push(n[j]);
        j = j + 1;
        assert(out@ =~= mid + n@.take(j as int));
    }
    assert(n@.take(n@.len() as int) =~= n@);
    out
}

/// `home/a/b`, or the error when there is no home directory.
pub fn path_under_home(home: Option<Vec<u8>>, a: &str, b: &str) -> (res: Result<Vec<u8>, String>)
    ensures
        view_result_path(res) == under_home(view_opt_bytes(home), seq![a@, b@]),
{
    match home {
        Some(h) => {
            let p = join_path_bytes(h.as_slice(), a);
            let q = join_path_bytes(p.as_slice(), b);
            proof {
                let names = seq![a@, b@];
                assert(names.drop_last() =~= seq![a@]);
                assert(seq![a@].drop_last() =~= Seq::<Seq<char>>::empty());
                assert(joined(h@, Seq::<Seq<char>>::empty()) == h@);
                assert(joined(h@, seq![a@]) == push_path(h@, encode_utf8(a@)));
                assert(joined(h@, names) == push_path(push_path(h@, encode_utf8(a@)), encode_utf8(b@)));
            }
            Ok(q)
        },
        None => Err(String::from_str("Cannot determine home directory")),
    }
}

} // verus!
