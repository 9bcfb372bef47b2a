use vstd::prelude::*;

use crate::crypto::{b64_encode, base64_encode};
use crate::paths::{file_name, file_name_of, is_absolute, is_absolute_path, parent, parent_of};
use crate::text::{chars_eq, chars_of, string_from_chars};
use crate::places::{
    document_dir, home_dir, join_path_bytes, path_under_home, push_path, under_home, view_opt_bytes, view_result_path,
};
use vstd::utf8::*;

verus! {

// ── Storage mode ────────────────────────────────────────────────

/// Where notes live.
pub enum StorageMode {
    Local,
    ICloud,
    Custom(String),
}

/// The settings that decide the storage mode.
pub struct StorageSettings {
    pub icloud_enabled: bool,
    pub notes_directory: String,
}

/// The mode for the given settings, given whether the notes directory is an
/// absolute path: iCloud first, then an absolute custom directory, else local.
pub fn mode_from_settings(icloud_enabled: bool, notes_directory: &str, directory_is_absolute: bool) -> (res: StorageMode)
    ensures
        icloud_enabled ==> res is ICloud,
        !icloud_enabled && notes_directory@.len() > 0 && directory_is_absolute
            ==> (res matches StorageMode::Custom(d) && d@ == notes_directory@),
        !icloud_enabled && (notes_directory@.len() == 0 || !directory_is_absolute) ==> res is Local,
{
    if icloud_enabled {
        StorageMode::ICloud
    } else if notes_directory.unicode_len() != 0 && directory_is_absolute {
        StorageMode::Custom(String::from_str(notes_directory))
    } else {
        StorageMode::Local
    }
}

/// Determine the active storage mode from settings (`None` when they could
/// not be read). Priority: iCloud > an absolute custom directory > local.
pub fn current_mode(settings: Option<&StorageSettings>) -> (res: StorageMode)
    ensures
        settings is None ==> res is Local,
        settings is Some ==> ({
            let s = settings.unwrap();
            &&& s.icloud_enabled ==> res is ICloud
            &&& !s.icloud_enabled && s.notes_directory@.len() > 0 && is_absolute_path(s.notes_directory@)
                ==> (res matches StorageMode::Custom(d) && d@ == s.notes_directory@)
            &&& !s.icloud_enabled && !(s.notes_directory@.len() > 0 && is_absolute_path(s.notes_directory@))
                ==> res is Local
        }),
{
    match settings {
        Some(s) => {
            if s.icloud_enabled {
                StorageMode::ICloud
            } else if s.notes_directory.unicode_len() != 0 {
                let absolute = is_absolute(s.notes_directory.as_str());
                mode_from_settings(false, s.notes_directory.as_str(), absolute)
            } else {
                StorageMode::Local
            }
        },
        None => StorageMode::Local,
    }
}

// ── Where the notes live ────────────────────────────────────────

/// The iCloud Drive container of Stik, under the home directory.
pub open spec fn icloud_container_of(home: Option<Seq<u8>>) -> Result<Seq<u8>, Seq<char>> {
    match under_home(home, seq!["Library"@, "Mobile Documents"@]) {
        Ok(p) => Ok(push_path(p, encode_utf8("iCloud~com~0xmassi~stik"@))),
        Err(e) => Err(e),
    }
}

/// The iCloud container for the given home directory.
pub fn icloud_container_path_from(home: Option<Vec<u8>>) -> (res: Result<Vec<u8>, String>)
    ensures
        view_result_path(res) == icloud_container_of(view_opt_bytes(home)),
{
    match path_under_home(home, "Library", "Mobile Documents") {
        Ok(p) => Ok(join_path_bytes(p.as_slice(), "iCloud~com~0xmassi~stik")),
        Err(e) => Err(e),
    }
}

/// The iCloud container for the user's home directory.
pub fn icloud_container_path() -> (res: Result<Vec<u8>, String>)
    ensures
        exists|home: Option<Seq<u8>>| view_result_path(res) == icloud_container_of(home),
{
    icloud_container_path_from(home_dir())
}

/// Whether iCloud Drive holds the Stik container, given where the container
/// is (an error when the home directory is unknown) and whether that path
/// exists on disk.
pub fn icloud_available(container: &Result<Vec<u8>, String>, container_exists: bool) -> (res: bool)
    ensures
        res == (container is Ok && container_exists),
{
    match container {
        Ok(_) => container_exists,
        Err(_) => false,
    }
}

/// The Stik folder inside the iCloud container.
pub fn icloud_stik_dir(container: &[u8]) -> (res: Vec<u8>)
    ensures
        res@ == push_path(push_path(container@, encode_utf8("Documents"@)), encode_utf8("Stik"@)),
{
    let d = join_path_bytes(container, "Documents");
    join_path_bytes(d.as_slice(), "Stik")
}

/// Where the Stik folder is for a storage mode.
pub enum StikRoot {
    /// Inside this iCloud container, which must exist.
    ICloud { container: Vec<u8> },
    /// This directory, created when missing.
    Dir(Vec<u8>),
}

/// The Stik folder of each mode: in the iCloud container; `Stik` in the
/// custom directory; `Stik` in the Documents directory.
pub open spec fn stik_root_of(mode: StorageMode, home: Option<Seq<u8>>, documents: Option<Seq<u8>>) -> Result<(bool, Seq<u8>), Seq<char>> {
    match mode {
        StorageMode::ICloud => match icloud_container_of(home) {
            Ok(c) => Ok((true, c)),
            Err(e) => Err(e),
        },
        StorageMode::Custom(dir) => Ok((false, push_path(encode_utf8(dir@), encode_utf8("Stik"@)))),
        StorageMode::Local => match documents {
            Some(d) => Ok((false, push_path(d, encode_utf8("Stik"@)))),
            None => Err("Could not find Documents directory"@),
        },
    }
}

pub open spec fn view_stik_root(r: Result<StikRoot, String>) -> Result<(bool, Seq<u8>), Seq<char>> {
    match r {
        Ok(StikRoot::ICloud { container }) => Ok((true, container@)),
        Ok(StikRoot::Dir(d)) => Ok((false, d@)),
        Err(e) => Err(e@),
    }
}

/// The Stik folder of a mode, given the home and Documents directories.
pub fn stik_root_location_from(mode: &StorageMode, home: Option<Vec<u8>>, documents: Option<Vec<u8>>) -> (res: Result<StikRoot, String>)
    ensures
        view_stik_root(res) == stik_root_of(*mode, view_opt_bytes(home), view_opt_bytes(documents)),
{
    match mode {
        StorageMode::ICloud => match icloud_container_path_from(home) {
            Ok(c) => Ok(StikRoot::ICloud { container: c }),
            Err(e) => Err(e),
        },
        StorageMode::Custom(dir) => Ok(StikRoot::Dir(join_path_bytes(dir.as_str().as_bytes(), "Stik"))),
        StorageMode::Local => match documents {
            Some(d) => Ok(StikRoot::Dir(join_path_bytes(d.as_slice(), "Stik"))),
            None => Err(String::from_str("Could not find Documents directory")),
        },
    }
}

/// The Stik folder of a mode, for the user's directories.
pub fn stik_root_location(mode: &StorageMode) -> (res: Result<StikRoot, String>)
    ensures
        exists|home: Option<Seq<u8>>, documents: Option<Seq<u8>>|
            view_stik_root(res) == stik_root_of(*mode, home, documents),
{
    match mode {
        StorageMode::ICloud => stik_root_location_from(mode, home_dir(), None),
        StorageMode::Local => stik_root_location_from(mode, None, document_dir()),
        StorageMode::Custom(_) => stik_root_location_from(mode, None, None),
    }
}

// ── Coordinated iCloud requests ─────────────────────────────────

/// A file operation of the storage layer.
pub enum StorageOp {
    Read { path: String },
    Write { path: String, content: String },
    WriteBytes { path: String, data: Vec<u8> },
    Delete { path: String },
    Move { src: String, dst: String },
    Copy { src: String, dst: String },
    EnsureDir { path: String },
    RemoveDirAll { path: String },
    ListDir { path: String },
}

/// A JSON-RPC call to the DarwinKit bridge: a method and string parameters.
pub struct BridgeRequest {
    pub method: String,
    pub params: Vec<(String, String)>,
}

/// The parameters of a request, as character sequences.
pub open spec fn params_view(p: Seq<(String, String)>) -> Seq<(Seq<char>, Seq<char>)> {
    Seq::new(p.len(), |i: int| (p[i].0@, p[i].1@))
}

/// The bridge method of each operation in iCloud mode.
pub open spec fn op_method(op: StorageOp) -> Seq<char> {
    match op {
        StorageOp::Read { .. } => "icloud.read"@,
        StorageOp::Write { .. } => "icloud.write"@,
        StorageOp::WriteBytes { .. } => "icloud.write_bytes"@,
        StorageOp::Delete { .. } => "icloud.delete"@,
        StorageOp::Move { .. } => "icloud.move"@,
        StorageOp::Copy { .. } => "icloud.copy_file"@,
        StorageOp::EnsureDir { .. } => "icloud.ensure_dir"@,
        StorageOp::RemoveDirAll { .. } => "icloud.delete"@,
        StorageOp::ListDir { .. } => "icloud.list_dir"@,
    }
}

/// The bridge parameters of each operation in iCloud mode (bytes go as base64).
pub open spec fn op_params(op: StorageOp) -> Seq<(Seq<char>, Seq<char>)> {
    match op {
        StorageOp::Read { path } => seq![("path"@, path@)],
        StorageOp::Write { path, content } => seq![("path"@, path@), ("content"@, content@)],
        StorageOp::WriteBytes { path, data } => seq![("path"@, path@), ("data"@, b64_encode(data@))],
        StorageOp::Delete { path } => seq![("path"@, path@)],
        StorageOp::Move { src, dst } => seq![("source"@, src@), ("destination"@, dst@)],
        StorageOp::Copy { src, dst } => seq![("source"@, src@), ("destination"@, dst@)],
        StorageOp::EnsureDir { path } => seq![("path"@, path@)],
        StorageOp::RemoveDirAll { path } => seq![("path"@, path@)],
        StorageOp::ListDir { path } => seq![("path"@, path@)],
    }
}

/// A copy or a move through the bridge keeps its direction: the file it
/// starts from goes as `source` and the file it makes as `destination`,
/// whatever the two paths are; a copy is `icloud.copy_file` and a move
/// `icloud.move`.
pub proof fn law_transfers_keep_their_direction(src: String, dst: String)
    ensures
        op_method(StorageOp::Copy { src, dst }) == "icloud.copy_file"@,
        op_method(StorageOp::Move { src, dst }) == "icloud.move"@,
        op_params(StorageOp::Copy { src, dst }).len() == 2,
        op_params(StorageOp::Copy { src, dst })[0] == ("source"@, src@),
        op_params(StorageOp::Copy { src, dst })[1] == ("destination"@, dst@),
        op_params(StorageOp::Move { src, dst }).len() == 2,
        op_params(StorageOp::Move { src, dst })[0] == ("source"@, src@),
        op_params(StorageOp::Move { src, dst })[1] == ("destination"@, dst@),
{
}

fn pair(k: &str, v: &str) -> (res: (String, String))
    ensures
        res.0@ == k@,
        res.1@ == v@,
{
    (String::from_str(k), String::from_str(v))
}

/// How a storage operation is carried out in the given mode: in iCloud mode
/// through a coordinated bridge call, in the other modes (`None`) directly
/// on the local file system.
pub fn bridge_request(mode: &StorageMode, op: &StorageOp) -> (res: Option<BridgeRequest>)
    requires
        op matches StorageOp::WriteBytes { data, .. } ==> data@.len() <= isize::MAX,
    ensures
        !(mode is ICloud) ==> res is None,
        mode is ICloud ==> (res matches Some(r) && r.method@ == op_method(*op) && params_view(r.params@) == op_params(*op)),
        mode is ICloud && (op matches StorageOp::Copy { src, dst }) ==> (res matches Some(r) && r.method@
            == "icloud.copy_file"@ && r.params@.len() == 2 && r.params@[0].0@ == "source"@ && r.params@[0].1@
            == op->Copy_src@ && r.params@[1].0@ == "destination"@ && r.params@[1].1@ == op->Copy_dst@),
        mode is ICloud && (op matches StorageOp::Move { src, dst }) ==> (res matches Some(r) && r.method@
            == "icloud.move"@ && r.params@.len() == 2 && r.params@[0].0@ == "source"@ && r.params@[0].1@
            == op->Move_src@ && r.params@[1].0@ == "destination"@ && r.params@[1].1@ == op->Move_dst@),
{
    match mode {
        StorageMode::ICloud => {},
        _ => return None,
    }
    let (method, params) = match op {
        StorageOp::Read { path } => ("icloud.read", vec![pair("path", path.as_str())]),
        StorageOp::Write { path, content } => (
            "icloud.write",
            vec![pair("path", path.as_str()), pair("content", content.as_str())],
        ),
        StorageOp::WriteBytes { path, data } => {
            let b64 = base64_encode(data.as_slice());
            ("icloud.write_bytes", vec![pair("path", path.as_str()), pair("data", b64.as_str())])
        },
        StorageOp::Delete { path } => ("icloud.delete", vec![pair("path", path.as_str())]),
        StorageOp::Move { src, dst } => (
            "icloud.move",
            vec![pair("source", src.as_str()), pair("destination", dst.as_str())],
        ),
        StorageOp::Copy { src, dst } => (
            "icloud.copy_file",
            vec![pair("source", src.as_str()), pair("destination", dst.as_str())],
        ),
        StorageOp::EnsureDir { path } => ("icloud.ensure_dir", vec![pair("path", path.as_str())]),
        StorageOp::RemoveDirAll { path } => ("icloud.delete", vec![pair("path", path.as_str())]),
        StorageOp::ListDir { path } => ("icloud.list_dir", vec![pair("path", path.as_str())]),
    };
    let r = BridgeRequest { method: String::from_str(method), params };
    assert(params_view(r.params@) =~= op_params(*op));
    Some(r)
}

/// Start iCloud file monitoring: the bridge call to make, only in iCloud mode.
pub fn start_monitoring(mode: &StorageMode) -> (res: Option<BridgeRequest>)
    ensures
        !(mode is ICloud) ==> res is None,
        mode is ICloud ==> (res matches Some(r) && r.method@ == "icloud.start_monitoring"@ && r.params@.len() == 0),
{
    match mode {
        StorageMode::ICloud => Some(
            BridgeRequest { method: String::from_str("icloud.start_monitoring"), params: Vec::new() },
        ),
        _ => None,
    }
}

/// Stop iCloud file monitoring: the bridge call to make.
pub fn stop_monitoring() -> (res: BridgeRequest)
    ensures
        res.method@ == "icloud.stop_monitoring"@,
        res.params@.len() == 0,
{
    BridgeRequest { method: String::from_str("icloud.stop_monitoring"), params: Vec::new() }
}

/// How to find out something about a path.
pub enum PathProbe {
    /// Ask the local file system whether it exists.
    LocalExists,
    /// Ask the local file system whether it is a directory.
    LocalIsDir,
    /// It is there if iCloud can list it.
    ICloudListDir,
    /// It is there if iCloud's listing of `parent` has an entry named `name`.
    ICloudListParent { parent: String, name: String },
}

/// How to check that a path exists: in iCloud mode by listing the parent
/// directory and looking for the file name in it (a path without a file
/// name, such as the root, by listing the path itself); locally directly.
pub fn path_exists(mode: &StorageMode, path: &str) -> (res: PathProbe)
    ensures
        !(mode is ICloud) ==> res is LocalExists,
        mode is ICloud && file_name_of(path@) is None ==> res is ICloudListDir,
        mode is ICloud ==> (file_name_of(path@) matches Some(n) ==> (res matches PathProbe::ICloudListParent {
            parent,
            name,
        } && parent@ == parent_of(path@) && name@ == n)),
{
    match mode {
        StorageMode::ICloud => {
            let p = chars_of(path);
            match file_name(p.as_slice()) {
                Some(n) => {
                    let dir = parent(p.as_slice());
                    PathProbe::ICloudListParent {
                        parent: string_from_chars(dir.as_slice()),
                        name: string_from_chars(n.as_slice()),
                    }
                },
                None => PathProbe::ICloudListDir,
            }
        },
        _ => PathProbe::LocalExists,
    }
}

/// The listing has an entry called `name`; a failed listing has none.
pub fn listing_has_entry(listing: &Result<Vec<DirEntry>, String>, name: &str) -> (res: bool)
    ensures
        res == (listing matches Ok(v) && exists|i: int| 0 <= i < v@.len() && (#[trigger] v@[i]).name@ == name@),
{
    match listing {
        Err(_) => false,
        Ok(v) => {
            let want = chars_of(name);
            let mut i: usize = 0;
            while i < v.len()
                invariant
                    0 <= i <= v@.len(),
                    want@ == name@,
                    listing is Ok && listing->Ok_0 == *v,
                    forall|j: int| 0 <= j < i ==> (#[trigger] v@[j]).name@ != name@,
                decreases v@.len() - i,
            {
                let have = chars_of(v[i].name.as_str());
                if chars_eq(have.as_slice(), want.as_slice()) {
                    assert(v@[i as int].name@ == name@);
                    return true;
                }
                i = i + 1;
            }
            false
        },
    }
}

/// How to check that a path is a directory: in iCloud mode by listing it.
pub fn is_dir(mode: &StorageMode) -> (res: PathProbe)
    ensures
        mode is ICloud ==> res is ICloudListDir,
        !(mode is ICloud) ==> res is LocalIsDir,
{
    match mode {
        StorageMode::ICloud => PathProbe::ICloudListDir,
        _ => PathProbe::LocalIsDir,
    }
}

/// The content that an iCloud read returned, if it returned any.
pub fn icloud_read_content(content: Option<String>) -> (res: Result<String, String>)
    ensures
        content matches Some(c) ==> (res matches Ok(r) && r == c),
        content is None ==> (res matches Err(e) && e@ == "iCloud read returned no content"@),
{
    match content {
        Some(c) => Ok(c),
        None => Err(String::from_str("iCloud read returned no content")),
    }
}

// ── Directory listings ──────────────────────────────────────────

pub struct DirEntry {
    pub name: String,
    pub is_directory: bool,
    pub size: u64,
    pub modified: Option<String>,
}

/// The fields of one entry of an iCloud listing as the bridge sent them:
/// `None` where a field is missing or of another JSON type, except `size`,
/// which is `Some(None)` when present but not an unsigned integer.
pub struct RawDirEntry {
    pub name: Option<String>,
    pub is_directory: Option<bool>,
    pub size: Option<Option<u64>>,
    pub modified: Option<String>,
}

/// The entry for the fields, or `None` when the name, the directory flag or
/// the size is missing; a size that is not an unsigned integer counts as 0.
pub open spec fn entry_of(raw: RawDirEntry) -> Option<DirEntry> {
    match (raw.name, raw.is_directory, raw.size) {
        (Some(n), Some(d), Some(sz)) => Some(
            DirEntry {
                name: n,
                is_directory: d,
                size: match sz {
                    Some(v) => v,
                    None => 0,
                },
                modified: raw.modified,
            },
        ),
        _ => None,
    }
}

/// The entries that the fields make, in order.
pub open spec fn entries_of(raws: Seq<RawDirEntry>) -> Seq<DirEntry>
    decreases raws.len(),
{
    if raws.len() == 0 {
        seq![]
    } else {
        match entry_of(raws.last()) {
            Some(e) => entries_of(raws.drop_last()).push(e),
            None => entries_of(raws.drop_last()),
        }
    }
}

/// One entry of an iCloud directory listing.
pub fn dir_entry_from_fields(raw: RawDirEntry) -> (res: Option<DirEntry>)
    ensures
        res == entry_of(raw),
{
    match (raw.name, raw.is_directory, raw.size) {
        (Some(n), Some(d), Some(sz)) => {
            let size = match sz {
                Some(v) => v,
                None => 0,
            };
            Some(DirEntry { name: n, is_directory: d, size, modified: raw.modified })
        },
        _ => None,
    }
}

/// The listing that an iCloud `list_dir` returned: an error without an
/// entry array, else the entries whose fields are complete.
pub fn icloud_dir_entries(entries: Option<Vec<RawDirEntry>>) -> (res: Result<Vec<DirEntry>, String>)
    ensures
        entries is None ==> (res matches Err(e) && e@ == "iCloud list_dir returned no entries"@),
        entries matches Some(v) ==> (res matches Ok(out) && out@ == entries_of(v@)),
{
    let raws = match entries {
        Some(v) => v,
        None => return Err(String::from_str("iCloud list_dir returned no entries")),
    };
    let ghost all = raws@;
    let mut out: Vec<DirEntry> = Vec::new();
    let mut rest = raws;
    let ghost mut taken: int = 0;
    while rest.len() > 0
        invariant
            0 <= taken <= all.len(),
            rest@ == all.skip(taken),
            out@ == entries_of(all.take(taken)),
        decreases rest@.len(),
    {
        let raw = rest.remove(0);
        proof {
            assert(raw == all[taken]);
            assert(all.take(taken + 1).drop_last() =~= all.take(taken));
            assert(all.take(taken + 1).last() == all[taken]);
        }
        match dir_entry_from_fields(raw) {
            Some(e) => out.push(e),
            None => {},
        }
        proof {
            taken = taken + 1;
            assert(rest@ =~= all.skip(taken));
        }
    }
    assert(all.take(all.len() as int) =~= all);
    Ok(out)
}

} // verus!
