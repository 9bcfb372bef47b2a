use stik::paths::{file_name, file_stem, is_absolute, parent, with_file_name};
use stik::places::join_path_bytes;

fn chars(s: &str) -> Vec<char> {
    s.chars().collect()
}

fn text(v: &[char]) -> String {
    v.iter().collect()
}

const SAMPLES: [&str; 16] = [
    "a", "a/b", "/a/b.md", "a/b/", "a//b", "a/./b", "./a", "/", "", ".", "..", "a/..", "./", "/.hidden", "a.b.c",
    "x/.",
];

#[test]
fn file_names_match_std() {
    for p in SAMPLES {
        let expected = std::path::Path::new(p).file_name().map(|n| n.to_str().unwrap().to_string());
        assert_eq!(file_name(&chars(p)).map(|n| text(&n)), expected, "{p}");
    }
}

#[test]
fn file_stems_match_std() {
    for name in ["a", "a.b", ".hidden", "a.b.c", "a.", "..x"] {
        let expected = std::path::Path::new(name).file_stem().unwrap().to_str().unwrap().to_string();
        assert_eq!(text(&file_stem(&chars(name))), expected, "{name}");
    }
}

#[test]
fn parents_match_std_where_there_is_a_file_name() {
    for p in SAMPLES {
        let path = std::path::Path::new(p);
        if path.file_name().is_some() {
            let expected = path.parent().unwrap().to_str().unwrap().to_string();
            assert_eq!(text(&parent(&chars(p))), expected, "{p}");
        }
    }
}

#[test]
fn set_file_name_matches_std() {
    for p in SAMPLES {
        for name in ["n.md", "/abs"] {
            let mut expected = std::path::PathBuf::from(p);
            expected.set_file_name(name);
            assert_eq!(text(&with_file_name(&chars(p), &chars(name))), expected.to_str().unwrap(), "{p} {name}");
        }
    }
}

#[test]
fn join_matches_std() {
    for p in SAMPLES {
        for name in ["Stik", "/root"] {
            let expected = std::path::Path::new(p).join(name);
            assert_eq!(join_path_bytes(p.as_bytes(), name), expected.as_os_str().as_encoded_bytes(), "{p} {name}");
        }
    }
    let base: Vec<u8> = vec![b'/', b'h', 0xff, b'e'];
    assert_eq!(join_path_bytes(&base, ".stik"), vec![b'/', b'h', 0xff, b'e', b'/', b'.', b's', b't', b'i', b'k']);
}

#[test]
fn absolute_paths_match_std() {
    for p in SAMPLES {
        assert_eq!(is_absolute(p), std::path::Path::new(p).is_absolute(), "{p}");
    }
}
