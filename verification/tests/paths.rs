use foundry_compilers::path;
use std::path::Path;

fn samples() -> Vec<&'static str> {
    vec![
        "", ".", "..", "/", "//", "a", "./a", "a/", "a/b", "a//b", "/a/b", "/a/./b", "a/./b/../c",
        "../a", "./", "/..", "/.", "a/.", "a.sol", ".sol", "a.b.sol", "dir/a.sol", "a..", "..a",
        "src/inner/a.sol", "/root/src/a.sol", "a/b/", "./.", "././a", "a b/c d",
        "/a//b/./c//", "//a", "a/b//c/.", "./x/.", ".//a", "/./a", "a/./", "a//./b", "a/../b//",
        "/a/b//c/./d/./", "a/b/.", "src//inner/./a.sol/",
    ]
}

#[test]
fn components_are_those_of_std() {
    for s in samples() {
        let ours = path::split_path(s);
        let theirs: Vec<String> = Path::new(s)
            .components()
            .map(|c| c.as_os_str().to_str().unwrap().to_string())
            .collect();
        assert_eq!(ours, theirs, "{s}");
    }
}

#[test]
fn file_names_are_those_of_std() {
    for s in samples() {
        let p = Path::new(s);
        let name = p.file_name().map(|n| n.to_str().unwrap().to_string());
        let stem = p.file_stem().map(|n| n.to_str().unwrap().to_string());
        let extension = p.extension().map(|n| n.to_str().unwrap().to_string());
        assert_eq!(path::path_file_name(s), name, "{s}");
        assert_eq!(path::path_file_stem(s), stem, "{s}");
        assert_eq!(path::path_extension(s), extension, "{s}");
    }
}

#[test]
fn joins_and_prefixes_are_those_of_std() {
    for a in samples() {
        for b in samples() {
            let joined = Path::new(a).join(b);
            assert_eq!(path::join(a, b), joined.to_str().unwrap(), "{a} {b}");
            let stripped = Path::new(a).strip_prefix(b).ok();
            let stripped = stripped.map(|rest| rest.to_str().unwrap().to_string());
            assert_eq!(path::strip_prefix(a, b), stripped, "{a} {b}");
            assert_eq!(path::same(a, b), Path::new(a) == Path::new(b), "{a} {b}");
        }
    }
}

#[test]
fn the_text_behind_a_prefix_is_kept() {
    assert_eq!(path::strip_prefix("/a//b/./c//", "/a"), Some("b/./c".to_string()));
    assert_eq!(path::strip_prefix("/root/src//a.sol", "/root/"), Some("src//a.sol".to_string()));
    assert_eq!(path::strip_prefix("src\\a.sol", "src"), None);
    assert_eq!(path::slash("src\\inner\\a.sol"), "src/inner/a.sol");
    assert_eq!(path::slash("src/a.sol"), "src/a.sol");
}
