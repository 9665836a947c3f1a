use verbose::path::{file_name, parent_name, same_path};
use verbose::text::trim;

#[test]
fn file_names() {
    assert_eq!(file_name("/a/b.dsf").as_deref(), Some("b.dsf"));
    assert_eq!(file_name("a/b/").as_deref(), Some("b"));
    assert_eq!(file_name("a/b/.").as_deref(), Some("b"));
    assert_eq!(file_name("a/.."), None);
    assert_eq!(file_name("/"), None);
    assert_eq!(file_name(""), None);
    assert_eq!(file_name("."), None);
    assert_eq!(file_name("x"), Some("x".to_string()));
}

#[test]
fn parent_names() {
    assert_eq!(parent_name("/music/album/t.dsf").as_deref(), Some("album"));
    assert_eq!(parent_name("album/t.dsf").as_deref(), Some("album"));
    assert_eq!(parent_name("t.dsf"), None);
    assert_eq!(parent_name("/t.dsf"), None);
    assert_eq!(parent_name("/"), None);
}

#[test]
fn path_equality_by_components() {
    assert!(same_path("a//b/", "a/b"));
    assert!(same_path("a/./b", "a/b"));
    assert!(!same_path("./a", "a"));
    assert!(!same_path("/a", "a"));
    assert!(!same_path("a/../b", "b"));
    assert!(same_path("", ""));
}

#[test]
fn law_path_equality_is_an_equivalence() {
    let ps = ["a/b", "a//b", "a/b/", "/a/b", "./a/b"];
    for x in ps {
        assert!(same_path(x, x));
        for y in ps {
            assert_eq!(same_path(x, y), same_path(y, x));
            for z in ps {
                if same_path(x, y) && same_path(y, z) {
                    assert!(same_path(x, z));
                }
            }
        }
    }
}

#[test]
fn law_trailing_separator() {
    for p in ["a", "/a/b", ".", "a/..", "/"] {
        assert!(same_path(&format!("{}/", p), p));
    }
}

#[test]
fn law_names_end_with_their_last_piece() {
    for p in ["a/bcd", "/x/y/z.dff", "q"] {
        let n = file_name(p).unwrap();
        assert!(p.ends_with(&n));
    }
}

#[test]
fn trim_matches_str_trim() {
    for s in ["", "   ", "  a b  ", "\t\nx\r\n", "\u{3000}title\u{a0}", "plain", " \u{2003}mid dle\u{2029}"] {
        assert_eq!(trim(s), s.trim());
    }
}
