use std::ops::ControlFlow;
use wgx::control_flow::ImplicitControlFlow;
use wgx::error::{error, ConvertResult, Res};
use wgx::option_result_helper::{NoneValueError, OptionToResultErr};
use wgx::wgsl_include::parse_includes_exec;
use wgx::wgsl_path::{Component, ModPath};

fn text(p: &ModPath) -> String {
    String::from_utf8(p.to_bytes()).unwrap()
}

fn path(s: &str) -> ModPath {
    ModPath::parse(s.as_bytes())
}

#[test]
fn paths_parse_into_components() {
    let p = path("./a//b/./../c/");
    assert_eq!(
        p.components(),
        &vec![
            Component::CurDir,
            Component::Normal(b"a".to_vec()),
            Component::Normal(b"b".to_vec()),
            Component::ParentDir,
            Component::Normal(b"c".to_vec()),
        ]
    );
    assert_eq!(path("/x").components(), &vec![Component::RootDir, Component::Normal(b"x".to_vec())]);
    assert!(path("").components().is_empty());
    assert!(path("a/b").same(&path("a//b/")));
    assert!(!path("a/b").same(&path("a/c")));
}

#[test]
fn paths_join_like_std() {
    assert_eq!(text(&path("a/b").join(&path("c"))), "a/b/c");
    assert_eq!(text(&path("a/b").join(&path("./c"))), "a/b/c");
    assert_eq!(text(&path("a/b").join(&path("/c"))), "/c");
    assert_eq!(text(&path("").join(&path("./c"))), "./c");
    for (dir, p) in [("a/b", "c"), ("a/b", "./c"), ("a", "../x/y"), ("", "./c")] {
        let std_joined = std::path::Path::new(dir).join(p);
        assert_eq!(text(&path(dir).join(&path(p))), std_joined.to_str().unwrap().replace("/./", "/"));
    }
}

#[test]
fn parents_like_std() {
    assert_eq!(text(&path("a/b/c").parent().unwrap()), "a/b");
    assert_eq!(text(&path("a").parent().unwrap()), "");
    assert!(path("/").parent().is_none());
    assert!(path("").parent().is_none());
}

#[test]
fn normalizing_resolves_dots() {
    assert_eq!(text(&path("a/./b/../c").normalize()), "a/c");
    assert_eq!(text(&path("../a/../../b").normalize()), "../../b");
    assert_eq!(text(&path("/../x").normalize()), "/x");
    assert_eq!(text(&path("a/b/../../..").normalize()), "..");
}

#[test]
fn normalizing_twice_changes_nothing() {
    for p in ["a/./b/../c", "../a/../../b", "x/../../y/./z", "./q/.."] {
        let once = path(p).normalize();
        assert!(once.normalize().same(&once));
    }
}

#[test]
fn include_directives_are_found_in_order() {
    let src = "a #include \"x.wgsl\" b & include 'y\\'s.wgsl' ; c #includex \"no\" d #  include  \"z\"";
    let incs = parse_includes_exec(src.as_bytes());
    assert_eq!(incs.len(), 3);
    assert_eq!(text(&incs[0].path), "x.wgsl");
    assert_eq!(incs[0].source_range, 2..19);
    assert_eq!(text(&incs[1].path), "y's.wgsl");
    assert_eq!(&src[incs[1].source_range.clone()], "& include 'y\\'s.wgsl' ;");
    assert_eq!(text(&incs[2].path), "z");
    assert!(src[incs[2].source_range.clone()].starts_with("#  include"));
}

#[test]
fn unclosed_include_ends_the_search() {
    let incs = parse_includes_exec(b"#include \"open.wgsl");
    assert!(incs.is_empty());
    let incs = parse_includes_exec(b"#include \"a\\\\\" rest");
    assert_eq!(incs.len(), 1);
    assert_eq!(text(&incs[0].path), "a\\");
}

#[test]
fn control_flow_continues() {
    assert!(().should_continue());
    assert!(ControlFlow::<u8, ()>::Continue(()).should_continue());
    assert!(!ControlFlow::<u8, ()>::Break(1).should_continue());
}

#[test]
fn errors_are_messages() {
    assert_eq!(error(42), "42");
    let r: Result<u8, std::fmt::Error> = Err(std::fmt::Error);
    let c: Res<u8> = r.convert();
    assert_eq!(c, Err(std::fmt::Error.to_string()));
    let ok: Result<u8, std::fmt::Error> = Ok(3);
    assert_eq!(ok.convert(), Ok(3));
}

#[test]
fn options_to_results() {
    assert_eq!(Some(5).to_res_err(), Ok(5));
    assert_eq!(None::<u8>.to_res_err(), Err(NoneValueError {}));
    assert_eq!(NoneValueError {}.description(), "NoneValueError");
}

fn std_components(s: &str) -> Vec<Component> {
    std::path::Path::new(s)
        .components()
        .map(|c| match c {
            std::path::Component::RootDir => Component::RootDir,
            std::path::Component::CurDir => Component::CurDir,
            std::path::Component::ParentDir => Component::ParentDir,
            std::path::Component::Normal(n) => Component::Normal(n.to_str().unwrap().as_bytes().to_vec()),
            std::path::Component::Prefix(_) => unreachable!(),
        })
        .collect()
}

#[test]
fn paths_parse_as_std_reads_them() {
    for s in [
        "", ".", "..", "/", "//", "./", "a", "a/", "./a", "a/.", "a/./b", "a//b", "/a/../b", ".//a",
        "../..", "a/.b/..c", "...", "./.", "/./a", "a/b/.", "$inline//$util", "inline::util",
    ] {
        assert_eq!(path(s).components(), &std_components(s), "{:?}", s);
        let parsed = path(s);
        let std_parent = std::path::Path::new(s).parent();
        match (parsed.parent(), std_parent) {
            (Some(p), Some(q)) => assert_eq!(p.components(), &std_components(q.to_str().unwrap()), "{:?}", s),
            (None, None) => {},
            (a, b) => panic!("{:?}: {:?} vs {:?}", s, a.is_some(), b.is_some()),
        }
    }
}

// the normal form by std's own path operations
fn std_normpath(path: &std::path::Path) -> std::path::PathBuf {
    let mut normal = std::path::PathBuf::new();
    let mut level: usize = 0;
    for part in path.iter() {
        if part == ".." {
            if level != 0 {
                normal.pop();
                level -= 1
            } else {
                normal.push("..");
            }
        } else if part != "." {
            normal.push(part);
            level += 1;
        }
    }
    normal
}

#[test]
fn normal_forms_agree_with_std_path_operations() {
    for s in [
        "", ".", "..", "/", "/..", "/../..", "a/..", "a/../..", "../a/./b/../c", "/a/b/../../..",
        "x/../../y/./z", "./q/..", "a/b/c/../../d", "tests/$module/../$inline/$util",
    ] {
        let ours = text(&path(s).normalize());
        let theirs = std_normpath(std::path::Path::new(s));
        assert_eq!(ours, theirs.to_str().unwrap(), "{:?}", s);
    }
}

#[test]
fn text_without_markers_has_no_includes() {
    assert!(parse_includes_exec(b"include \"x.wgsl\" fn main() {}").is_empty());
    assert!(parse_includes_exec(b"").is_empty());
}
