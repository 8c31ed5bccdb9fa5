use samply_core::path_mapper::{forward_slashes, special_path_for_captures, BasePath, FilePath, PathMapper};
use std::path::PathBuf;

fn non_local(p: FilePath) -> String {
    match p {
        FilePath::NonLocal(s) => s,
        _ => panic!("expected a non-local path"),
    }
}

#[test]
fn rust_and_cargo_paths_become_special_paths() {
    let mut mapper = PathMapper::<()>::new(&BasePath::NoLocalSourceFileAccess);
    assert_eq!(
        non_local(mapper.map_path("/rustc/abc123/library/core/src/lib.rs")),
        "git:github.com/rust-lang/rust:library/core/src/lib.rs:abc123"
    );
    assert_eq!(
        non_local(mapper.map_path("/rustc/abc123\\library\\std\\src\\lib.rs")),
        "git:github.com/rust-lang/rust:library/std/src/lib.rs:abc123"
    );
    assert_eq!(
        non_local(mapper.map_path("/home/u/.cargo/registry/src/github.com-1ecc6299db9ec823/serde-1.0.100/src/de/mod.rs")),
        "cargo:github.com-1ecc6299db9ec823:serde-1.0.100:src/de/mod.rs"
    );
    assert_eq!(non_local(mapper.map_path("/src/main.c")), "/src/main.c");
    // A second request gives the remembered answer.
    assert_eq!(non_local(mapper.map_path("/src/main.c")), "/src/main.c");
}

#[test]
fn local_paths_are_resolved_against_the_base() {
    let mut mapper = PathMapper::<()>::new(&BasePath::CanReferToLocalFiles(PathBuf::from("/base")));
    match mapper.map_path("rel/x.c") {
        FilePath::LocalMapped { local, mapped } => {
            assert_eq!(local, PathBuf::from("/base/rel/x.c"));
            assert_eq!(mapped, "rel/x.c");
        }
        _ => panic!("expected a mapped local path"),
    }
    match mapper.map_path("/abs/x.c") {
        FilePath::Local(local) => assert_eq!(local, PathBuf::from("/abs/x.c")),
        _ => panic!("expected a local path"),
    }
    match mapper.map_path("/rustc/ff/src/lib.rs") {
        FilePath::LocalMapped { local, mapped } => {
            assert_eq!(local, PathBuf::from("/rustc/ff/src/lib.rs"));
            assert_eq!(mapped, "git:github.com/rust-lang/rust:src/lib.rs:ff");
        }
        _ => panic!("expected a mapped local path"),
    }
}

#[test]
fn special_paths_from_captures() {
    assert_eq!(
        special_path_for_captures(Some(("r".to_string(), "a\\b".to_string())), None),
        Some("git:github.com/rust-lang/rust:a/b:r".to_string())
    );
    assert_eq!(
        special_path_for_captures(
            None,
            Some(("reg".to_string(), "foo".to_string(), "1.2.3".to_string(), "src\\x.rs".to_string()))
        ),
        Some("cargo:reg:foo-1.2.3:src/x.rs".to_string())
    );
    assert_eq!(special_path_for_captures(None, None), None);
    assert_eq!(forward_slashes("a\\b\\c/d"), "a/b/c/d");
}

struct Upper;

impl samply_core::path_mapper::ExtraPathMapper for Upper {
    fn map_path(&mut self, path: &str) -> Option<String> {
        if path.starts_with("x") {
            Some(path.to_uppercase())
        } else {
            None
        }
    }
}

#[test]
fn extra_mapper_answers_come_first_and_keep_the_local_path() {
    let mut mapper =
        PathMapper::new_with_maybe_extra_mapper(&BasePath::CanReferToLocalFiles(PathBuf::from("/b")), Some(Upper));
    match mapper.map_path("x/y.c") {
        FilePath::LocalMapped { local, mapped } => {
            assert_eq!(local, PathBuf::from("/b/x/y.c"));
            assert_eq!(mapped, "X/Y.C");
        }
        _ => panic!("expected a mapped local path"),
    }
    match mapper.map_path("/abs/z.c") {
        FilePath::Local(local) => assert_eq!(local, PathBuf::from("/abs/z.c")),
        _ => panic!("expected a local path"),
    }
}
