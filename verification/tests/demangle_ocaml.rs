use samply_core::demangle_ocaml::{demangle, demangle_checked};

#[test]
fn demangle_ocaml() {
    assert!(demangle("main") == None);
    assert!(demangle("camlStdlib__array__map_154") == Some("Stdlib.array.map_154".to_string()));
    assert!(
        demangle("camlStdlib__anon_fn$5bstdlib$2eml$3a334$2c0$2d$2d54$5d_1453")
            == Some("Stdlib.anon_fn[stdlib.ml:334,0--54]_1453".to_string())
    );
    assert!(
        demangle("camlStdlib__bytes__$2b$2b_2205") == Some("Stdlib.bytes.++_2205".to_string())
    );
    assert!(demangle("camlFoo$ff") == Some("Foo\u{ff}".to_string()));
    assert!(demangle("camlFoo_") == Some("Foo_".to_string()));
    assert!(demangle("camlFoo__") == Some("Foo.".to_string()));
    assert!(demangle("camlFoo$") == Some("Foo$".to_string()));
    assert!(demangle("camlFoo$a") == Some("Foo$a".to_string()));
    assert!(demangle("camlFoo$$") == Some("Foo$$".to_string()));
}

#[test]
fn demangle_rejects_lowercase_module() {
    assert_eq!(demangle("camlfoo"), None);
    assert_eq!(demangle("caml"), Some(String::new()));
}

#[test]
fn demangle_drops_dollar_before_non_hex() {
    assert_eq!(demangle("camlA$zz"), Some("Azz".to_string()));
    assert_eq!(demangle("camlA$+f"), Some("A\u{f}".to_string()));
}

#[test]
fn demangle_checked_detects_split_escape() {
    assert_eq!(demangle_checked("camlA$a\u{e9}"), None);
    assert_eq!(demangle_checked("camlA$\u{20ac}x"), None);
    assert_eq!(demangle_checked("camlA$\u{e9}x"), Some(Some("A\u{e9}x".to_string())));
    assert_eq!(demangle_checked("camla$a\u{e9}"), Some(None));
}
