use worker_farm::bootstrap::{get_js, replace_bytes};

#[test]
fn replace_bytes_matches_str_replace() {
    let cases: [(&str, &str, &str); 6] = [
        ("a__X__b__X__", "__X__", "1"),
        ("aaaa", "aa", "b"),
        ("abc", "zz", "y"),
        ("", "x", "y"),
        ("xx", "x", ""),
        ("abab", "ab", "abab"),
    ];
    for (s, pat, rep) in cases {
        assert_eq!(
            replace_bytes(s.as_bytes(), pat.as_bytes(), rep.as_bytes()),
            s.replace(pat, rep).into_bytes()
        );
    }
    assert_eq!(replace_bytes(b"abc", b"", b"x"), b"abc".to_vec());
}

#[test]
fn get_js_fills_every_placeholder() {
    let main = b"const b64 = '__MACH_WORKER_SCRIPT_B64__';\nconst src = `__MACH_WORKER_SCRIPT__`;\nconst extra = __MACH_WORKER_COUNT__;\n";
    let worker = b"connect(__MACH__PORT__)";
    let script = get_js(main, worker, 4242, 4);
    let text = String::from_utf8(script).unwrap();
    assert_eq!(
        text,
        "const b64 = 'Y29ubmVjdCg0MjQyKQ==';\nconst src = `connect(4242)`;\nconst extra = 3;\n"
    );
}

#[test]
fn get_js_for_one_worker_spawns_no_extra_thread() {
    let script = get_js(b"n=__MACH_WORKER_COUNT__", b"", 1, 1);
    assert_eq!(script, b"n=0".to_vec());
}

#[test]
fn bootstrap_base64_of_empty_worker_is_empty() {
    let script = get_js(b"[__MACH_WORKER_SCRIPT_B64__]", b"", 80, 2);
    assert_eq!(script, b"[]".to_vec());
    let script = get_js(b"[__MACH_WORKER_SCRIPT_B64__]", b"hi", 80, 2);
    assert_eq!(script, b"[aGk=]".to_vec());
}
