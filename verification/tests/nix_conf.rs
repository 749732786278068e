use dotfiles::dotfile::nix_conf::NixConf;

#[test]
fn apply() {
    let old_content = r#"
experimental-features = nix-command flakes
build-users-group = nixbld
trusted-public-keys = cache.zelinf.net:poESahuRAXqYC2QPevSId+pTtoq0P1XfTxaSHRgfvVI=
post-build-hook = /etc/nix/post-build-hook
secret-key-files = /etc/nix/secret-key"#
        .as_bytes();
    let nix_conf = NixConf::new()
        .with_substituters(vec!["s3://nix-cache?endpoint=http://192.168.31.2:9091&profile=minio&compression=zstd&priority=0&trusted=true&want-mass-query=true".to_string()])
        .with_secret_key_files(vec!["a".to_string(), "b".to_string()]);
    let result = nix_conf
        .apply(old_content)
        .map(|x| x.map(|x| String::from_utf8(x).unwrap()));
    assert_eq!(
        result.unwrap().unwrap(),
        r#"
experimental-features = nix-command flakes
build-users-group = nixbld
trusted-public-keys = cache.zelinf.net:poESahuRAXqYC2QPevSId+pTtoq0P1XfTxaSHRgfvVI=
post-build-hook = /etc/nix/post-build-hook
secret-key-files = /etc/nix/secret-key a b
substituters = s3://nix-cache?endpoint=http://192.168.31.2:9091&profile=minio&compression=zstd&priority=0&trusted=true&want-mass-query=true"#
            .to_string()
    )
}

fn strings(items: &[&str]) -> Vec<String> {
    items.iter().map(|s| s.to_string()).collect()
}

fn applied_text(conf: &NixConf, old: &str) -> Option<String> {
    conf.apply(old.as_bytes())
        .unwrap()
        .map(|bytes| String::from_utf8(bytes).unwrap())
}

#[test]
fn new_key_is_appended_and_second_apply_changes_nothing() {
    let conf = NixConf::new().with_secret_key_files(strings(&["a", "b"]));
    let first = applied_text(&conf, "substituters = foo\n");
    assert_eq!(
        first,
        Some("substituters = foo\nsecret-key-files = a b".to_string())
    );
    assert_eq!(applied_text(&conf, &first.unwrap()), None);
}

#[test]
fn new_keys_are_appended_in_schema_order() {
    let expected = Some("substituters = s1\ntrusted-public-keys = k1".to_string());
    let one = NixConf::new()
        .with_substituters(strings(&["s1"]))
        .with_trusted_public_keys(strings(&["k1"]));
    let other = NixConf::new()
        .with_trusted_public_keys(strings(&["k1"]))
        .with_substituters(strings(&["s1"]));
    assert_eq!(applied_text(&one, ""), expected);
    assert_eq!(applied_text(&other, ""), expected);
}

#[test]
fn all_four_keys_in_schema_order() {
    let conf = NixConf::new()
        .with_secret_key_files(strings(&["k"]))
        .with_post_build_hook("/hook".to_string())
        .with_trusted_public_keys(strings(&["t"]))
        .with_substituters(strings(&["s"]));
    assert_eq!(
        applied_text(&conf, ""),
        Some(
            "substituters = s\ntrusted-public-keys = t\npost-build-hook = /hook\nsecret-key-files = k"
                .to_string()
        )
    );
}

#[test]
fn empty_declaration_leaves_plain_file_alone() {
    assert_eq!(applied_text(&NixConf::new(), ""), None);
    assert_eq!(applied_text(&NixConf::new(), "a = b\nc"), None);
}

#[test]
fn final_line_feed_is_dropped() {
    assert_eq!(
        applied_text(&NixConf::new(), "a = b\n"),
        Some("a = b".to_string())
    );
}

#[test]
fn lists_are_united_sorted_and_rid_of_repetitions() {
    let conf = NixConf::new().with_substituters(strings(&["c", "a", "c"]));
    assert_eq!(
        applied_text(&conf, "x = 1\nsubstituters = b a\ny = 2"),
        Some("x = 1\nsubstituters = a b c\ny = 2".to_string())
    );
}

#[test]
fn the_last_line_of_a_key_counts() {
    let conf = NixConf::new().with_substituters(strings(&["c"]));
    assert_eq!(
        applied_text(&conf, "substituters = a\nsubstituters = b"),
        Some("substituters = a\nsubstituters = b c".to_string())
    );
}

#[test]
fn lines_that_set_no_key_keep_their_place() {
    let conf = NixConf::new()
        .with_trusted_public_keys(strings(&["k"]))
        .with_post_build_hook("/h".to_string());
    assert_eq!(
        applied_text(
            &conf,
            "# comment\nsubstituters=unspaced\n\npost-build-hook = /h\n  indented = 1"
        ),
        Some(
            "# comment\nsubstituters=unspaced\n\npost-build-hook = /h\n  indented = 1\ntrusted-public-keys = k"
                .to_string()
        )
    );
}

#[test]
fn carriage_returns_before_line_feeds_are_dropped() {
    let conf = NixConf::new().with_substituters(strings(&["s"]));
    assert_eq!(
        applied_text(&conf, "a\r\nb\r\n"),
        Some("a\nb\nsubstituters = s".to_string())
    );
}

#[test]
fn words_are_split_at_any_white_space() {
    let conf = NixConf::new().with_substituters(strings(&["c"]));
    assert_eq!(
        applied_text(&conf, "substituters = b\u{a0}a\t\u{3000} d"),
        Some("substituters = a b c d".to_string())
    );
}

#[test]
fn hook_of_the_file_is_kept_as_it_stands() {
    let conf = NixConf::new().with_substituters(strings(&["s"]));
    assert_eq!(
        applied_text(&conf, "post-build-hook =  spaced out "),
        Some("post-build-hook =  spaced out \nsubstituters = s".to_string())
    );
}

#[test]
fn same_hook_is_no_conflict() {
    let conf = NixConf::new().with_post_build_hook("/h".to_string());
    assert_eq!(applied_text(&conf, "post-build-hook = /h"), None);
}

#[test]
fn different_hook_in_the_file_is_a_conflict() {
    let conf = NixConf::new().with_post_build_hook("/mine".to_string());
    match conf.apply(b"post-build-hook = /theirs") {
        Err(dotfiles::dotfile::ApplyError::Other(
            dotfiles::dotfile::MergeError::MergeConflict { reason },
        )) => assert_eq!(reason, "Conflicting values set for post_build_hook"),
        other => panic!("unexpected: {:?}", other),
    }
}

#[test]
fn bytes_that_are_no_utf8_are_an_encoding_error() {
    let conf = NixConf::new();
    match conf.apply(&[b'a', 0xff, b'b']) {
        Err(dotfiles::dotfile::ApplyError::TextEncoding {
            expected_encoding,
            message,
        }) => {
            assert_eq!(expected_encoding, "utf8");
            assert_eq!(
                message,
                String::from_utf8(vec![b'a', 0xff, b'b'])
                    .unwrap_err()
                    .to_string()
            );
        }
        other => panic!("unexpected: {:?}", other),
    }
}

#[test]
fn text_beyond_ascii_is_written_back_in_utf8() {
    let conf = NixConf::new().with_substituters(strings(&["caché"]));
    assert_eq!(
        conf.apply("# ünïcödé".as_bytes()).unwrap(),
        Some("# ünïcödé\nsubstituters = caché".as_bytes().to_vec())
    );
}

#[test]
fn merged_lists_are_the_same_in_either_order() {
    let a = || {
        NixConf::new()
            .with_substituters(strings(&["b", "a"]))
            .with_secret_key_files(strings(&["k2"]))
    };
    let b = || {
        NixConf::new()
            .with_substituters(strings(&["c", "a"]))
            .with_secret_key_files(strings(&["k1"]))
            .with_post_build_hook("/h".to_string())
    };
    let mut ab = a();
    ab.merge(b()).unwrap();
    let mut ba = b();
    ba.merge(a()).unwrap();
    let expected =
        Some("substituters = a b c\npost-build-hook = /h\nsecret-key-files = k1 k2".to_string());
    assert_eq!(applied_text(&ab, ""), expected);
    assert_eq!(applied_text(&ba, ""), expected);
}

#[test]
fn different_hooks_conflict_in_either_order() {
    let a = || NixConf::new().with_post_build_hook("/a".to_string());
    let b = || {
        NixConf::new()
            .with_post_build_hook("/b".to_string())
            .with_substituters(strings(&["s"]))
    };
    let mut ab = a();
    let mut ba = b();
    let expected = dotfiles::dotfile::MergeError::MergeConflict {
        reason: "Conflicting values set for post_build_hook".to_string(),
    };
    assert_eq!(ab.merge(b()), Err(expected));
    let expected = dotfiles::dotfile::MergeError::MergeConflict {
        reason: "Conflicting values set for post_build_hook".to_string(),
    };
    assert_eq!(ba.merge(a()), Err(expected));
    // nothing was taken in
    assert_eq!(applied_text(&ab, ""), Some("post-build-hook = /a".to_string()));
    assert_eq!(
        applied_text(&ba, ""),
        Some("substituters = s\npost-build-hook = /b".to_string())
    );
}

#[test]
fn structured_file_mode() {
    assert_eq!(NixConf::new().file_permission(), 0o644);
}

#[test]
fn second_apply_changes_nothing() {
    let conf = NixConf::new()
        .with_substituters(strings(&["b", "", "a"]))
        .with_trusted_public_keys(strings(&["k"]))
        .with_post_build_hook("".to_string());
    for old in [
        "",
        "x",
        "substituters = c\r\nother\r\n",
        "post-build-hook = \nsecret-key-files = z\n\ntrusted-public-keys = k",
    ] {
        let first = applied_text(&conf, old).unwrap();
        assert_eq!(applied_text(&conf, &first), None, "{:?}", old);
    }
    assert_eq!(
        applied_text(&conf, ""),
        Some("substituters =  a b\ntrusted-public-keys = k\npost-build-hook = ".to_string())
    );
}

#[test]
fn nothing_declared_for_a_line_feed_writes_the_empty_file_once() {
    let nothing = NixConf::new();
    assert_eq!(nothing.apply(b"\n").unwrap(), Some(vec![]));
    assert_eq!(nothing.apply(b"").unwrap(), None);
}
