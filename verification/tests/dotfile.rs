use dotfiles::dotfile::engine::{apply_dotfiles, Action, Event};
use dotfiles::dotfile::nix_conf::NixConf;
use dotfiles::dotfile::unstructured::Unstructured;
use dotfiles::dotfile::{merge_dotfiles, ApplyError, Dotfile, MergeError};

fn opaque(content: &str) -> Dotfile {
    Dotfile::Unstructured(Unstructured::new(content.as_bytes().to_vec()))
}

fn conf(substituters: &[&str]) -> Dotfile {
    Dotfile::NixConf(
        NixConf::new().with_substituters(substituters.iter().map(|s| s.to_string()).collect()),
    )
}

#[test]
fn opaque_file_with_the_same_bytes_is_left_alone() {
    let file = Unstructured::new(vec![0, 159, 146, 150]);
    assert_eq!(file.apply(&[0, 159, 146, 150]).unwrap(), None);
    assert_eq!(opaque("same").apply(b"same").unwrap(), None);
}

#[test]
fn opaque_file_with_other_bytes_is_written_whole() {
    let file = Unstructured::new(b"new".to_vec());
    assert_eq!(file.apply(b"old").unwrap(), Some(b"new".to_vec()));
    assert_eq!(file.apply(b"").unwrap(), Some(b"new".to_vec()));
    // and what was written is left alone
    assert_eq!(file.apply(b"new").unwrap(), None);
}

#[test]
fn opaque_file_modes() {
    assert_eq!(Unstructured::new(vec![]).file_permission(), 0o644);
    assert_eq!(Unstructured::default().file_permission(), 0o644);
    assert_eq!(
        Unstructured::new_utf8("x".to_string())
            .with_permissions(0o600)
            .file_permission(),
        0o600
    );
    assert_eq!(
        Dotfile::Unstructured(Unstructured::new(vec![]).with_permissions(0o777)).file_permission(),
        0o777
    );
    assert_eq!(conf(&[]).file_permission(), 0o644);
}

#[test]
fn opaque_file_from_text_holds_its_utf8() {
    let file = Unstructured::new_utf8("é".to_string());
    assert_eq!(file.apply(b"").unwrap(), Some(vec![0xc3, 0xa9]));
}

#[test]
fn opaque_files_merge_only_with_the_same_bytes() {
    let mut a = Unstructured::new(b"x".to_vec()).with_permissions(0o600);
    assert_eq!(a.merge(Unstructured::new(b"x".to_vec())), Ok(()));
    assert_eq!(a.file_permission(), 0o600);
    assert_eq!(
        a.merge(Unstructured::new(b"y".to_vec())),
        Err(MergeError::MergeConflict {
            reason: "Unstructured files with different content cannot be merged".to_string()
        })
    );
    assert_eq!(a.apply(b"x").unwrap(), None);
}

#[test]
fn declarations_of_two_kinds_do_not_merge() {
    let expected = || MergeError::MergeConflict {
        reason: "can't merge dotfiles with different types".to_string(),
    };
    let mut a = opaque("x");
    assert_eq!(a.merge(conf(&["s"])), Err(expected()));
    assert_eq!(a.apply(b"x").unwrap(), None);
    let mut b = conf(&["s"]);
    assert_eq!(b.merge(opaque("x")), Err(expected()));
    assert_eq!(
        b.apply(b"").unwrap(),
        Some(b"substituters = s".to_vec())
    );
}

#[test]
fn two_targets_with_two_kinds_for_one_path_fail_to_merge() {
    let result = merge_dotfiles(vec![
        vec![("/etc/x".to_string(), opaque("x"))],
        vec![("/etc/x".to_string(), conf(&["s"]))],
    ]);
    assert_eq!(
        result.unwrap_err(),
        MergeError::MergeConflict {
            reason: "/etc/x: can't merge dotfiles with different types".to_string()
        }
    );
    let result = merge_dotfiles(vec![
        vec![("/etc/x".to_string(), conf(&["s"]))],
        vec![("/etc/y".to_string(), opaque("y"))],
        vec![("/etc/x".to_string(), opaque("x"))],
    ]);
    assert!(matches!(result, Err(MergeError::MergeConflict { .. })));
}

#[test]
fn a_failed_merge_names_the_path() {
    let result = merge_dotfiles(vec![
        vec![("/a".to_string(), opaque("1")), ("/b c".to_string(), opaque("2"))],
        vec![("/b c".to_string(), opaque("3"))],
    ]);
    assert_eq!(
        result.unwrap_err(),
        MergeError::MergeConflict {
            reason: "/b c: Unstructured files with different content cannot be merged".to_string()
        }
    );
    // the declarations themselves give the reason without a path
    let mut first = opaque("2");
    assert_eq!(
        first.merge(opaque("3")).unwrap_err(),
        MergeError::MergeConflict {
            reason: "Unstructured files with different content cannot be merged".to_string()
        }
    );
}

#[test]
fn no_contribution_merges_to_nothing() {
    assert_eq!(merge_dotfiles(vec![]).unwrap().len(), 0);
    assert_eq!(merge_dotfiles(vec![vec![], vec![]]).unwrap().len(), 0);
}

#[test]
fn contributions_merge_path_by_path() {
    let merged = merge_dotfiles(vec![
        vec![
            ("/a".to_string(), opaque("a")),
            ("/conf".to_string(), conf(&["s2"])),
        ],
        vec![
            ("/b".to_string(), opaque("b")),
            ("/conf".to_string(), conf(&["s1"])),
            ("/a".to_string(), opaque("a")),
        ],
    ])
    .unwrap();
    let paths: Vec<&str> = merged.iter().map(|(p, _)| p.as_str()).collect();
    assert_eq!(paths, vec!["/a", "/conf", "/b"]);
    assert_eq!(merged[0].1.apply(b"").unwrap(), Some(b"a".to_vec()));
    assert_eq!(
        merged[1].1.apply(b"").unwrap(),
        Some(b"substituters = s1 s2".to_vec())
    );
    assert_eq!(merged[2].1.apply(b"").unwrap(), Some(b"b".to_vec()));
}

#[test]
fn the_first_failure_ends_the_merge() {
    let result = merge_dotfiles(vec![
        vec![("/a".to_string(), opaque("1")), ("/b".to_string(), opaque("x"))],
        vec![("/b".to_string(), conf(&[])), ("/a".to_string(), opaque("2"))],
    ]);
    assert_eq!(
        result.unwrap_err(),
        MergeError::MergeConflict {
            reason: "/b: can't merge dotfiles with different types".to_string()
        }
    );
}

fn io_error() -> std::io::Error {
    std::io::Error::new(std::io::ErrorKind::PermissionDenied, "refused")
}

#[test]
fn run_without_declarations_is_finished_at_once() {
    let (_, action) = apply_dotfiles(vec![]);
    match action {
        Action::Finished { changed } => assert!(changed.is_empty()),
        other => panic!("unexpected: {:?}", other),
    }
}

#[test]
fn run_reads_writes_and_sets_modes_path_by_path() {
    let (mut run, action) = apply_dotfiles(vec![
        ("/same".to_string(), opaque("same")),
        (
            "/key".to_string(),
            Dotfile::Unstructured(Unstructured::new(b"key".to_vec()).with_permissions(0o600)),
        ),
        ("/conf".to_string(), conf(&["s"])),
    ]);
    assert!(matches!(action, Action::Read { ref path } if path == "/same"));
    assert!(run.accepts(&Event::Missing));
    assert!(!run.accepts(&Event::Done));
    // the first file holds what is declared: on to the second
    let action = run.advance(Event::Content(b"same".to_vec()));
    assert!(matches!(action, Action::Read { ref path } if path == "/key"));
    // the second does not exist: it is written, then its mode is set
    let action = run.advance(Event::Missing);
    match action {
        Action::Write { path, content } => {
            assert_eq!(path, "/key");
            assert_eq!(content, b"key".to_vec());
        }
        other => panic!("unexpected: {:?}", other),
    }
    assert!(run.accepts(&Event::Done));
    assert!(!run.accepts(&Event::Missing));
    let action = run.advance(Event::Done);
    match action {
        Action::SetPermissions { path, mode } => {
            assert_eq!(path, "/key");
            assert_eq!(mode, 0o600);
        }
        other => panic!("unexpected: {:?}", other),
    }
    let action = run.advance(Event::Done);
    assert!(matches!(action, Action::Read { ref path } if path == "/conf"));
    // the third is patched
    let action = run.advance(Event::Content(b"keep = me".to_vec()));
    match action {
        Action::Write { path, content } => {
            assert_eq!(path, "/conf");
            assert_eq!(content, b"keep = me\nsubstituters = s".to_vec());
        }
        other => panic!("unexpected: {:?}", other),
    }
    let action = run.advance(Event::Done);
    assert!(matches!(action, Action::SetPermissions { ref path, mode: 0o644 } if path == "/conf"));
    let action = run.advance(Event::Done);
    match action {
        Action::Finished { changed } => {
            assert_eq!(changed, vec!["/key".to_string(), "/conf".to_string()])
        }
        other => panic!("unexpected: {:?}", other),
    }
    assert!(!run.accepts(&Event::Done));
    assert!(!run.accepts(&Event::Missing));
}

fn expect_io_failure(action: Action, at: &str, what: &str) {
    match action {
        Action::Failed {
            error: ApplyError::IO {
                path,
                operation,
                err,
            },
        } => {
            assert_eq!(path, at);
            assert_eq!(operation, what);
            assert_eq!(err.kind(), std::io::ErrorKind::PermissionDenied);
        }
        other => panic!("unexpected: {:?}", other),
    }
}

#[test]
fn refused_read_ends_the_run() {
    let (mut run, _) = apply_dotfiles(vec![("/a".to_string(), opaque("a"))]);
    expect_io_failure(run.advance(Event::Failed(io_error())), "/a", "read");
    assert!(!run.accepts(&Event::Done));
}

#[test]
fn refused_write_ends_the_run() {
    let (mut run, _) = apply_dotfiles(vec![
        ("/a".to_string(), opaque("a")),
        ("/b".to_string(), opaque("b")),
    ]);
    assert!(matches!(run.advance(Event::Missing), Action::Write { .. }));
    expect_io_failure(run.advance(Event::Failed(io_error())), "/a", "write");
}

#[test]
fn refused_mode_ends_the_run() {
    let (mut run, _) = apply_dotfiles(vec![("/a".to_string(), opaque("a"))]);
    assert!(matches!(run.advance(Event::Missing), Action::Write { .. }));
    assert!(matches!(
        run.advance(Event::Done),
        Action::SetPermissions { .. }
    ));
    expect_io_failure(
        run.advance(Event::Failed(io_error())),
        "/a",
        "set_permissions",
    );
}

#[test]
fn declaration_that_cannot_be_applied_ends_the_run() {
    let (mut run, _) = apply_dotfiles(vec![
        ("/conf".to_string(), conf(&["s"])),
        ("/b".to_string(), opaque("b")),
    ]);
    let action = run.advance(Event::Content(vec![0xff]));
    assert!(matches!(
        action,
        Action::Failed {
            error: ApplyError::TextEncoding { .. }
        }
    ));
    assert!(!run.accepts(&Event::Done));
}
