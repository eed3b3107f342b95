use omp_desktop::dto::TerminalExit;
use omp_desktop::pty::{
    clamp, exit_of, not_a_directory, session_of, snapshot_of, terminal_id, window_size, Batch, Program,
    MAX_CHUNK, MAX_COLS, MAX_ROWS, MIN_COLS, MIN_ROWS,
};

#[test]
fn a_size_that_was_never_laid_out_is_clamped() {
    assert_eq!(window_size(0, 0), (MIN_COLS, MIN_ROWS));
    assert_eq!(window_size(80, 24), (80, 24));
    assert_eq!(window_size(u16::MAX, u16::MAX), (MAX_COLS, MAX_ROWS));
    assert_eq!(clamp(7, 10, 20), 10);
    assert_eq!(clamp(15, 10, 20), 15);
    assert_eq!(clamp(25, 10, 20), 20);
}

#[test]
fn a_death_by_signal_is_not_reported_as_an_exit_code() {
    let signalled = exit_of(Some("Terminated".to_string()), 1);
    assert_eq!(signalled.code, None);
    assert_eq!(signalled.signal.as_deref(), Some("Terminated"));

    let exited = exit_of(None, 7);
    assert_eq!(exited.code, Some(7));
    assert_eq!(exited.signal, None);
}

#[test]
fn an_exit_code_is_reported_and_the_tab_stays() {
    let exit = Some(TerminalExit { code: Some(7), signal: None });
    let tab = snapshot_of("pty-1", "/work", &exit, Some(4242));
    assert!(!tab.running);
    assert_eq!(tab.exit, exit);
    assert_eq!(tab.pid, Some(4242));

    let live = snapshot_of("pty-2", "/work", &None, Some(4243));
    assert!(live.running);
    assert_eq!(live.exit, None);
    assert_eq!(live.id, "pty-2");
    assert_eq!(live.cwd, "/work");
}

#[test]
fn long_output_is_batched_and_kept_whole() {
    let mut batch = Batch::start(vec![b'a'; MAX_CHUNK - 2]);
    assert!(batch.open());
    assert_eq!(batch.offer(b"bc".to_vec()), None);
    assert!(!batch.open(), "a full batch takes no more");
    assert_eq!(batch.offer(b"d".to_vec()), Some(b"d".to_vec()), "the read that does not fit starts the next event");

    let small = Batch::start(b"hi".to_vec());
    let mut small = small;
    assert_eq!(small.offer(b"!".to_vec()), None);
    let out = small.finish("pty-3");
    assert_eq!(out.id, "pty-3");
    assert_eq!(out.data, "aGkh", "the standard alphabet, padded");
}

#[test]
fn the_batch_is_base64_with_padding() {
    let cases: [(&[u8], &str); 5] = [
        (b"", ""),
        (b"f", "Zg=="),
        (b"fo", "Zm8="),
        (b"foo", "Zm9v"),
        (&[0xff, 0xfe, 0x00, 0x3f], "//4APw=="),
    ];
    for (bytes, encoded) in cases {
        assert_eq!(Batch::start(bytes.to_vec()).finish("pty-1").data, encoded);
    }
}

#[test]
fn a_terminal_runs_the_users_shell_or_sh() {
    assert_eq!(Program::shell_from(Some("/bin/zsh".to_string())).file, "/bin/zsh");
    assert_eq!(Program::shell_from(Some("  ".to_string())).file, "/bin/sh");
    assert_eq!(Program::shell_from(None).file, "/bin/sh");
    let login = Program::new("omp".to_string()).arg("auth-broker".to_string()).arg("login".to_string());
    assert_eq!(login.file, "omp");
    assert_eq!(login.args, ["auth-broker", "login"]);
}

#[test]
fn the_session_of_a_process_is_read_after_its_name() {
    assert_eq!(session_of("4242 (bash) S 4241 4242 4242 34816"), Some(4242));
    assert_eq!(session_of("77 (my (odd) name) S 1 70 71 0"), Some(71));
    assert_eq!(session_of("no parenthesis here"), None);
    assert_eq!(session_of("1 (x) S 1"), None);
}

#[test]
fn a_directory_that_is_not_one_is_refused() {
    assert_eq!(not_a_directory("no-such-directory"), "no-such-directory is not a directory");
    assert_eq!(terminal_id(12), "pty-12");
}
