use vfd::ctx::{EvalContextExt, InterpCx};
use vfd::err::InterpError;
use vfd::resource::{FileDescription, NullOutput, SeekFrom};

fn ctx_with_mem(len: usize) -> InterpCx {
    InterpCx { mem: vec![0u8; len], epoll_interests: Vec::new(), last_error: None }
}

#[test]
fn read_completion_writes_only_the_actually_read_prefix() {
    let mut ctx = ctx_with_mem(8);
    for b in ctx.mem.iter_mut() {
        *b = 9;
    }
    let bytes = vec![1u8, 2, 3, 4];
    let mut dest: i64 = -7;
    // the host produced only 2 of the 4 requested bytes; go through the
    // trait, as a syscall layer would
    EvalContextExt::return_read_success(&mut ctx, 1, &bytes, 2, &mut dest);
    assert_eq!(ctx.mem, vec![9, 1, 2, 9, 9, 9, 9, 9]);
    assert_eq!(dest, 2);
}

#[test]
fn write_completion_stores_the_actual_count() {
    let mut ctx = ctx_with_mem(4);
    let mut dest: i64 = -7;
    EvalContextExt::return_write_success(&mut ctx, 3, &mut dest);
    assert_eq!(dest, 3);
    assert_eq!(ctx.mem, vec![0, 0, 0, 0]);
    assert!(ctx.last_error.is_none());
}

#[test]
fn null_sink_reports_full_success_with_no_observable_output() {
    let mut ctx = ctx_with_mem(16);
    let sink = FileDescription::Null(NullOutput);
    let mut dest: i64 = -1;
    let r = sink.write(false, 2, 10, &mut dest, &mut ctx);
    assert!(r.is_ok());
    assert_eq!(dest, 10);
    assert_eq!(ctx.mem, vec![0u8; 16]);
    assert!(ctx.last_error.is_none());
}

#[test]
fn muted_table_writes_report_success_on_both_slots() {
    let mut t = vfd::table::FdTable::init(true);
    let mut ctx = ctx_with_mem(8);
    for n in [1, 2] {
        let h = t.get(n).unwrap();
        let mut dest: i64 = -1;
        let r = h.description().write(true, 0, 8, &mut dest, &mut ctx);
        assert!(r.is_ok());
        assert_eq!(dest, 8);
        t.drop_ref(h);
    }
}

#[test]
fn reading_stdin_under_isolation_is_refused_before_touching_the_host() {
    let mut ctx = ctx_with_mem(8);
    for b in ctx.mem.iter_mut() {
        *b = 5;
    }
    let r = FileDescription::Stdin.read(false, 0, 8, &mut ctx);
    match r {
        Err(InterpError::Isolation { operation, name }) => {
            assert_eq!(operation, "read");
            assert_eq!(name, "stdin");
        }
        other => panic!("expected an isolation refusal, got {:?}", other),
    }
    assert_eq!(ctx.mem, vec![5u8; 8]);
}

#[test]
fn reading_zero_bytes_from_stdin_reports_zero() {
    let mut ctx = ctx_with_mem(4);
    let r = FileDescription::Stdin.read(true, 1, 0, &mut ctx);
    assert!(matches!(r, Ok(Ok(0))));
    assert_eq!(ctx.mem, vec![0u8; 4]);
}

#[test]
fn only_stdin_reads_and_stdin_never_writes() {
    let mut ctx = ctx_with_mem(4);
    for res in [
        FileDescription::Stdout,
        FileDescription::Stderr,
        FileDescription::Null(NullOutput),
    ] {
        let r = res.read(true, 0, 4, &mut ctx);
        assert!(matches!(r, Err(InterpError::Unsupported { operation: "read", .. })));
    }
    let mut dest: i64 = -1;
    let w = FileDescription::Stdin.write(true, 0, 4, &mut dest, &mut ctx);
    assert!(matches!(w, Err(InterpError::Unsupported { operation: "write", name: "stdin" })));
    assert_eq!(dest, -1);
}

#[test]
fn standard_streams_support_neither_seek_nor_close() {
    let mut ctx = ctx_with_mem(1);
    let s = FileDescription::Stdout.seek(true, SeekFrom::Start(0));
    assert!(matches!(s, Err(InterpError::Unsupported { operation: "seek", name: "stdout" })));
    let c = FileDescription::Stderr.close(true, &mut ctx);
    assert!(matches!(c, Err(InterpError::Unsupported { operation: "close", name: "stderr" })));
}

#[test]
fn writing_to_stderr_reports_how_much_the_host_took() {
    let mut ctx = ctx_with_mem(4);
    let mut dest: i64 = -1;
    // an empty write: the host can take at most 0 bytes
    let r = FileDescription::Stderr.write(true, 0, 0, &mut dest, &mut ctx);
    assert!(r.is_ok());
    assert!(dest == 0 || (dest == -1 && ctx.last_error.is_some()));
}

#[test]
fn writing_to_stdout_is_bounded_by_the_request() {
    let mut ctx = ctx_with_mem(4);
    ctx.mem = b"ok\n\n".to_vec();
    let mut dest: i64 = -1;
    let r = FileDescription::Stdout.write(false, 0, 3, &mut dest, &mut ctx);
    assert!(r.is_ok());
    assert!((0 <= dest && dest <= 3) || (dest == -1 && ctx.last_error.is_some()));
}

#[test]
fn tty_checks_are_false_under_isolation_and_for_the_sink() {
    assert!(!FileDescription::Stdin.is_tty(false));
    assert!(!FileDescription::Stdout.is_tty(false));
    assert!(!FileDescription::Stderr.is_tty(false));
    assert!(!FileDescription::Null(NullOutput).is_tty(true));
}

#[test]
fn resource_names_match_their_kinds() {
    assert_eq!(FileDescription::Stdin.name(), "stdin");
    assert_eq!(FileDescription::Stdout.name(), "stdout");
    assert_eq!(FileDescription::Stderr.name(), "stderr");
    assert_eq!(FileDescription::Null(NullOutput).name(), "stderr and stdout");
}

#[test]
fn a_recorded_host_error_reaches_the_guest_as_minus_one() {
    let mut ctx = ctx_with_mem(2);
    let mut dest: i64 = 5;
    ctx.set_last_error_and_return(vfd::err::IoError { raw_os_error: Some(32) }, &mut dest);
    assert_eq!(dest, -1);
    assert_eq!(ctx.last_error.unwrap().raw_os_error, Some(32));
}

#[test]
fn removing_an_epoll_interest_leaves_the_others() {
    let mut t = vfd::table::FdTable::new();
    let a = t.new_ref(FileDescription::Null(NullOutput));
    let b = t.new_ref(FileDescription::Null(NullOutput));
    let mut ctx = ctx_with_mem(0);
    ctx.epoll_interests.push(a.id());
    ctx.epoll_interests.push(b.id());
    ctx.remove_epoll_interest(a.id());
    assert!(!ctx.epoll_interests.contains(&a.id()));
    assert!(ctx.epoll_interests.contains(&b.id()));
    t.drop_ref(a);
    t.drop_ref(b);
}
