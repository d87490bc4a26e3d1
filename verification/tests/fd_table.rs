use vfd::ctx::InterpCx;
use vfd::err::InterpError;
use vfd::ident::FdId;
use vfd::resource::{FileDescription, NullOutput};
use vfd::table::{FdTable, FileDescriptionExt, FileDescriptionRef};

fn empty_ctx() -> InterpCx {
    InterpCx { mem: Vec::new(), epoll_interests: Vec::new(), last_error: None }
}

#[test]
fn bootstrap_binds_the_three_standard_slots() {
    let mut t = FdTable::init(false);
    assert!(t.is_fd_num(0) && t.is_fd_num(1) && t.is_fd_num(2));
    assert!(!t.is_fd_num(3));
    let h0 = t.get(0).unwrap();
    let h1 = t.get(1).unwrap();
    let h2 = t.get(2).unwrap();
    assert_eq!(*h0.description(), FileDescription::Stdin);
    assert_eq!(*h1.description(), FileDescription::Stdout);
    assert_eq!(*h2.description(), FileDescription::Stderr);
    t.drop_ref(h0);
    t.drop_ref(h1);
    t.drop_ref(h2);
}

#[test]
fn muted_bootstrap_binds_null_sinks() {
    let mut t = FdTable::init(true);
    let h1 = t.get(1).unwrap();
    let h2 = t.get(2).unwrap();
    assert_eq!(*h1.description(), FileDescription::Null(NullOutput));
    assert_eq!(*h2.description(), FileDescription::Null(NullOutput));
    // the two sinks are independent resources
    assert_ne!(h1.id(), h2.id());
    t.drop_ref(h1);
    t.drop_ref(h2);
}

#[test]
fn allocation_takes_the_lowest_free_number() {
    let mut t = FdTable::init(false);
    // 0, 1, 2 are taken; the next three go to 3, 4, 5
    assert_eq!(t.insert_new(FileDescription::Null(NullOutput)), 3);
    assert_eq!(t.insert_new(FileDescription::Null(NullOutput)), 4);
    assert_eq!(t.insert_new(FileDescription::Null(NullOutput)), 5);
    // gaps are filled first, lowest first
    let g1 = t.remove(1).unwrap();
    let g4 = t.remove(4).unwrap();
    t.drop_ref(g1);
    t.drop_ref(g4);
    assert_eq!(t.insert_new(FileDescription::Null(NullOutput)), 1);
    assert_eq!(t.insert_new(FileDescription::Null(NullOutput)), 4);
    assert_eq!(t.insert_new(FileDescription::Null(NullOutput)), 6);
}

#[test]
fn minimum_number_scenario_fills_gaps_before_growing() {
    let mut t = FdTable::new();
    let a = t.new_ref(FileDescription::Null(NullOutput));
    let b = t.new_ref(FileDescription::Null(NullOutput));
    let c = t.new_ref(FileDescription::Null(NullOutput));
    assert_eq!(t.insert_with_min_num(a, 5), 5);
    assert_eq!(t.insert_with_min_num(b, 5), 6);
    assert_eq!(t.insert_with_min_num(c, 5), 7);
    let gone = t.remove(6).unwrap();
    t.drop_ref(gone);
    // with the gap at 6 and nothing below 5, a minimum of 5 fills the gap
    // before any number past 7 is issued
    let d = t.new_ref(FileDescription::Null(NullOutput));
    assert_eq!(t.insert_with_min_num(d, 5), 6);
    assert!(t.is_fd_num(5) && t.is_fd_num(6) && t.is_fd_num(7));
    assert!(!t.is_fd_num(8));
    // a minimum of 0 takes the smallest free number outright
    let e = t.new_ref(FileDescription::Null(NullOutput));
    assert_eq!(t.insert_with_min_num(e, 0), 0);
}

#[test]
fn descriptor_numbers_stay_unique_across_inserts_and_removes() {
    let mut t = FdTable::new();
    let mut held: Vec<i32> = Vec::new();
    for _ in 0..5 {
        held.push(t.insert_new(FileDescription::Null(NullOutput)));
    }
    let r2 = t.remove(2).unwrap();
    t.drop_ref(r2);
    held.retain(|&n| n != 2);
    held.push(t.insert_new(FileDescription::Null(NullOutput)));
    held.push(t.insert_new(FileDescription::Null(NullOutput)));
    for (i, a) in held.iter().enumerate() {
        for (j, b) in held.iter().enumerate() {
            if i != j {
                assert_ne!(a, b);
            }
        }
        assert!(t.is_fd_num(*a));
    }
}

#[test]
fn identifiers_are_stable_under_cloning_and_distinct_across_resources() {
    let mut t = FdTable::new();
    let h1 = t.new_ref(FileDescription::Null(NullOutput));
    let h2 = t.new_ref(FileDescription::Stdin);
    assert_ne!(h1.id(), h2.id());
    let dup = t.clone_ref(&h1);
    assert_eq!(dup.id(), h1.id());
    // the first resource of a fresh table carries the first identifier
    assert_eq!(h1.id(), FdId::default());
    t.drop_ref(dup);
    t.drop_ref(h1);
    t.drop_ref(h2);
}

#[test]
fn identifiers_survive_table_round_trips() {
    let mut t = FdTable::init(false);
    let h = t.get(0).unwrap();
    let id = h.id();
    let n = t.insert(h);
    assert_eq!(n, 3);
    let back = t.remove(3).unwrap();
    assert_eq!(back.id(), id);
    t.drop_ref(back);
}

#[test]
fn closing_one_of_two_duplicates_reports_success_without_close_logic() {
    let mut t = FdTable::new();
    let mut ctx = empty_ctx();
    let a = t.new_ref(FileDescription::Null(NullOutput));
    let id = a.id();
    ctx.epoll_interests.push(id);
    let b = t.clone_ref(&a);
    // closing the alias: success, no work, the epoll interest survives
    let first = a.close_ref(&mut t, true, &mut ctx);
    assert!(matches!(first, Ok(Ok(()))));
    assert!(ctx.epoll_interests.contains(&id));
    // closing the last holder runs the close logic: the null sink reports
    // closing as unsupported, and the epoll interest is gone
    let second = b.close_ref(&mut t, true, &mut ctx);
    assert!(matches!(second, Err(InterpError::Unsupported { .. })));
    assert!(!ctx.epoll_interests.contains(&id));
}

#[test]
fn closing_the_last_table_slot_holder_finalizes() {
    let mut t = FdTable::init(true);
    let mut ctx = empty_ctx();
    let h = t.get(1).unwrap();
    // the table still holds slot 1, so this close does no work
    let first = h.close_ref(&mut t, true, &mut ctx);
    assert!(matches!(first, Ok(Ok(()))));
    assert!(t.is_fd_num(1));
    // after the slot is gone too, the close logic runs
    let last = t.remove(1).unwrap();
    let second = last.close_ref(&mut t, true, &mut ctx);
    assert!(matches!(second, Err(InterpError::Unsupported { .. })));
    assert!(!t.is_fd_num(1));
}

#[test]
fn weak_upgrade_fails_only_after_the_last_strong_holder_is_gone() {
    let mut t = FdTable::new();
    let h = t.new_ref(FileDescription::Null(NullOutput));
    let w = FileDescriptionRef::downgrade(&h);
    // a strong handle is alive: the upgrade is a valid clone
    let up = w.upgrade(&mut t).unwrap();
    assert_eq!(up.id(), h.id());
    t.drop_ref(up);
    // a table slot also counts as a strong holder
    let n = t.insert(h);
    let up2 = w.upgrade(&mut t).unwrap();
    t.drop_ref(up2);
    let out = t.remove(n).unwrap();
    t.drop_ref(out);
    // the last strong holder is gone: upgrading reports nothing
    assert!(w.upgrade(&mut t).is_none());
    // and a clone of the weak reference observes the same death
    assert!(w.clone().upgrade(&mut t).is_none());
}

#[test]
fn get_hands_out_an_independent_owning_reference() {
    let mut t = FdTable::init(true);
    let h = t.get(2).unwrap();
    let w = FileDescriptionRef::downgrade(&h);
    // removing the slot does not kill the resource while the handle lives
    let slot = t.remove(2).unwrap();
    t.drop_ref(slot);
    assert!(w.upgrade(&mut t).is_some_and(|u| {
        t.drop_ref(u);
        true
    }));
    t.drop_ref(h);
    assert!(w.upgrade(&mut t).is_none());
}

#[test]
fn lookup_of_an_unbound_number_reports_nothing() {
    let mut t = FdTable::init(false);
    assert!(t.get(7).is_none());
    assert!(t.remove(7).is_none());
    assert!(!t.is_fd_num(-1));
}
