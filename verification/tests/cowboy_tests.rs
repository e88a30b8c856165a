use cowboy::{Cowboy, IntoCowboy, read_pinned};

#[test]
fn create_then_read_yields_value() {
    let cell = Cowboy::new(42i64);
    let handle = cell.read();
    assert_eq!(*handle.borrow(), 42);
    handle.release_read();
}

#[test]
fn shorthand_read_matches_read() {
    let cell = Cowboy::new(7u64);
    let handle = cell.r();
    assert_eq!(*handle.borrow(), 7);
    handle.release_read();
}

#[test]
fn write_then_read_yields_new_value() {
    let cell = Cowboy::new(1i64);
    let (previous, handle) = cell.write();
    assert_eq!(previous, 1);
    handle.release_write(2);
    let handle = cell.read();
    assert_eq!(*handle.borrow(), 2);
    handle.release_read();
}

#[test]
fn shorthand_write_matches_write() {
    let cell = Cowboy::new(1i64);
    let (previous, handle) = cell.w();
    assert_eq!(previous, 1);
    handle.release_write(3);
    assert_eq!(cell.get_cloned(), 3);
}

#[test]
fn set_overwrites() {
    let cell = Cowboy::new(42i64);
    cell.set(84);
    assert_eq!(cell.get_cloned(), 84);
}

#[test]
fn clone_shares_slot() {
    let a = Cowboy::new(0i64);
    let b = a.clone();
    a.set(1);
    assert_eq!(b.get_cloned(), 1);
    b.set(2);
    assert_eq!(a.get_cloned(), 2);
}

#[test]
fn many_clones_all_see_mutation() {
    let first = Cowboy::new(0i64);
    let clones: Vec<_> = (0..5).map(|_| first.clone()).collect();
    clones[3].set(9);
    assert_eq!(first.get_cloned(), 9);
    for c in &clones {
        assert_eq!(c.get_cloned(), 9);
    }
}

#[test]
fn replace_returns_previous_exactly() {
    let cell = Cowboy::new(42i64);
    let old_value = cell.replace(84);
    assert_eq!(old_value, 42);
    assert_eq!(cell.get_cloned(), 84);
}

#[test]
fn modify_applies_function_in_place() {
    let cell = Cowboy::new(42i64);
    cell.modify(|value: i64| value * 2);
    assert_eq!(cell.get_cloned(), 84);
}

#[test]
fn get_cloned_leaves_slot_intact() {
    let cell = Cowboy::new(String::from("howdy"));
    let copy = cell.get_cloned();
    assert_eq!(copy, "howdy");
    assert_eq!(cell.get_cloned(), "howdy");
}

#[test]
fn into_cowboy_wraps_value() {
    let cell = 42i64.cowboy();
    assert_eq!(cell.get_cloned(), 42);
    cell.set(84);
    assert_eq!(cell.get_cloned(), 84);
}

#[test]
fn default_cell_holds_default_value() {
    let cell: Cowboy<i64> = Cowboy::default();
    assert_eq!(cell.get_cloned(), 0);
    cell.set(4);
    assert_eq!(cell.get_cloned(), 4);
}

#[test]
fn read_pinned_returns_the_pinned_value() {
    assert_eq!(read_pinned(7i64), 7);
    assert_eq!(read_pinned(true), true);
}

#[test]
fn interleaved_writer_and_reader_handles() {
    // One writing handle and one reading handle interleave on a shared
    // counter: every read observes a validly written value, no update is
    // lost, and the counter ends exactly five above its start.
    let writer = Cowboy::new(0i64);
    let reader = writer.clone();
    for step in 1..=5i64 {
        writer.modify(|v: i64| v + 1);
        let seen = reader.get_cloned();
        assert_eq!(seen, step);
    }
    assert_eq!(reader.get_cloned(), 5);
}

#[test]
fn vector_push_and_len() {
    let cell = Cowboy::new(Vec::<u64>::new());
    assert!(cell.is_empty());
    assert_eq!(cell.len(), 0);
    cell.push(10);
    cell.push(20);
    assert!(!cell.is_empty());
    assert_eq!(cell.len(), 2);
    let contents = cell.get_cloned();
    assert_eq!(contents, vec![10, 20]);
}

#[test]
fn vector_cell_shared_between_clones() {
    let a = Cowboy::new(Vec::<u64>::new());
    let b = a.clone();
    a.push(1);
    b.push(2);
    assert_eq!(a.len(), 2);
    assert_eq!(b.get_cloned(), vec![1, 2]);
}
