use finsk::cursor::Cursor;
use finsk::cursor::VecCursor;

#[test]
fn new_starts_at_zero() {
    let c = VecCursor::new(vec![10u32, 20, 30]);
    assert_eq!(c.cursor(), 0);
    assert_eq!(*c.at_cursor(), 10);
    assert_eq!(c.as_slice(), &[10, 20, 30]);
}

#[test]
fn increase_wraps_at_the_end() {
    let mut c = VecCursor::new(vec![1u32, 2, 3]);
    c.increase();
    assert_eq!(c.cursor(), 1);
    c.increase();
    assert_eq!(c.cursor(), 2);
    c.increase();
    assert_eq!(c.cursor(), 0);
}

#[test]
fn decrease_wraps_at_the_start() {
    let mut c = VecCursor::new(vec![1u32, 2, 3]);
    c.decrease();
    assert_eq!(c.cursor(), 2);
    c.decrease();
    assert_eq!(c.cursor(), 1);
}

#[test]
fn decrease_on_empty_stays_at_zero() {
    let mut c = VecCursor::new(Vec::<u32>::new());
    c.decrease();
    assert_eq!(c.cursor(), 0);
}

#[test]
fn substitute_keeps_cursor_inside_shorter_list() {
    let mut c = VecCursor::new(vec![1u32, 2, 3, 4]);
    c.increase();
    c.increase();
    c.increase();
    assert_eq!(c.cursor(), 3);
    c.substitute(vec![7u32, 8]);
    assert_eq!(c.cursor(), 1);
    assert_eq!(c.as_slice(), &[7, 8]);
}

#[test]
fn substitute_with_empty_list_parks_at_zero() {
    let mut c = VecCursor::new(vec![1u32, 2]);
    c.increase();
    c.substitute(Vec::new());
    assert_eq!(c.cursor(), 0);
    assert!(c.as_slice().is_empty());
}

#[test]
fn substitute_keeps_cursor_when_still_inside() {
    let mut c = VecCursor::new(vec![1u32, 2, 3]);
    c.increase();
    c.substitute(vec![4u32, 5, 6, 7]);
    assert_eq!(c.cursor(), 1);
    assert_eq!(*c.at_cursor(), 5);
}

#[test]
fn slice_mut_writes_through() {
    let mut c = VecCursor::new(vec![1u32, 2, 3]);
    c.as_slice_mut()[1] = 9;
    assert_eq!(c.as_slice(), &[1, 9, 3]);
    assert_eq!(*c.get(1), 9);
}
