use todo_core::cursor::{advance, clamp, first_of, retreat};

#[test]
fn advance_on_empty_list_selects_nothing() {
    assert_eq!(advance(None, 0), None);
    assert_eq!(retreat(None, 0), None);
}

#[test]
fn advance_from_nothing_selects_first() {
    assert_eq!(advance(None, 3), Some(0));
    assert_eq!(retreat(None, 3), Some(0));
}

#[test]
fn advance_wraps_from_last_to_first() {
    assert_eq!(advance(Some(1), 3), Some(2));
    assert_eq!(advance(Some(2), 3), Some(0));
}

#[test]
fn retreat_wraps_from_first_to_last() {
    assert_eq!(retreat(Some(2), 3), Some(1));
    assert_eq!(retreat(Some(0), 3), Some(2));
}

#[test]
fn advance_length_times_returns_to_start() {
    for len in 1..6usize {
        for start in 0..len {
            let mut c = Some(start);
            for _ in 0..len {
                c = advance(c, len);
            }
            assert_eq!(c, Some(start));
            assert_eq!(retreat(advance(Some(start), len), len), Some(start));
            assert_eq!(advance(retreat(Some(start), len), len), Some(start));
        }
    }
}

#[test]
fn clamp_keeps_index_in_bounds() {
    assert_eq!(clamp(Some(2), 5), Some(2));
    assert_eq!(clamp(Some(4), 5), Some(4));
}

#[test]
fn clamp_to_last_when_list_shrinks() {
    assert_eq!(clamp(Some(4), 2), Some(1));
    assert_eq!(clamp(Some(7), 3), Some(2));
}

#[test]
fn clamp_on_empty_list_selects_nothing() {
    assert_eq!(clamp(Some(3), 0), None);
    assert_eq!(clamp(None, 0), None);
}

#[test]
fn clamp_law_on_every_shrink() {
    for old_len in 1..6usize {
        for i in 0..old_len {
            for new_len in 0..old_len {
                let expected = if new_len == 0 { None } else { Some(i.min(new_len - 1)) };
                assert_eq!(clamp(Some(i), new_len), expected);
            }
        }
    }
}

#[test]
fn reset_selects_first_or_nothing() {
    assert_eq!(first_of(0), None);
    assert_eq!(first_of(4), Some(0));
}
