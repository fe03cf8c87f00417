use webrust::enumerate::enumerate;
use webrust::range::{Builder, CharBuilder, CharRange, CharRangeExt, One, Range, RangeExt};

#[test]
fn range_counts_up_exclusively() {
    let mut r = Range::new(0, 3, 1);
    assert_eq!(r.next(), Some(0));
    assert_eq!(r.next(), Some(1));
    assert_eq!(r.next(), Some(2));
    assert_eq!(r.next(), None);
    assert_eq!(r.next(), None);
}

#[test]
fn range_steps_and_counts_down() {
    let mut up = Range::new(1, 10, 3);
    assert_eq!(up.collect(), vec![1, 4, 7]);
    let mut down = Range::new(5, 0, -2);
    assert_eq!(down.collect(), vec![5, 3, 1]);
}

#[test]
fn range_zero_step_yields_nothing() {
    let mut r = Range::new(0, 10, 0);
    assert_eq!(r.next(), None);
}

#[test]
fn range_empty_when_start_is_past_end() {
    let mut r = Range::new(5, 5, 1);
    assert_eq!(r.next(), None);
    let mut r2 = Range::new(7, 5, 1);
    assert_eq!(r2.next(), None);
}

#[test]
fn range_builder_picks_step_and_direction() {
    let mut r = Builder::new(0, 6).step_by(2);
    assert_eq!(r.collect(), vec![0, 2, 4]);
    let mut up = Builder::new(1, 4).into_range();
    assert_eq!(up.collect(), vec![1, 2, 3]);
    let mut down = Builder::new(3, 0).into_range();
    assert_eq!(down.collect(), vec![3, 2, 1]);
}

#[test]
fn range_to_notation_builds_the_range() {
    let mut r = 2i64.to(5).into_range();
    assert_eq!(r.collect(), vec![2, 3, 4]);
    let mut s = 0i64.to(10).step_by(5);
    assert_eq!(s.collect(), vec![0, 5]);
}

#[test]
fn char_range_walks_code_points() {
    let mut r = CharRange::new('a', 'e', 1);
    let mut got = Vec::new();
    while let Some(c) = r.next() {
        got.push(c);
    }
    assert_eq!(got, vec!['a', 'b', 'c', 'd']);
}

#[test]
fn char_range_steps_and_counts_down() {
    let mut r = CharBuilder::new('a', 'g').step_by(2);
    let mut got = Vec::new();
    while let Some(c) = r.next() {
        got.push(c);
    }
    assert_eq!(got, vec!['a', 'c', 'e']);
    let mut d = 'e'.to('a').into_range();
    let mut down = Vec::new();
    while let Some(c) = d.next() {
        down.push(c);
    }
    assert_eq!(down, vec!['e', 'd', 'c', 'b']);
}

#[test]
fn char_range_stops_at_invalid_code_points() {
    // one step from \u{D7FF} lands in the surrogate range
    let mut r = CharRange::new('\u{D7FF}', '\u{E000}', 1);
    assert_eq!(r.next(), None);
}

#[test]
fn one_is_one() {
    assert_eq!(<i32 as One>::one(), 1);
    assert_eq!(<u64 as One>::one(), 1u64);
    assert_eq!(<usize as One>::one(), 1usize);
}

#[test]
fn enumerate_pairs_items_with_positions() {
    let v = vec!["a".to_string(), "b".to_string(), "c".to_string()];
    let e = enumerate(v);
    assert_eq!(
        e,
        vec![
            (0usize, "a".to_string()),
            (1usize, "b".to_string()),
            (2usize, "c".to_string())
        ]
    );
    let empty: Vec<i32> = Vec::new();
    assert_eq!(enumerate(empty), Vec::<(usize, i32)>::new());
}
