use sst_file::level::{Level, SST_LEVEL_NUM};

#[test]
fn next_goes_up_to_the_highest_level() {
    assert_eq!(Level::from(0).next(), Level::from(1));
    assert_eq!(Level::from(1).next(), Level::from(1));
    assert_eq!(Level::from(7).next(), Level::from(Level::MAX));
    assert_eq!(Level::from(0).next().next(), Level::from(0).next());
}

#[test]
fn level_number_is_kept() {
    let level = Level::from(300);
    assert_eq!(level.as_u16(), 300u16);
    assert_eq!(level.as_u32(), 300u32);
    assert_eq!(level.as_usize(), 300usize);
    assert_ne!(level, Level::from(301));
}

#[test]
fn lowest_level_is_the_default() {
    assert_eq!(Level::default(), Level::from(Level::MIN));
    assert!(Level::default().is_min());
    assert!(!Level::from(1).is_min());
    assert_eq!(SST_LEVEL_NUM, 2);
    assert_eq!(Level::MAX as usize + 1, SST_LEVEL_NUM);
}

#[test]
fn level_is_shown_in_decimal() {
    for n in 0u16..=2000 {
        assert_eq!(Level::from(n).to_string(), format!("{}", n));
    }
    assert_eq!(Level::from(0).to_string(), "0");
    assert_eq!(Level::from(1).to_string(), "1");
    assert_eq!(Level::from(10).to_string(), "10");
    assert_eq!(Level::from(u16::MAX).to_string(), "65535");
}
