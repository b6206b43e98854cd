use umoja::time::calendar_of_day;

#[test]
fn the_first_day_of_1970_was_a_thursday() {
    assert_eq!(calendar_of_day(0), (1, 1, 4));
}

#[test]
fn the_day_before_1970_closes_december() {
    assert_eq!(calendar_of_day(-1), (12, 31, 3));
}

#[test]
fn leap_day_2000_and_new_year_2024() {
    assert_eq!(calendar_of_day(11_016), (2, 29, 2));
    assert_eq!(calendar_of_day(11_017), (3, 1, 3));
    assert_eq!(calendar_of_day(19_723), (1, 1, 1));
}
