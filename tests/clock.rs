use simpleton::clock::{current_date, date_of, Moment};

fn epoch() -> Moment {
    Moment {
        sec: 0,
        min: 0,
        hour: 0,
        mday: 1,
        mon: 0,
        year: 70,
        wday: 4,
        yday: 0,
        isdst: 0,
        utcoff: 0,
        nsec: 0,
    }
}

#[test]
fn date_of_renders_the_date_header_form() {
    assert_eq!(date_of(&epoch()), "Thu, 01 Jan 70 00:00:00 UTC");
    let m = Moment { sec: 5, min: 4, hour: 13, mday: 18, mon: 9, year: 126, wday: 0, yday: 290, utcoff: 3600, ..epoch() };
    assert_eq!(date_of(&m), "Sun, 18 Oct 26 13:04:05 ");
}

#[test]
fn date_of_is_empty_for_a_year_too_large() {
    let m = Moment { year: i32::MAX, ..epoch() };
    assert_eq!(date_of(&m), "");
}

#[test]
fn current_date_is_rendered() {
    let d = current_date();
    assert_eq!(&d[3..5], ", ");
    assert!(!d.contains('%'));
}
