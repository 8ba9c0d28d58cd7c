use rnr::duration_from;

#[test]
fn nothing_is_zero_seconds() {
    assert_eq!(duration_from(0), "0s");
}

#[test]
fn each_unit_stands_alone() {
    assert_eq!(duration_from(1), "1s");
    assert_eq!(duration_from(59), "59s");
    assert_eq!(duration_from(60), "1m");
    assert_eq!(duration_from(3600), "1h");
    assert_eq!(duration_from(86400), "1d");
    assert_eq!(duration_from(604800), "1w");
    assert_eq!(duration_from(31449600), "1y");
    assert_eq!(duration_from(31449599), "51w 6d");
}

#[test]
fn a_rest_is_shown_in_the_next_unit() {
    assert_eq!(duration_from(61), "1m 1s");
    assert_eq!(duration_from(3661), "1h 1m");
    assert_eq!(duration_from(90000), "1d 1h");
    assert_eq!(duration_from(7199), "1h 59m");
}

#[test]
fn a_small_rest_comes_out_as_zero() {
    assert_eq!(duration_from(3601), "1h 0m");
    assert_eq!(duration_from(31449601), "1y 0w");
}

#[test]
fn the_longest_time_of_all() {
    assert_eq!(duration_from(u64::MAX), "586549402018y 7w");
}

#[test]
fn the_counts_never_say_more_than_there_is() {
    for secs in [5_u64, 119, 4000, 100_000, 1_000_000, 40_000_000] {
        let text = duration_from(secs);
        let mut total: u64 = 0;
        for word in text.split(' ') {
            let (count, unit) = word.split_at(word.len() - 1);
            let unit: u64 = match unit {
                "y" => 31449600,
                "w" => 604800,
                "d" => 86400,
                "h" => 3600,
                "m" => 60,
                _ => 1,
            };
            total += count.parse::<u64>().unwrap() * unit;
        }
        assert!(total <= secs);
        assert!(secs - total < 604800);
    }
}
