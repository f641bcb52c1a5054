use currawong::calendar::civil_from_days;
use currawong::render::screenshot::{
    align_up, stamp, timestamp_filename, ChannelOrder, CopyPlan, ScreenshotError,
};
use std::time::{Duration, UNIX_EPOCH};

#[test]
fn align_up_rounds_to_alignment() {
    assert_eq!(align_up(3200, 256), 3328);
    assert_eq!(align_up(256, 256), 256);
    assert_eq!(align_up(0, 256), 0);
    assert_eq!(align_up(1, 256), 256);
}

#[test]
fn align_up_takes_every_multiple() {
    assert_eq!(align_up(u32::MAX, 3), u32::MAX);
    assert_eq!(align_up(7, 1), 7);
    assert_eq!(align_up(10, 7), 14);
}

#[test]
fn civil_from_days_known_dates() {
    assert_eq!(civil_from_days(0), (1970, 1, 1));
    assert_eq!(civil_from_days(10_957), (2000, 1, 1));
    assert_eq!(civil_from_days(19_782), (2024, 2, 29));
}

#[test]
fn civil_from_days_follows_the_calendar() {
    let leap = |y: i64| y % 4 == 0 && (y % 100 != 0 || y % 400 == 0);
    let (mut y, mut m, mut d) = (1600i64, 1u32, 1u32);
    // 1 January 1600 is day -135140.
    for day in -135_140i64..200_000 {
        assert_eq!(civil_from_days(day), (y as i32, m, d));
        let length = match m {
            2 => 28 + leap(y) as u32,
            4 | 6 | 9 | 11 => 30,
            _ => 31,
        };
        d += 1;
        if d > length {
            d = 1;
            m += 1;
        }
        if m > 12 {
            m = 1;
            y += 1;
        }
    }
}

#[test]
fn timestamp_filename_at_epoch() {
    let name = timestamp_filename(UNIX_EPOCH);
    assert_eq!(name, "19700101-000000-000");
}

#[test]
fn timestamp_filename_known_moment() {
    let when = UNIX_EPOCH + Duration::new(1_709_210_096, 789_000_000);
    assert_eq!(timestamp_filename(when), "20240229-123456-789");
}

#[test]
fn times_before_the_epoch_count_as_it() {
    let when = UNIX_EPOCH - Duration::new(5, 0);
    assert_eq!(timestamp_filename(when), "19700101-000000-000");
}

#[test]
fn stamps_are_padded() {
    assert_eq!(stamp(3_661, 7), "19700101-010101-007");
    // The last second of a year.
    assert_eq!(stamp(31_535_999, 999), "19701231-235959-999");
    // Five figures for the year.
    assert_eq!(stamp(253_402_300_800, 0), "100000101-000000-000");
}

#[test]
fn rows_lose_their_padding() {
    let plan = CopyPlan::new(2, 2, ChannelOrder::Rgba);
    assert_eq!(plan.padded_bytes_per_row, 256);
    assert_eq!(plan.buffer_size(), 512);
    let mut buffer = vec![0u8; 512];
    for k in 0..8 {
        buffer[k] = k as u8 + 1;
        buffer[256 + k] = k as u8 + 101;
    }
    assert_eq!(
        plan.pixels(&buffer),
        vec![1, 2, 3, 4, 5, 6, 7, 8, 101, 102, 103, 104, 105, 106, 107, 108]
    );
}

#[test]
fn blue_first_is_turned_round() {
    let plan = CopyPlan::new(1, 1, ChannelOrder::Bgra);
    let mut buffer = vec![0u8; 256];
    buffer[..4].copy_from_slice(&[10, 20, 30, 40]);
    assert_eq!(plan.pixels(&buffer), vec![30, 20, 10, 40]);
}

#[test]
fn screenshot_errors_have_words() {
    assert_eq!(
        ScreenshotError::Io("gone".to_owned()).message(),
        "io error: gone"
    );
    assert_eq!(
        ScreenshotError::Poll("late".to_owned()).message(),
        "device poll failed: late"
    );
    assert_eq!(
        ScreenshotError::MapDropped.message(),
        "map_async callback was dropped"
    );
    assert_eq!(
        ScreenshotError::MapAsync("x".to_owned()).message(),
        "map_async failed: x"
    );
    assert_eq!(
        ScreenshotError::PixelLengthMismatch.message(),
        "pixel buffer length did not match dimensions"
    );
    assert_eq!(
        ScreenshotError::Encode("y".to_owned()).message(),
        "png encode failed: y"
    );
}
