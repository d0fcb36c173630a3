use mrubyedge::error::Error;
use mrubyedge::time::{time_add, time_at, time_cmp, time_localtime, time_sub, RTimeData};
use mrubyedge::value::RObject;

/// The length of an array object, as `Array#size` answers it.
fn array_len(arr: &mut RObject) -> i64 {
    let (rt, _) = mrubyedge::prelude::Runtime::with_prelude();
    rt.funcall(arr, "size", &[]).expect("size runs").expect("size failed").to_i64().expect("integer")
}

// 2024-03-14 15:09:26 UTC
const PI_DAY_SEC: i64 = 1710428966;

#[test]
fn test_time_at_epoch_year() {
    let t = RTimeData::new(0, 0, 0);
    assert_eq!(t.to_datetime_parts().0 as i64, 1970);
}

#[test]
fn test_time_at_epoch_month() {
    let t = RTimeData::new(0, 0, 0);
    assert_eq!(t.to_datetime_parts().1 as i64, 1);
}

#[test]
fn test_time_at_epoch_day() {
    let t = RTimeData::new(0, 0, 0);
    assert_eq!(t.to_datetime_parts().2 as i64, 1);
}

#[test]
fn test_time_at_epoch_wday() {
    let t = RTimeData::new(0, 0, 0);
    assert_eq!(t.to_datetime_parts().3 as i64, 4);
}

#[test]
fn test_time_at_epoch_hour_min_sec() {
    let (_, _, _, _, h, m, s) = RTimeData::new(0, 0, 0).to_datetime_parts();
    let mut arr = RObject::array(vec![RObject::integer(h as i64), RObject::integer(m as i64), RObject::integer(s as i64)]);
    assert_eq!(array_len(&mut arr), 3);
    assert_eq!(h, 0);
    assert_eq!(m, 0);
    assert_eq!(s, 0);
}

#[test]
fn test_time_pi_day() {
    let (year, month, day, _, hour, min, sec) = RTimeData::new(PI_DAY_SEC, 0, 0).to_datetime_parts();
    let mut arr = RObject::array(
        [year as i64, month as i64, day as i64, hour as i64, min as i64, sec as i64].iter().map(|v| RObject::integer(*v)).collect(),
    );
    assert_eq!(array_len(&mut arr), 6);
    assert_eq!(year, 2024);
    assert_eq!(month, 3);
    assert_eq!(day, 14);
    assert_eq!(hour, 15);
    assert_eq!(min, 9);
    assert_eq!(sec, 26);
}

#[test]
fn test_pi_day_wday() {
    assert_eq!(RTimeData::new(PI_DAY_SEC, 0, 0).to_datetime_parts().3, 4);
}

#[test]
fn test_time_nsec() {
    let t = RTimeData::new(0, 123456789, 0);
    assert_eq!(t.nsec, 123456789);
}

#[test]
fn test_time_to_s() {
    assert_eq!(RTimeData::new(0, 0, 0).to_s(), "1970-01-01 00:00:00 +0000");
}

#[test]
fn test_time_to_s_with_offset() {
    let t = time_localtime(&RTimeData::new(0, 0, 0), 32400);
    assert_eq!(t.to_s(), "1970-01-01 09:00:00 +0900");
}

#[test]
fn test_time_add() {
    let t = time_add(&RTimeData::new(0, 0, 0), 3661, 0);
    assert_eq!(t.to_s(), "1970-01-01 01:01:01 +0000");
}

#[test]
fn test_time_sub_seconds() {
    let t = time_sub(&RTimeData::new(3600, 0, 0), 1800, 0);
    assert_eq!(t.to_s(), "1970-01-01 00:30:00 +0000");
}

#[test]
fn test_time_cmp() {
    assert_eq!(time_cmp(&RTimeData::new(100, 0, 0), &RTimeData::new(50, 0, 0)), 1);
}

#[test]
fn test_time_cmp_eq() {
    assert_eq!(time_cmp(&RTimeData::new(100, 0, 0), &RTimeData::new(100, 0, 0)), 0);
}

#[test]
fn test_time_cmp_lt() {
    assert_eq!(time_cmp(&RTimeData::new(50, 0, 0), &RTimeData::new(100, 0, 0)), -1);
}

#[test]
fn test_time_utc_offset() {
    let t = time_at(&[RObject::integer(0)]).unwrap();
    assert_eq!(t.utc_offset, 0);
}

#[test]
fn test_time_localtime_offset() {
    assert_eq!(time_localtime(&RTimeData::new(0, 0, 0), 32400).utc_offset, 32400);
}

#[test]
fn test_time_to_i() {
    let t = time_at(&[RObject::integer(12345)]).unwrap();
    assert_eq!(t.sec, 12345);
}

#[test]
fn time_before_epoch_decomposes() {
    // 1969-12-31 23:59:59 UTC, a Wednesday
    let (year, month, day, wday, hour, min, sec) = RTimeData::new(-1, 0, 0).to_datetime_parts();
    assert_eq!((year, month, day, wday, hour, min, sec), (1969, 12, 31, 3, 23, 59, 59));
    assert_eq!(RTimeData::new(-1, 0, 0).to_s(), "1969-12-31 23:59:59 +0000");
}

#[test]
fn time_negative_offset_string() {
    let t = RTimeData::new(0, 0, -18000);
    assert_eq!(t.to_s(), "1969-12-31 19:00:00 -0500");
}

#[test]
fn time_leap_day() {
    // 2000-02-29 12:00:00 UTC
    let (year, month, day, wday, _, _, _) = RTimeData::new(951825600, 0, 0).to_datetime_parts();
    assert_eq!((year, month, day, wday), (2000, 2, 29, 2));
}

#[test]
fn time_add_carries_nanoseconds() {
    let t = time_add(&RTimeData::new(10, 900_000_000, 0), 1, 200_000_000);
    assert_eq!((t.sec, t.nsec), (12, 100_000_000));
    let back = time_sub(&t, 1, 200_000_000);
    assert_eq!((back.sec, back.nsec), (10, 900_000_000));
}

#[test]
fn time_cmp_by_nanoseconds() {
    assert_eq!(time_cmp(&RTimeData::new(5, 1, 0), &RTimeData::new(5, 2, 0)), -1);
    assert_eq!(time_cmp(&RTimeData::new(5, 3, 0), &RTimeData::new(5, 2, 0)), 1);
}

#[test]
fn time_at_arguments() {
    let t = time_at(&[RObject::integer(1710428966)]).unwrap();
    assert_eq!((t.sec, t.nsec, t.utc_offset), (1710428966, 0, 0));
    let t = time_at(&[RObject::integer(5), RObject::integer(123), RObject::nil()]).unwrap();
    assert_eq!((t.sec, t.nsec), (5, 123));
    for (args, msg) in [
        (vec![RObject::nil()], "wrong number of arguments (given 0, expected 1+)"),
        (vec![RObject::string("x".into())], "expected Integer or Float"),
        (vec![RObject::integer(1), RObject::integer(-1)], "nsec must be non-negative"),
    ] {
        match time_at(&args) {
            Err(Error::ArgumentError(m)) => assert_eq!(m, msg),
            _ => panic!("expected an argument error"),
        }
    }
}
