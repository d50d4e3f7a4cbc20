use cognito_user_reader::cognito::UserReader;
use cognito_user_reader::dates::{format_timestamp, parse_date, DateError};

#[test]
fn parse_date_gives_end_of_day() {
    assert_eq!(parse_date("2020-02-23"), Ok(1_582_502_399)); // 2020-02-23 23:59:59 UTC
    assert_eq!(parse_date("1970-01-01"), Ok(86_399));
    assert_eq!(parse_date("2020-02-10"), Ok(1_581_379_199));
}

#[test]
fn parse_date_accepts_short_groups() {
    assert_eq!(parse_date("2020-2-3"), parse_date("2020-02-03"));
}

#[test]
fn parse_date_rejects_wrong_shapes() {
    assert_eq!(parse_date(""), Err(DateError::Format));
    assert_eq!(parse_date("2020-02"), Err(DateError::Format));
    assert_eq!(parse_date("2020-02-"), Err(DateError::Format));
    assert_eq!(parse_date("2020-02-23-01"), Err(DateError::Format));
    assert_eq!(parse_date("20a0-02-23"), Err(DateError::Format));
    assert_eq!(parse_date("not a date"), Err(DateError::Format));
    assert_eq!(parse_date("99999999999-01-01"), Err(DateError::Format));
}

#[test]
fn parse_date_rejects_impossible_days() {
    assert_eq!(parse_date("2020-13-01"), Err(DateError::InvalidDate));
    assert_eq!(parse_date("2020-02-30"), Err(DateError::InvalidDate));
    assert_eq!(parse_date("2019-02-29"), Err(DateError::InvalidDate));
    assert_eq!(parse_date("2020-02-29"), Ok(1_583_020_799)); // leap day exists
    assert_eq!(parse_date("2020-00-10"), Err(DateError::InvalidDate));
    assert_eq!(parse_date("2021-04-31"), Err(DateError::InvalidDate));
    assert_eq!(parse_date("2021-01-00"), Err(DateError::InvalidDate));
}

#[test]
fn timestamps_render_as_utc_text() {
    assert_eq!(format_timestamp(1_431_648_000), "2015-05-15 00:00:00 UTC");
    assert_eq!(format_timestamp(0), "1970-01-01 00:00:00 UTC");
    assert_eq!(format_timestamp(1_582_502_399), "2020-02-23 23:59:59 UTC");
}

#[test]
fn region_is_the_prefix_before_the_underscore() {
    assert_eq!(UserReader::extract_region("eu-west-1_AbCdEf"), "eu-west-1");
    assert_eq!(UserReader::extract_region("us-east-2_X"), "us-east-2");
    assert_eq!(UserReader::extract_region("nounderscore"), "nounderscore");
    assert_eq!(UserReader::extract_region(""), "");
}

#[test]
fn reader_carries_pool_id_and_region() {
    let reader = UserReader::new("eu-west-1_AbCdEf".to_string());
    assert_eq!(reader.aws_pool_id, "eu-west-1_AbCdEf");
    assert_eq!(reader.aws_region, "eu-west-1");
}
