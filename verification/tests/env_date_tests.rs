use wukong::api;
use wukong::date::str_to_date;
use wukong::env::Environment;
use wukong::errors::DateError;
use wukong::id;
use wukong::paths;
use wukong::types::TimeFrame;

#[test]
fn date_tests() {
    assert_eq!(str_to_date("2024"), Ok(1_704_067_200_000));
    assert_eq!(str_to_date("202402"), Ok(1_706_745_600_000));
    assert_eq!(str_to_date("20240203"), Ok(1_706_918_400_000));
    assert_eq!(str_to_date("2024020304"), Ok(1_706_932_800_000));
    assert_eq!(str_to_date("202402030405"), Ok(1_706_933_100_000));
    assert_eq!(str_to_date("20240203040506"), Ok(1_706_933_106_000));
}

#[test]
fn date_rejects_bad_shapes() {
    assert_eq!(str_to_date("20"), Err(DateError::Format));
    assert_eq!(str_to_date("2024020"), Err(DateError::Format));
    assert_eq!(str_to_date(""), Err(DateError::Format));
    // an accepted length whose digits name no instant is a parse error
    assert_eq!(str_to_date("20240230"), Err(DateError::Parse));
    assert_eq!(str_to_date("abcd"), Err(DateError::Parse));
}

#[test]
fn environment_knobs() {
    assert_eq!(Environment::LogLevel.name(), "LOG_LEVEL");
    assert_eq!(Environment::LogColor.name(), "LOG_COLOR");
    assert_eq!(Environment::LogMs.name(), "LOG_MS");
    assert_eq!(Environment::ShowBanner.name(), "SHOW_BANNER");

    assert!(Environment::ShowBanner.as_bool(Some(String::from("true")), false));
    assert!(!Environment::ShowBanner.as_bool(Some(String::from("false")), true));
    assert!(!Environment::ShowBanner.as_bool(Some(String::from("TRUE")), true));
    assert!(Environment::ShowBanner.as_bool(None, true));

    assert_eq!(Environment::LogMs.as_i64(None, 7), Some(7));
    assert_eq!(Environment::LogMs.as_i64(Some(String::from("123")), 7), Some(123));
    assert_eq!(Environment::LogMs.as_i64(Some(String::from("-45")), 7), Some(-45));
    assert_eq!(Environment::LogMs.as_i64(Some(String::from("+45")), 7), Some(45));
    assert_eq!(Environment::LogMs.as_i64(Some(String::from("4x5")), 7), None);
    assert_eq!(Environment::LogMs.as_i64(Some(String::from("")), 7), None);
    assert_eq!(
        Environment::LogMs.as_i64(Some(String::from("9223372036854775807")), 7),
        Some(i64::MAX)
    );
    assert_eq!(
        Environment::LogMs.as_i64(Some(String::from("-9223372036854775808")), 7),
        Some(i64::MIN)
    );
    assert_eq!(
        Environment::LogMs.as_i64(Some(String::from("9223372036854775808")), 7),
        None
    );

    assert_eq!(Environment::LogMs.as_usize(None, 3), Some(3));
    assert_eq!(Environment::LogMs.as_usize(Some(String::from("42")), 3), Some(42));
    assert_eq!(Environment::LogMs.as_usize(Some(String::from("-42")), 3), None);
    assert_eq!(Environment::LogMs.as_usize(Some(String::from("+42")), 3), Some(42));
}

#[test]
fn random_ids_have_shape_and_vary() {
    let a = id::gen();
    let b = api::rand_id();
    assert_eq!(a.len(), 32);
    assert_eq!(b.len(), 32);
    assert!(a.chars().all(|c| c.is_ascii_hexdigit()));
    assert_ne!(a, b);
}

#[test]
fn clock_is_past_twenty_twenty() {
    assert!(api::now_ms() > 1_577_836_800_000);
}

#[test]
fn cache_path_is_under_home() {
    match paths::cache() {
        Ok(p) => assert!(p.ends_with("/.WuKong")),
        Err(e) => panic!("no cache directory: {e}"),
    }
}

#[test]
fn timeframe_durations() {
    assert_eq!(TimeFrame::Minute.as_duration(), 60_000);
    assert_eq!(TimeFrame::Minute3.as_duration(), 180_000);
    assert_eq!(TimeFrame::Hour.as_duration(), 3_600_000);
    assert_eq!(TimeFrame::Day.as_duration(), 86_400_000);
    assert_eq!(TimeFrame::Week.as_duration(), 604_800_000);
    assert_eq!(TimeFrame::Month.as_duration(), 2_419_200_000);
}
