use regex::Regex;
use slow_pages::text_extractor::{
    duration_from_match, extract_duration_from_row, extract_page_from_row,
    extract_string_from_row, string_from_match, value_in_match, ExtractError,
};

fn millis(micros: u64) -> f32 {
    micros as f32 / 1000.0
}

#[test]
fn extract_string_from_row_should_return_controller_name_when_a_row_has_controller_name() {
    let row = "[xxxxxxxx-xxxx-xxxx-xxxx-xxxxxxxxxxxx] method=GET path=/foo format=html controller=FooController action=index status=200";
    let regex = regex::Regex::new(r"controller=(\S+)").unwrap();

    let value = extract_string_from_row(row, regex);
    assert_eq!(Ok(String::from("FooController")), value);
}

#[test]
fn extract_string_from_row_should_return_err_when_a_row_does_not_have_controller_name() {
    let row = "path=/foo aaaaa bbbbb ccccc";
    let regex = regex::Regex::new(r"controller=(\S+)").unwrap();

    let value = extract_string_from_row(row, regex);
    assert_eq!(Err("failed"), value.clone().map_err(|_| "failed"));
    assert_eq!(Err(ExtractError::NotFound), value);
}

#[test]
fn extract_duration_from_row_should_return_duration_when_a_row_has_duration() {
    let row = "method=GET path=/foo format=html controller=FooController action=index status=200 duration=1915.45 view=1841.20 db=7.93";
    let value = extract_duration_from_row(row, Regex::new(r"duration=(\S+)").unwrap());
    assert_eq!(Ok(1915.45), value.map(millis));
    assert_eq!(Ok(1_915_450), value);
}

#[test]
fn extract_duration_from_row_should_return_err_when_a_row_does_not_have_controller_name() {
    let row = "path=/foo aaaaa bbbbb ccccc";
    let value = extract_duration_from_row(row, Regex::new(r"duration=(\S+)").unwrap());
    assert_eq!(Err("failed"), value.map_err(|_| "failed"));
    assert_eq!(Err(ExtractError::NotFound), value);
}

#[test]
fn extract_duration_from_row_should_return_view_when_view_regex_is_given() {
    let row = "method=GET path=/foo format=html controller=FooController action=index status=200 duration=1915.45 view=1841.20 db=7.93";
    let value = extract_duration_from_row(row, Regex::new(r"view=(\S+)").unwrap());
    assert_eq!(Ok(1841.20), value.map(millis));
    assert_eq!(Ok(1_841_200), value);
}

#[test]
fn extract_page_from_row_should_return_method_and_path() {
    let row = "[xxxxxxxx-xxxx-xxxx-xxxx-xxxxxxxxxxxx] method=GET path=/foo format=html controller=FooController action=index status=200";
    let value = extract_page_from_row(row);
    assert_eq!(Ok(String::from("GET /foo")), value);
}

#[test]
fn extract_page_from_row_should_return_empty_string_when_a_row_does_not_have_enough_information() {
    let row = "aaaaa bbbbb ccccc";
    let value = extract_page_from_row(row);
    assert_eq!(Err("failed"), value.clone().map_err(|_| "failed"));
    assert_eq!(Err(ExtractError::NotFound), value);
}

#[test]
fn extract_page_from_row_needs_both_method_and_path() {
    assert_eq!(Err(ExtractError::NotFound), extract_page_from_row("method=GET"));
    assert_eq!(Err(ExtractError::NotFound), extract_page_from_row("path=/foo"));
    assert_eq!(
        Ok(String::from("POST /a/b")),
        extract_page_from_row("path=/a/b method=POST")
    );
}

#[test]
fn extract_string_from_row_takes_the_first_match() {
    let row = "controller=First controller=Second";
    let value = extract_string_from_row(row, Regex::new(r"controller=(\S+)").unwrap());
    assert_eq!(Ok(String::from("First")), value);
}

#[test]
fn extract_string_from_row_keeps_a_value_with_an_equals_sign_whole() {
    let row = "method=GET path=/search?q=rust&page=2 status=200";
    let value = extract_string_from_row(row, Regex::new(r"path=(\S+)").unwrap());
    assert_eq!(Ok(String::from("/search?q=rust&page=2")), value);
}

#[test]
fn extract_string_from_row_without_equals_sign_in_the_match_is_not_found() {
    let value = extract_string_from_row("GET /foo", Regex::new(r"GET").unwrap());
    assert_eq!(Err(ExtractError::NotFound), value);
}

#[test]
fn extract_string_from_row_with_an_empty_value() {
    let value = extract_string_from_row("key= next", Regex::new(r"key=(\S*)").unwrap());
    assert_eq!(Ok(String::new()), value);
}

#[test]
fn extract_string_from_row_reads_names_beyond_ascii() {
    let row = "controller=Grüße action=index";
    let value = extract_string_from_row(row, Regex::new(r"controller=(\S+)").unwrap());
    assert_eq!(Ok(String::from("Grüße")), value);
}

#[test]
fn extract_duration_from_row_rejects_a_value_that_is_no_number() {
    let regex = Regex::new(r"duration=(\S+)").unwrap();
    let value = extract_duration_from_row("duration=fast view=1.0", regex);
    assert_eq!(Err(ExtractError::InvalidValue), value);
}

#[test]
fn value_in_match_is_what_follows_the_first_equals_sign() {
    assert_eq!(Some(String::from("FooController")), value_in_match("controller=FooController"));
    assert_eq!(Some(String::from("a=b")), value_in_match("k=a=b"));
    assert_eq!(Some(String::new()), value_in_match("k="));
    assert_eq!(None, value_in_match("controller"));
    assert_eq!(None, value_in_match(""));
}

#[test]
fn string_from_match_maps_a_missing_match_to_not_found() {
    assert_eq!(Err(ExtractError::NotFound), string_from_match(None));
    assert_eq!(Err(ExtractError::NotFound), string_from_match(Some(String::from("nothing"))));
    assert_eq!(Ok(String::from("v")), string_from_match(Some(String::from("k=v"))));
}

#[test]
fn duration_from_match_reads_milliseconds_as_microseconds() {
    assert_eq!(Ok(84_550), duration_from_match(Some(String::from("duration=84.55"))));
    assert_eq!(Err(ExtractError::NotFound), duration_from_match(None));
    assert_eq!(
        Err(ExtractError::InvalidValue),
        duration_from_match(Some(String::from("duration=-1.5")))
    );
    assert_eq!(
        Err(ExtractError::InvalidValue),
        duration_from_match(Some(String::from("duration=")))
    );
}

#[test]
fn extract_duration_from_row_reads_a_sign_and_an_exponent() {
    let regex = || Regex::new(r"duration=(\S+)").unwrap();
    assert_eq!(Ok(1e3), extract_duration_from_row("duration=1e3", regex()).map(millis));
    assert_eq!(Ok(5.0), extract_duration_from_row("duration=+5", regex()).map(millis));
    assert_eq!(Ok(1E2), extract_duration_from_row("duration=1E2", regex()).map(millis));
    assert_eq!(Ok(1_000_000), extract_duration_from_row("duration=1e3", regex()));
    assert_eq!(
        Err(ExtractError::InvalidValue),
        extract_duration_from_row("duration=-1e3", regex())
    );
    assert_eq!(
        Err(ExtractError::InvalidValue),
        extract_duration_from_row("duration=inf", regex())
    );
    assert_eq!(
        Err(ExtractError::InvalidValue),
        extract_duration_from_row("duration=NaN", regex())
    );
}
