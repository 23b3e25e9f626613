use slow_pages::aggregate::Aggregator;
use slow_pages::order::{comes_before, sorted_pages};
use slow_pages::perf_info::PerfInfo;
use slow_pages::rank::{rank, rank_all, RankedPage};
use slow_pages::report::{assemble, build_page_information, summarize};
use slow_pages::row::RowPatterns;
use slow_pages::valid_line_extractor::{extract_usable_lines, usable_lines};

fn millis(micros: u64) -> f64 {
    micros as f64 / 1000.0
}

fn info(page: &str, duration: u64) -> PerfInfo {
    PerfInfo {
        page: String::from(page),
        controller: String::from("FooController"),
        action: String::from("index"),
        duration,
        view: duration / 2,
        db: duration / 4,
        count: 1,
    }
}

fn line(path: &str, duration: &str) -> String {
    format!(
        "method=GET path={} controller=FooController action=index duration={} view=1.0 db=1.0",
        path, duration
    )
}

fn strings(names: &[&str]) -> Vec<String> {
    names.iter().map(|name| String::from(*name)).collect()
}

fn pages_of(ranked: &[RankedPage]) -> Vec<&str> {
    ranked.iter().map(|entry| entry.page.as_str()).collect()
}

fn ingest_all(durations: &[u64]) -> Aggregator {
    let mut aggregates = Aggregator::new();
    for duration in durations {
        aggregates = aggregates.ingest(info("GET /foo", *duration));
    }
    aggregates
}

#[test]
fn two_requests_of_one_page_give_the_same_mean_in_either_order() {
    let forward = ingest_all(&[1_000_000, 2_000_000]);
    let backward = ingest_all(&[2_000_000, 1_000_000]);
    assert_eq!(forward.get("GET /foo").unwrap().duration, 1_500_000);
    assert_eq!(backward.get("GET /foo").unwrap().duration, 1_500_000);
    assert_eq!(millis(forward.get("GET /foo").unwrap().duration), 1500.0);
}

#[test]
fn three_requests_of_one_page_give_the_running_mean_and_not_the_mean() {
    let aggregates = ingest_all(&[1_000_000, 2_000_000, 3_000_000]);
    let figures = aggregates.get("GET /foo").unwrap();
    assert_eq!(figures.duration, 2_250_000);
    assert_eq!(millis(figures.duration), 2250.0);
    assert_eq!(figures.count, 3);
    let reversed = ingest_all(&[3_000_000, 2_000_000, 1_000_000]);
    assert_eq!(reversed.get("GET /foo").unwrap().duration, 1_750_000);
}

#[test]
fn the_first_record_of_a_page_is_kept_as_it_is() {
    let first = PerfInfo {
        page: String::from("GET /a"),
        controller: String::from("A"),
        action: String::from("show"),
        duration: 7,
        view: 5,
        db: 3,
        count: 1,
    };
    let aggregates = Aggregator::new().ingest(first);
    let figures = aggregates.get("GET /a").unwrap();
    assert_eq!(figures.page, "GET /a");
    assert_eq!(figures.controller, "A");
    assert_eq!(figures.action, "show");
    assert_eq!((figures.duration, figures.view, figures.db, figures.count), (7, 5, 3, 1));
    assert_eq!(aggregates.len(), 1);
    assert_eq!(aggregates.observations(), 1);
    assert!(aggregates.get("GET /b").is_none());
}

#[test]
fn an_empty_aggregator_holds_nothing() {
    let aggregates = Aggregator::new();
    assert_eq!(aggregates.len(), 0);
    assert_eq!(aggregates.observations(), 0);
    assert!(aggregates.pages().is_empty());
    assert!(aggregates.get("GET /foo").is_none());
    assert!(aggregates.sorted_records().is_empty());
    assert!(rank_all(&aggregates).is_empty());
}

#[test]
fn pages_are_listed_once_in_the_order_in_which_they_were_first_seen() {
    let mut aggregates = Aggregator::new();
    for page in ["GET /c", "GET /a", "GET /c", "GET /b", "GET /a"] {
        aggregates = aggregates.ingest(info(page, 10));
    }
    assert_eq!(aggregates.pages(), &strings(&["GET /c", "GET /a", "GET /b"]));
    assert_eq!(aggregates.len(), 3);
    assert_eq!(aggregates.observations(), 5);
    assert_eq!(aggregates.get("GET /c").unwrap().count, 2);
    assert_eq!(aggregates.get("GET /b").unwrap().count, 1);
    let records = aggregates.sorted_records();
    let names: Vec<&str> = records.iter().map(|r| r.page.as_str()).collect();
    assert_eq!(names, ["GET /a", "GET /b", "GET /c"]);
    assert_eq!(records[2].count, 2);
}

#[test]
fn pages_come_out_in_alphabetical_order_whatever_the_order_they_came_in() {
    let expected = strings(&["DELETE /z", "GET /a", "GET /a/b", "GET /b", "POST /a"]);
    let orders = [
        ["GET /b", "POST /a", "GET /a", "DELETE /z", "GET /a/b"],
        ["GET /a/b", "DELETE /z", "GET /a", "POST /a", "GET /b"],
        ["POST /a", "GET /b", "GET /a/b", "GET /a", "DELETE /z"],
    ];
    for order in orders {
        assert_eq!(sorted_pages(&strings(&order)), expected);
    }
    let repeated = strings(&["GET /b", "GET /a", "GET /b", "GET /b", "GET /a"]);
    assert_eq!(sorted_pages(&repeated), strings(&["GET /a", "GET /b"]));
    assert_eq!(sorted_pages(&Vec::new()), Vec::<String>::new());
}

#[test]
fn sorted_pages_agree_with_the_order_of_strings() {
    let names = strings(&["b", "", "ab", "a", "B", "é", "z", "aa", "a b", "~", "日本"]);
    let mut expected = names.clone();
    expected.sort();
    expected.dedup();
    assert_eq!(sorted_pages(&names), expected);
    for a in &names {
        for b in &names {
            assert_eq!(comes_before(a, b), a < b);
        }
    }
}

#[test]
fn the_ranking_has_the_slowest_page_first_and_ties_in_alphabetical_order() {
    let mut aggregates = Aggregator::new();
    for (page, duration) in [
        ("GET /m", 500),
        ("GET /z", 900),
        ("GET /a", 500),
        ("GET /q", 100),
        ("GET /b", 900),
        ("GET /k", 500),
    ] {
        aggregates = aggregates.ingest(info(page, duration));
    }
    let ranked = rank_all(&aggregates);
    assert_eq!(pages_of(&ranked), ["GET /b", "GET /z", "GET /a", "GET /k", "GET /m", "GET /q"]);
    let durations: Vec<u64> = ranked.iter().map(|entry| entry.average_duration).collect();
    assert_eq!(durations, [900, 900, 500, 500, 500, 100]);
    assert!(ranked.iter().all(|entry| entry.count == 1));
}

#[test]
fn rank_passes_over_pages_without_figures_and_counts_a_page_once() {
    let aggregates = Aggregator::new()
        .ingest(info("GET /a", 10))
        .ingest(info("GET /b", 30))
        .ingest(info("GET /c", 20));
    let asked = strings(&["GET /c", "GET /nowhere", "GET /b", "GET /c"]);
    let ranked = rank(&aggregates, &asked);
    assert_eq!(pages_of(&ranked), ["GET /b", "GET /c"]);
    assert_eq!(ranked[0].average_duration, 30);
    assert!(rank(&aggregates, &Vec::new()).is_empty());
}

#[test]
fn a_ranked_page_holds_the_figures_of_its_page() {
    let aggregates = Aggregator::new()
        .ingest(info("GET /a", 1_000))
        .ingest(info("GET /a", 3_000));
    let ranked = rank_all(&aggregates);
    assert_eq!(ranked.len(), 1);
    assert_eq!(ranked[0].page, "GET /a");
    assert_eq!(ranked[0].average_duration, 2_000);
    assert_eq!(ranked[0].count, 2);
    let copy = ranked[0].clone();
    assert_eq!((copy.page.as_str(), copy.average_duration, copy.count), ("GET /a", 2_000, 2));
}

#[test]
fn two_lines_of_one_page_give_one_aggregate_and_one_ranked_page() {
    let lines = vec![
        String::from("method=GET path=/foo controller=FooController action=index duration=1915.45 view=1841.20 db=7.93"),
        String::from("method=GET path=/foo controller=FooController action=index duration=84.55 view=80.0 db=2.0"),
    ];
    let report = build_page_information(&lines).unwrap();
    assert_eq!(report.aggregates.len(), 1);
    let figures = report.aggregates.get("GET /foo").unwrap();
    assert_eq!(millis(figures.duration), 1000.0);
    assert_eq!(figures.duration, 1_000_000);
    assert_eq!(figures.view, 960_600);
    assert_eq!(figures.db, 4_965);
    assert_eq!(figures.count, 2);
    assert_eq!(report.ranked.len(), 1);
    assert_eq!(report.ranked[0].page, "GET /foo");
    assert_eq!(report.ranked[0].average_duration, 1_000_000);
    assert_eq!(report.ranked[0].count, 2);
}

#[test]
fn a_line_without_action_is_left_out_of_the_figures_and_of_the_ranking() {
    let lines = vec![
        line("/foo", "10.0"),
        String::from("method=GET path=/bar controller=BarController duration=99.0 view=1.0 db=1.0"),
        String::from("Started GET \"/bar\" for 127.0.0.1"),
        String::new(),
        line("/baz", "20.0"),
    ];
    let report = build_page_information(&lines).unwrap();
    assert_eq!(report.aggregates.len(), 2);
    assert_eq!(report.aggregates.observations(), 2);
    assert!(report.aggregates.get("GET /bar").is_none());
    assert_eq!(pages_of(&report.ranked), ["GET /baz", "GET /foo"]);
}

#[test]
fn the_report_on_no_lines_is_empty() {
    let report = build_page_information(&Vec::new()).unwrap();
    assert_eq!(report.aggregates.len(), 0);
    assert!(report.ranked.is_empty());
    let noise = strings(&["nothing here", "path=/only"]);
    let report = build_page_information(&noise).unwrap();
    assert_eq!(report.aggregates.len(), 0);
    assert!(report.ranked.is_empty());
}

#[test]
fn the_report_ranks_many_pages() {
    let lines = vec![
        line("/b", "30.0"),
        line("/a", "10.0"),
        line("/c", "30.0"),
        line("/a", "50.0"),
        line("/d", "5.5"),
        line("/a", "70.0"),
    ];
    let report = build_page_information(&lines).unwrap();
    assert_eq!(report.aggregates.pages(), &strings(&["GET /b", "GET /a", "GET /c", "GET /d"]));
    assert_eq!(pages_of(&report.ranked), ["GET /a", "GET /b", "GET /c", "GET /d"]);
    assert_eq!(report.ranked[0].average_duration, 50_000);
    assert_eq!(report.ranked[0].count, 3);
    assert_eq!(report.ranked[3].average_duration, 5_500);
    let patterns = RowPatterns::new().unwrap();
    let again = summarize(&patterns, &lines);
    assert_eq!(pages_of(&again.ranked), pages_of(&report.ranked));
}

#[test]
fn ingest_line_takes_a_request_and_passes_over_the_rest() {
    let patterns = RowPatterns::new().unwrap();
    let aggregates = Aggregator::new()
        .ingest_line(&patterns, &line("/foo", "4.0"))
        .ingest_line(&patterns, "no request")
        .ingest_line(&patterns, &line("/foo", "8.0"));
    assert_eq!(aggregates.len(), 1);
    assert_eq!(aggregates.observations(), 2);
    assert_eq!(aggregates.get("GET /foo").unwrap().duration, 6_000);
}

#[test]
fn assemble_puts_figures_and_ranking_together() {
    let aggregates = Aggregator::new().ingest(info("GET /a", 10)).ingest(info("GET /b", 20));
    let ranked = rank_all(&aggregates);
    let report = assemble(aggregates, ranked);
    assert_eq!(report.aggregates.len(), 2);
    assert_eq!(pages_of(&report.ranked), ["GET /b", "GET /a"]);
}

#[test]
fn usable_lines_are_those_that_name_a_path() {
    let patterns = RowPatterns::new().unwrap();
    let lines = strings(&[
        "method=GET path=/foo status=200",
        "Completed 200 OK",
        "xpath=/not/a/path",
        "path=",
        "",
        "controller=X path=/bar",
    ]);
    let expected = strings(&["method=GET path=/foo status=200", "controller=X path=/bar"]);
    assert_eq!(usable_lines(&patterns, &lines), expected);
    assert_eq!(extract_usable_lines(&lines), Ok(expected));
    assert!(usable_lines(&patterns, &Vec::new()).is_empty());
    assert_eq!(extract_usable_lines(&Vec::new()), Ok(Vec::new()));
}

#[test]
fn the_pages_of_a_report_do_not_depend_on_the_order_of_the_lines() {
    let forward = vec![line("/c", "3.0"), line("/a", "1.0"), line("/b", "2.0"), line("/a", "1.0")];
    let backward: Vec<String> = forward.iter().rev().cloned().collect();
    let first = build_page_information(&forward).unwrap();
    let second = build_page_information(&backward).unwrap();
    let names = |records: Vec<PerfInfo>| -> Vec<String> {
        records.into_iter().map(|record| record.page).collect()
    };
    let expected = strings(&["GET /a", "GET /b", "GET /c"]);
    assert_eq!(names(first.aggregates.sorted_records()), expected);
    assert_eq!(names(second.aggregates.sorted_records()), expected);
    assert_eq!(sorted_pages(first.aggregates.pages()), expected);
    assert_eq!(sorted_pages(second.aggregates.pages()), expected);
    assert_eq!(pages_of(&first.ranked), ["GET /c", "GET /b", "GET /a"]);
    assert_eq!(pages_of(&second.ranked), ["GET /c", "GET /b", "GET /a"]);
}
