//! The query engine on concrete values: merge shapes, the remaining error
//! variants, text and date queries, predicate evaluation, and feed
//! filtering.

use dumptruckrss::config::DumpConfig;
use dumptruckrss::date::Date;
use dumptruckrss::feed::{Feed, FeedItem};
use dumptruckrss::merge::merge_ranges;
use dumptruckrss::options::{Query, QueryError, QueryOperationOptions};
use dumptruckrss::parser::ParserError;
use dumptruckrss::rangeset::{Range, RangeOrSet, RangeSet};

fn item(title: &str, description: &str, pub_date: &str) -> FeedItem {
    FeedItem {
        title: title.to_owned(),
        description: description.to_owned(),
        pub_date: pub_date.to_owned(),
        url: "http://example.com/ep.mp3".to_owned(),
        mime_type: "audio/mpeg".to_owned(),
        length: 1000,
    }
}

#[test]
fn merge_drops_contained_range() {
    let merged = merge_ranges(&vec![
        Range { start: 20u64, end: Some(25) },
        Range { start: 21, end: Some(22) },
    ]);
    assert_eq!(
        RangeSet { contents: merged },
        RangeSet { contents: vec![Range { start: 20, end: Some(25) }] }
    );
}

#[test]
fn merge_unions_overlapping_ranges() {
    let merged = merge_ranges(&vec![
        Range { start: 20u64, end: Some(25) },
        Range { start: 19, end: Some(20) },
    ]);
    assert_eq!(
        RangeSet { contents: merged },
        RangeSet { contents: vec![Range { start: 19, end: Some(25) }] }
    );
    let merged2 = merge_ranges(&vec![
        Range { start: 20u64, end: Some(25) },
        Range { start: 23, end: Some(26) },
    ]);
    assert_eq!(
        RangeSet { contents: merged2 },
        RangeSet { contents: vec![Range { start: 20, end: Some(26) }] }
    );
}

#[test]
fn merge_drops_scalar_inside_range() {
    let merged = merge_ranges(&vec![
        Range { start: 20u64, end: Some(25) },
        Range { start: 20, end: None },
    ]);
    assert_eq!(
        RangeSet { contents: merged },
        RangeSet { contents: vec![Range { start: 20, end: Some(25) }] }
    );
}

#[test]
fn merge_keeps_disjoint_ranges() {
    let merged = merge_ranges(&vec![
        Range { start: 1u64, end: Some(3) },
        Range { start: 10, end: Some(12) },
    ]);
    assert_eq!(
        RangeSet { contents: merged },
        RangeSet {
            contents: vec![
                Range { start: 1, end: Some(3) },
                Range { start: 10, end: Some(12) },
            ]
        }
    );
}

#[test]
fn number_query_error_empty_and_malformed() {
    assert_eq!(
        Query::new("number:").err().unwrap(),
        QueryError::Number(ParserError::EmptyInput)
    );
    assert_eq!(
        Query::new("number:   ").err().unwrap(),
        QueryError::Number(ParserError::EmptyInput)
    );
    assert_eq!(
        Query::new("number:abc").err().unwrap(),
        QueryError::Number(ParserError::ParseInt("abc".to_owned()))
    );
    assert_eq!(
        Query::new("number:{15,,16}").err().unwrap(),
        QueryError::Number(ParserError::EmptySetElement("{15,,16}".to_owned()))
    );
    assert_eq!(
        Query::new("number:{15,{16}}").err().unwrap(),
        QueryError::Number(ParserError::Recursion("{15,{16}}".to_owned()))
    );
    assert_eq!(
        Query::new("bogus").err().unwrap(),
        QueryError::InvalidQueryOption("bogus".to_owned())
    );
}

#[test]
fn number_parse_accepts_plus_and_rejects_overflow() {
    assert_eq!(
        Query::new("number:+15").unwrap().op,
        QueryOperationOptions::Number(RangeOrSet::Range(Range { start: 15, end: None }))
    );
    assert_eq!(
        Query::new("number:18446744073709551615").unwrap().op,
        QueryOperationOptions::Number(RangeOrSet::Range(Range {
            start: u64::MAX,
            end: None
        }))
    );
    assert_eq!(
        Query::new("number:18446744073709551616").err().unwrap(),
        QueryError::Number(ParserError::ParseInt("18446744073709551616".to_owned()))
    );
}

#[test]
fn title_query_parses_to_text_patterns() {
    assert_eq!(
        Query::new("title:my_title").unwrap().op,
        QueryOperationOptions::Title(RangeOrSet::Range(Range {
            start: "my_title".to_owned(),
            end: None
        }))
    );
    assert_eq!(
        Query::new("title:{my_title, other_title}").unwrap().op,
        QueryOperationOptions::Title(RangeOrSet::Ranges(RangeSet {
            contents: vec![
                Range { start: "my_title".to_owned(), end: None },
                Range { start: "other_title".to_owned(), end: None },
            ]
        }))
    );
    assert_eq!(
        Query::new("description: some words ").unwrap().op,
        QueryOperationOptions::Description(RangeOrSet::Range(Range {
            start: "some words".to_owned(),
            end: None
        }))
    );
}

#[test]
fn title_match_is_literal_substring_case_sensitive() {
    let op = Query::new("title:needle").unwrap().build_query_op();
    assert!(op.evaluate("xx needle yy", "", "", 0, false));
    assert!(op.evaluate("needle", "", "", 0, false));
    assert!(!op.evaluate("Needle", "", "", 0, false));
    assert!(!op.evaluate("nee dle", "", "", 0, false));
    // the description field is not consulted for a title query
    assert!(!op.evaluate("xx", "needle", "", 0, false));
}

#[test]
fn description_set_matches_any_member() {
    let op = Query::new("description:{alpha,beta}").unwrap().build_query_op();
    assert!(op.evaluate("", "has alpha inside", "", 0, false));
    assert!(op.evaluate("", "beta!", "", 0, false));
    assert!(!op.evaluate("", "gamma", "", 0, false));
}

#[test]
fn notexists_selects_exactly_missing_destinations() {
    let op = Query::new("notexists").unwrap().build_query_op();
    assert!(op.evaluate("t", "d", "p", 0, false));
    assert!(!op.evaluate("t", "d", "p", 0, true));
}

#[test]
fn latest_selects_leading_ordinals() {
    assert_eq!(
        Query::new("latest").unwrap().op,
        QueryOperationOptions::Number(RangeOrSet::Range(Range { start: 0, end: None }))
    );
    assert_eq!(
        Query::new("latest:3").unwrap().op,
        QueryOperationOptions::Number(RangeOrSet::Range(Range { start: 0, end: Some(3) }))
    );
    let latest = Query::new("latest").unwrap().build_query_op();
    assert!(latest.evaluate("", "", "", 0, false));
    assert!(!latest.evaluate("", "", "", 1, false));
    let latest3 = Query::new("latest:3").unwrap().build_query_op();
    for ordinal in 0..=3 {
        assert!(latest3.evaluate("", "", "", ordinal, false));
    }
    assert!(!latest3.evaluate("", "", "", 4, false));
}

#[test]
fn latest_error_cases() {
    assert_eq!(
        Query::new("latest:").err().unwrap(),
        QueryError::Number(ParserError::EmptyInput)
    );
    assert_eq!(
        Query::new("latest3").err().unwrap(),
        QueryError::InvalidQueryOption("latest3".to_owned())
    );
    assert_eq!(
        Query::new("latest:x").err().unwrap(),
        QueryError::Number(ParserError::ParseInt("x".to_owned()))
    );
}

#[test]
fn date_query_scalar_and_range() {
    assert_eq!(
        Query::new("date:2021-05-02").unwrap().op,
        QueryOperationOptions::Date(RangeOrSet::Range(Range {
            start: Date { year: 2021, month: 5, day: 2 },
            end: None
        }))
    );
    assert_eq!(
        Query::new("date:[2020-01-01:2021-01-01]").unwrap().op,
        QueryOperationOptions::Date(RangeOrSet::Range(Range {
            start: Date { year: 2020, month: 1, day: 1 },
            end: Some(Date { year: 2021, month: 1, day: 1 })
        }))
    );
    assert_eq!(
        Query::new("date:2021-13-01").err().unwrap(),
        QueryError::Date(ParserError::ParseDate("2021-13-01".to_owned()))
    );
    assert_eq!(
        Query::new("date:[2021-01-02:2021-01-01]").err().unwrap(),
        QueryError::Date(ParserError::EndLessThanStart {
            start: Date { year: 2021, month: 1, day: 2 },
            end: Date { year: 2021, month: 1, day: 1 }
        })
    );
    assert_eq!(
        Query::new("date:[2021-01-01:2021-01-01]").err().unwrap(),
        QueryError::Date(ParserError::EndEqualToStart {
            start: Date { year: 2021, month: 1, day: 1 },
            end: Date { year: 2021, month: 1, day: 1 }
        })
    );
}

#[test]
fn date_sets_merge_chronologically() {
    assert_eq!(
        Query::new("date:{[2020-01-01:2020-06-01],[2020-03-01:2020-09-01]}")
            .unwrap()
            .op,
        QueryOperationOptions::Date(RangeOrSet::Ranges(RangeSet {
            contents: vec![Range {
                start: Date { year: 2020, month: 1, day: 1 },
                end: Some(Date { year: 2020, month: 9, day: 1 })
            }]
        }))
    );
}

#[test]
fn date_predicate_reads_rfc2822_item_dates() {
    let op = Query::new("date:2015-02-18").unwrap().build_query_op();
    assert!(op.evaluate("", "", "Wed, 18 Feb 2015 23:16:09 GMT", 0, false));
    assert!(!op.evaluate("", "", "Thu, 19 Feb 2015 00:16:09 GMT", 0, false));
    // a malformed item date silently excludes the item
    assert!(!op.evaluate("", "", "not a date", 0, false));
    let ranged = Query::new("date:[2015-02-01:2015-03-01]").unwrap().build_query_op();
    assert!(ranged.evaluate("", "", "Wed, 18 Feb 2015 23:16:09 GMT", 0, false));
    assert!(!ranged.evaluate("", "", "Wed, 18 Mar 2015 23:16:09 GMT", 0, false));
}

#[test]
fn feed_filter_keeps_passing_items_in_order() {
    let config = DumpConfig::new_output_is_dir("/tmp/out", 2, "http://example.com/feed", 300);
    let items = vec![
        item("one", "alpha", "Wed, 18 Feb 2015 23:16:09 GMT"),
        item("two", "beta", "Thu, 19 Feb 2015 23:16:09 GMT"),
        item("three", "alpha beta", "Fri, 20 Feb 2015 23:16:09 GMT"),
    ];
    let feed = Feed::new("cast", items, config);
    assert_eq!(feed.title(), "cast");
    assert_eq!(feed.total_items(), 3);
    assert_eq!(feed.total_size(), 3000);

    let queries = vec![Query::new("description:alpha").unwrap()];
    let exists = vec![false, false, false];
    assert_eq!(feed.build_list_from_query(&queries, &exists), vec![0, 2]);

    // conjunction: description AND ordinal
    let queries2 = vec![
        Query::new("description:alpha").unwrap(),
        Query::new("number:[1:2]").unwrap(),
    ];
    assert_eq!(feed.build_list_from_query(&queries2, &exists), vec![2]);

    // notexists consults the per-item probe
    let queries3 = vec![Query::new("notexists").unwrap()];
    let exists3 = vec![true, false, true];
    assert_eq!(feed.build_list_from_query(&queries3, &exists3), vec![1]);
}

#[test]
fn set_equality_ignores_order_and_duplicates() {
    let a = RangeSet {
        contents: vec![
            Range { start: 15u64, end: None },
            Range { start: 20, end: Some(25) },
        ],
    };
    let b = RangeSet {
        contents: vec![
            Range { start: 20u64, end: Some(25) },
            Range { start: 15, end: None },
            Range { start: 15, end: None },
        ],
    };
    let c = RangeSet { contents: vec![Range { start: 15u64, end: None }] };
    assert_eq!(a, b);
    assert_ne!(a, c);
}

#[test]
fn title_brackets_are_literal_text() {
    // free-text queries have no range form: brackets stand for themselves
    assert_eq!(
        Query::new("title:[a:b]").unwrap().op,
        QueryOperationOptions::Title(RangeOrSet::Range(Range {
            start: "[a:b]".to_owned(),
            end: None
        }))
    );
}

#[test]
fn text_query_error_cases() {
    assert_eq!(
        Query::new("title:").err().unwrap(),
        QueryError::Str(ParserError::EmptyInput)
    );
    assert_eq!(
        Query::new("title:{a").err().unwrap(),
        QueryError::Str(ParserError::Unfinished("{a".to_owned()))
    );
    assert_eq!(
        Query::new("title:{a,{b}}").err().unwrap(),
        QueryError::Str(ParserError::Recursion("{a,{b}}".to_owned()))
    );
    assert_eq!(
        Query::new("title:{a,,b}").err().unwrap(),
        QueryError::Str(ParserError::EmptySetElement("{a,,b}".to_owned()))
    );
}

#[test]
fn latest_zero_selects_first_item_only() {
    assert_eq!(
        Query::new("latest:0").unwrap().op,
        QueryOperationOptions::Number(RangeOrSet::Range(Range { start: 0, end: Some(0) }))
    );
    let op = Query::new("latest:0").unwrap().build_query_op();
    assert!(op.evaluate("", "", "", 0, false));
    assert!(!op.evaluate("", "", "", 1, false));
}

#[test]
fn number_set_matches_members_only() {
    let op = Query::new("number:{3,[10:12]}").unwrap().build_query_op();
    assert!(op.evaluate("", "", "", 3, false));
    assert!(op.evaluate("", "", "", 10, false));
    assert!(op.evaluate("", "", "", 12, false));
    assert!(!op.evaluate("", "", "", 4, false));
    assert!(!op.evaluate("", "", "", 13, false));
}
