//! The number-query parser, exercised end to end through `Query::new`:
//! valid ranges and scalars with whitespace in every position, each range
//! error, and set parsing with duplicate, contained and overlapping
//! members.

use dumptruckrss::options::{Query, QueryError, QueryOperationOptions};
use dumptruckrss::parser::ParserError;
use dumptruckrss::rangeset::{Range, RangeOrSet, RangeSet};
use dumptruckrss::RANGE_DELIMITER;

#[test]
fn mod_number_query_valid() {
    assert_eq!(
        Query::new(&format!("number:[15{}20]", RANGE_DELIMITER)).unwrap().op,
        QueryOperationOptions::Number(RangeOrSet::Range(Range {
            start: 15,
            end: Some(20)
        }))
    );
    assert_eq!(
        Query::new("number:15").unwrap().op,
        QueryOperationOptions::Number(RangeOrSet::Range(Range {
            start: 15,
            end: None
        }))
    );
    assert_eq!(
        Query::new(&format!("number:[ 15{}20]", RANGE_DELIMITER)).unwrap().op,
        QueryOperationOptions::Number(RangeOrSet::Range(Range {
            start: 15,
            end: Some(20)
        }))
    );
    assert_eq!(
        Query::new(&format!("number:[15{}20 ]", RANGE_DELIMITER)).unwrap().op,
        QueryOperationOptions::Number(RangeOrSet::Range(Range {
            start: 15,
            end: Some(20)
        }))
    );
    assert_eq!(
        Query::new(&format!("number:[ 15{}20 ]", RANGE_DELIMITER)).unwrap().op,
        QueryOperationOptions::Number(RangeOrSet::Range(Range {
            start: 15,
            end: Some(20)
        }))
    );
    assert_eq!(
        Query::new(&format!("number:[ 15 {}20 ]", RANGE_DELIMITER)).unwrap().op,
        QueryOperationOptions::Number(RangeOrSet::Range(Range {
            start: 15,
            end: Some(20)
        }))
    );
    assert_eq!(
        Query::new(&format!("number:[ 15{} 20 ]", RANGE_DELIMITER)).unwrap().op,
        QueryOperationOptions::Number(RangeOrSet::Range(Range {
            start: 15,
            end: Some(20)
        }))
    );
    assert_eq!(
        Query::new(&format!("number:[ 15 {} 20 ]", RANGE_DELIMITER)).unwrap().op,
        QueryOperationOptions::Number(RangeOrSet::Range(Range {
            start: 15,
            end: Some(20)
        }))
    );
    assert_eq!(
        Query::new("number: 15").unwrap().op,
        QueryOperationOptions::Number(RangeOrSet::Range(Range {
            start: 15,
            end: None
        }))
    );
    assert_eq!(
        Query::new("number:15 ").unwrap().op,
        QueryOperationOptions::Number(RangeOrSet::Range(Range {
            start: 15,
            end: None
        }))
    );
    assert_eq!(
        Query::new("number: 15 ").unwrap().op,
        QueryOperationOptions::Number(RangeOrSet::Range(Range {
            start: 15,
            end: None
        }))
    );
}

#[test]
fn mod_number_query_error_unit_with_range() {
    assert_eq!(
        Query::new("number:[15]").err().unwrap(),
        QueryError::Number(ParserError::MissingRangeDelimiter("[15]".to_owned()))
    );
    assert_eq!(
        Query::new(&format!("number:[{}15]", RANGE_DELIMITER)).err().unwrap(),
        QueryError::Number(ParserError::MissingStart(format!(
            "[{}15]",
            RANGE_DELIMITER
        )))
    );
    assert_eq!(
        Query::new(&format!("number:[15{}]", RANGE_DELIMITER)).err().unwrap(),
        QueryError::Number(ParserError::MissingEnd(format!("[15{}]", RANGE_DELIMITER)))
    );
}

#[test]
fn mod_number_query_error_range_missing_brackets() {
    assert_eq!(
        Query::new("number:[15").err().unwrap(),
        QueryError::Number(ParserError::Unfinished("[15".to_owned()))
    );
    assert_eq!(
        Query::new("number:15]").err().unwrap(),
        QueryError::Number(ParserError::Unfinished("15]".to_owned()))
    );
    assert_eq!(
        Query::new(&format!("number:[{}15", RANGE_DELIMITER)).err().unwrap(),
        QueryError::Number(ParserError::Unfinished(format!("[{}15", RANGE_DELIMITER)))
    );
    assert_eq!(
        Query::new(&format!("number:{}15]", RANGE_DELIMITER)).err().unwrap(),
        QueryError::Number(ParserError::Unfinished(format!("{}15]", RANGE_DELIMITER)))
    );
    assert_eq!(
        Query::new(&format!("number:[15{}", RANGE_DELIMITER)).err().unwrap(),
        QueryError::Number(ParserError::Unfinished(format!("[15{}", RANGE_DELIMITER)))
    );
    assert_eq!(
        Query::new(&format!("number:15{}]", RANGE_DELIMITER)).err().unwrap(),
        QueryError::Number(ParserError::Unfinished(format!("15{}]", RANGE_DELIMITER)))
    );
}

#[test]
fn mod_number_query_error_end_less_than_start() {
    assert_eq!(
        Query::new(&format!("number:[15{}10]", RANGE_DELIMITER)).err().unwrap(),
        QueryError::Number(ParserError::EndLessThanStart { start: 15, end: 10 })
    );
}

#[test]
fn mod_number_query_error_end_equal_start() {
    assert_eq!(
        Query::new(&format!("number:[15{}15]", RANGE_DELIMITER)).err().unwrap(),
        QueryError::Number(ParserError::EndEqualToStart { start: 15, end: 15 })
    );
}

#[test]
fn mod_number_query_valid_sets() {
    assert_eq!(
        Query::new(&format!("number:{{[15{}20]}}", RANGE_DELIMITER)).unwrap().op,
        QueryOperationOptions::Number(RangeOrSet::Ranges(RangeSet {
            contents: vec![Range {
                start: 15,
                end: Some(20),
            }],
        }))
    );
    assert_eq!(
        Query::new("number:{15}").unwrap().op,
        QueryOperationOptions::Number(RangeOrSet::Ranges(RangeSet {
            contents: vec![Range {
                start: 15,
                end: None,
            }],
        }))
    );
    assert_eq!(
        Query::new(&format!("number:{{15,[20{}25]}}", RANGE_DELIMITER)).unwrap().op,
        QueryOperationOptions::Number(RangeOrSet::Ranges(RangeSet {
            contents: vec![Range {
                start: 15,
                end: None,
            }, Range {
                start: 20,
                end: Some(25),
            }],
        }))
    );
    assert_eq!(
        Query::new(&format!("number:{{15 ,[20{}25]}}", RANGE_DELIMITER)).unwrap().op,
        QueryOperationOptions::Number(RangeOrSet::Ranges(RangeSet {
            contents: vec![Range {
                start: 15,
                end: None,
            }, Range {
                start: 20,
                end: Some(25),
            }],
        }))
    );
    assert_eq!(
        Query::new(&format!("number:{{[20{}25], 15}}", RANGE_DELIMITER)).unwrap().op,
        QueryOperationOptions::Number(RangeOrSet::Ranges(RangeSet {
            contents: vec![Range {
                start: 15,
                end: None,
            }, Range {
                start: 20,
                end: Some(25),
            }],
        }))
    );
    assert_eq!(
        Query::new(&format!("number:{{ [20{}25], 15}}", RANGE_DELIMITER)).unwrap().op,
        QueryOperationOptions::Number(RangeOrSet::Ranges(RangeSet {
            contents: vec![Range {
                start: 15,
                end: None,
            }, Range {
                start: 20,
                end: Some(25),
            }],
        }))
    );
    assert_eq!(
        Query::new(&format!("number:{{ [20{}25] , 15}}", RANGE_DELIMITER)).unwrap().op,
        QueryOperationOptions::Number(RangeOrSet::Ranges(RangeSet {
            contents: vec![Range {
                start: 15,
                end: None,
            }, Range {
                start: 20,
                end: Some(25),
            }],
        }))
    );
    assert_eq!(
        Query::new(&format!("number:{{ [20{}25] , 15 }}", RANGE_DELIMITER)).unwrap().op,
        QueryOperationOptions::Number(RangeOrSet::Ranges(RangeSet {
            contents: vec![Range {
                start: 15,
                end: None,
            }, Range {
                start: 20,
                end: Some(25),
            }],
        }))
    );
}

#[test]
fn mod_number_query_repeated_numbers_in_sets() {
    assert_eq!(
        Query::new(&format!("number:{{ [20{}25] , 20 }}", RANGE_DELIMITER)).unwrap().op,
        QueryOperationOptions::Number(RangeOrSet::Ranges(RangeSet {
            contents: vec![Range {
                start: 20,
                end: Some(25),
            }],
        }))
    );
    assert_eq!(
        Query::new(&format!("number:{{ [20{}25] , 21,  22 }}", RANGE_DELIMITER)).unwrap().op,
        QueryOperationOptions::Number(RangeOrSet::Ranges(RangeSet {
            contents: vec![Range {
                start: 20,
                end: Some(25),
            }],
        }))
    );
    assert_eq!(
        Query::new(&format!("number:{{ [20{}25] , 20,  25 }}", RANGE_DELIMITER)).unwrap().op,
        QueryOperationOptions::Number(RangeOrSet::Ranges(RangeSet {
            contents: vec![Range {
                start: 20,
                end: Some(25),
            }],
        }))
    );
}

#[test]
fn mod_number_query_overlapping_ranges_in_sets() {
    assert_eq!(
        Query::new(&format!("number:{{ [20{}25] , [19{}20] }}", RANGE_DELIMITER, RANGE_DELIMITER)).unwrap().op,
        QueryOperationOptions::Number(RangeOrSet::Ranges(RangeSet {
            contents: vec![Range {
                start: 19,
                end: Some(25),
            }],
        }))
    );
    assert_eq!(
        Query::new(&format!("number:{{ [20{}25] , [21{}22] }}", RANGE_DELIMITER, RANGE_DELIMITER)).unwrap().op,
        QueryOperationOptions::Number(RangeOrSet::Ranges(RangeSet {
            contents: vec![Range {
                start: 20,
                end: Some(25),
            }],
        }))
    );
    assert_eq!(
        Query::new(&format!("number:{{ [20{}25] , [23{}26] }}", RANGE_DELIMITER, RANGE_DELIMITER)).unwrap().op,
        QueryOperationOptions::Number(RangeOrSet::Ranges(RangeSet {
            contents: vec![Range {
                start: 20,
                end: Some(26),
            }],
        }))
    );
    assert_eq!(
        Query::new(&format!("number:{{ [20{}25] , [25{}30] }}", RANGE_DELIMITER, RANGE_DELIMITER)).unwrap().op,
        QueryOperationOptions::Number(RangeOrSet::Ranges(RangeSet {
            contents: vec![Range {
                start: 20,
                end: Some(30),
            }],
        }))
    );
    assert_eq!(
        Query::new(&format!("number:{{ [20{}25] , [10{}30] }}", RANGE_DELIMITER, RANGE_DELIMITER)).unwrap().op,
        QueryOperationOptions::Number(RangeOrSet::Ranges(RangeSet {
            contents: vec![Range {
                start: 10,
                end: Some(30),
            }],
        }))
    );
}

