//! Compiled query operations: the dispatch from a query string to its
//! operation (`number:`, `title:`, `description:`, `date:`, `notexists`,
//! `latest[:N]`), and the evaluation of an operation against one feed
//! item's fields and ordinal position.

use vstd::prelude::*;

use crate::date::{date_le_spec, date_le, rfc2822_date_of, parse_rfc2822_date, Date};
use crate::parser::{
    spec_parse_date_query, spec_parse_text_query, spec_parse_u64_query, ParserError, ParserErrorV,
};
use crate::rangeset::{Range, RangeOrSet, RangeOrSetV};
use crate::text::{
    contains_seq, contains_sub, starts_with_spec, starts_with_str, str_eq, trim_spec, trim_str,
    u64_from_chars, parse_u64,
};

verus! {

/// Why a query string was rejected.
#[derive(Debug, Clone, PartialEq, Eq)]
pub enum QueryError {
    /// The string names no known query option.
    InvalidQueryOption(String),
    Number(ParserError<u64>),
    Date(ParserError<Date>),
    Str(ParserError<String>),
}

/// Abstract value of a [`QueryError`].
pub enum QueryErrorV {
    InvalidQueryOption(Seq<char>),
    Number(ParserErrorV<u64>),
    Date(ParserErrorV<Date>),
    Str(ParserErrorV<Seq<char>>),
}

impl View for QueryError {
    type V = QueryErrorV;

    open spec fn view(&self) -> QueryErrorV {
        match self {
            QueryError::InvalidQueryOption(s) => QueryErrorV::InvalidQueryOption(s@),
            QueryError::Number(e) => QueryErrorV::Number(e@),
            QueryError::Date(e) => QueryErrorV::Date(e@),
            QueryError::Str(e) => QueryErrorV::Str(e@),
        }
    }
}

impl From<ParserError<u64>> for QueryError {
    fn from(error: ParserError<u64>) -> (r: Self) {
        QueryError::Number(error)
    }
}

impl vstd::std_specs::convert::FromSpecImpl<ParserError<u64>> for QueryError {
    open spec fn obeys_from_spec() -> bool {
        true
    }

    open spec fn from_spec(error: ParserError<u64>) -> Self {
        QueryError::Number(error)
    }
}

impl From<ParserError<Date>> for QueryError {
    fn from(error: ParserError<Date>) -> (r: Self) {
        QueryError::Date(error)
    }
}

impl vstd::std_specs::convert::FromSpecImpl<ParserError<Date>> for QueryError {
    open spec fn obeys_from_spec() -> bool {
        true
    }

    open spec fn from_spec(error: ParserError<Date>) -> Self {
        QueryError::Date(error)
    }
}

impl From<ParserError<String>> for QueryError {
    fn from(error: ParserError<String>) -> (r: Self) {
        QueryError::Str(error)
    }
}

impl vstd::std_specs::convert::FromSpecImpl<ParserError<String>> for QueryError {
    open spec fn obeys_from_spec() -> bool {
        true
    }

    open spec fn from_spec(error: ParserError<String>) -> Self {
        QueryError::Str(error)
    }
}

/// One compiled query operation. Exactly one is active per query string;
/// several query strings compose by logical AND.
#[derive(Debug, Clone)]
pub enum QueryOperationOptions {
    Date(RangeOrSet<Date>),
    Title(RangeOrSet<String>),
    Description(RangeOrSet<String>),
    Number(RangeOrSet<u64>),
    NotExists,
}

/// Abstract value of a [`QueryOperationOptions`].
pub enum QueryOptV {
    DateQ(RangeOrSetV<Date>),
    TitleQ(RangeOrSetV<Seq<char>>),
    DescriptionQ(RangeOrSetV<Seq<char>>),
    NumberQ(RangeOrSetV<u64>),
    NotExistsQ,
}

impl View for QueryOperationOptions {
    type V = QueryOptV;

    open spec fn view(&self) -> QueryOptV {
        match self {
            QueryOperationOptions::Date(v) => QueryOptV::DateQ(v@),
            QueryOperationOptions::Title(v) => QueryOptV::TitleQ(v@),
            QueryOperationOptions::Description(v) => QueryOptV::DescriptionQ(v@),
            QueryOperationOptions::Number(v) => QueryOptV::NumberQ(v@),
            QueryOperationOptions::NotExists => QueryOptV::NotExistsQ,
        }
    }
}

/// What the query-string dispatch yields: a field prefix selects the parser
/// for the rest, `notexists` stands alone, and `latest[:N]` compiles to the
/// ordinal range `[0, N]` (scalar `0` without a suffix).
pub open spec fn spec_query_dispatch(s: Seq<char>) -> Result<QueryOptV, QueryErrorV> {
    if starts_with_spec(s, "number:"@) {
        match spec_parse_u64_query(s.subrange("number:"@.len() as int, s.len() as int)) {
            Ok(v) => Ok(QueryOptV::NumberQ(v)),
            Err(e) => Err(QueryErrorV::Number(e)),
        }
    } else if starts_with_spec(s, "title:"@) {
        match spec_parse_text_query(s.subrange("title:"@.len() as int, s.len() as int)) {
            Ok(v) => Ok(QueryOptV::TitleQ(v)),
            Err(e) => Err(QueryErrorV::Str(e)),
        }
    } else if starts_with_spec(s, "description:"@) {
        match spec_parse_text_query(s.subrange("description:"@.len() as int, s.len() as int)) {
            Ok(v) => Ok(QueryOptV::DescriptionQ(v)),
            Err(e) => Err(QueryErrorV::Str(e)),
        }
    } else if starts_with_spec(s, "date:"@) {
        match spec_parse_date_query(s.subrange("date:"@.len() as int, s.len() as int)) {
            Ok(v) => Ok(QueryOptV::DateQ(v)),
            Err(e) => Err(QueryErrorV::Date(e)),
        }
    } else if s == "notexists"@ {
        Ok(QueryOptV::NotExistsQ)
    } else if starts_with_spec(s, "latest"@) {
        let rest = trim_spec(s.subrange("latest"@.len() as int, s.len() as int));
        if rest.len() == 0 {
            Ok(QueryOptV::NumberQ(RangeOrSetV::RangeV(Range { start: 0u64, end: None })))
        } else if rest.contains(':') {
            let rest2 = trim_spec(rest.subrange(1, rest.len() as int));
            if rest2.len() == 0 {
                Err(QueryErrorV::Number(ParserErrorV::EmptyInput))
            } else {
                match u64_from_chars(rest2) {
                    None => Err(QueryErrorV::Number(ParserErrorV::ParseInt(rest2))),
                    Some(n) => Ok(QueryOptV::NumberQ(RangeOrSetV::RangeV(Range {
                        start: 0u64,
                        end: Some(n),
                    }))),
                }
            }
        } else {
            Err(QueryErrorV::InvalidQueryOption(s))
        }
    } else {
        Err(QueryErrorV::InvalidQueryOption(s))
    }
}

impl QueryOperationOptions {
    /// Compile a query string into its operation.
    pub fn try_from(options: &str) -> (r: Result<QueryOperationOptions, QueryError>)
        ensures
            match spec_query_dispatch(options@) {
                Ok(v) => r matches Ok(op) && op@ == v,
                Err(ev) => r matches Err(e) && e@ == ev,
            },
    {
        let n = options.unicode_len();
        if starts_with_str(options, "number:") {
            let rest = options.substring_char("number:".unicode_len(), n);
            match RangeOrSet::<u64>::parse(rest) {
                Ok(v) => Ok(QueryOperationOptions::Number(v)),
                Err(e) => Err(QueryError::Number(e)),
            }
        } else if starts_with_str(options, "title:") {
            let rest = options.substring_char("title:".unicode_len(), n);
            match RangeOrSet::<String>::parse(rest) {
                Ok(v) => Ok(QueryOperationOptions::Title(v)),
                Err(e) => Err(QueryError::Str(e)),
            }
        } else if starts_with_str(options, "description:") {
            let rest = options.substring_char("description:".unicode_len(), n);
            match RangeOrSet::<String>::parse(rest) {
                Ok(v) => Ok(QueryOperationOptions::Description(v)),
                Err(e) => Err(QueryError::Str(e)),
            }
        } else if starts_with_str(options, "date:") {
            let rest = options.substring_char("date:".unicode_len(), n);
            match RangeOrSet::<Date>::parse(rest) {
                Ok(v) => Ok(QueryOperationOptions::Date(v)),
                Err(e) => Err(QueryError::Date(e)),
            }
        } else if str_eq(options, "notexists") {
            Ok(QueryOperationOptions::NotExists)
        } else if starts_with_str(options, "latest") {
            let raw = options.substring_char("latest".unicode_len(), n);
            let rest = trim_str(raw);
            let m = rest.unicode_len();
            if m == 0 {
                Ok(QueryOperationOptions::Number(RangeOrSet::Range(Range {
                    start: 0u64,
                    end: None,
                })))
            } else if crate::text::contains_char(rest, ':') {
                let rest2 = trim_str(rest.substring_char(1, m));
                if rest2.unicode_len() == 0 {
                    Err(QueryError::Number(ParserError::EmptyInput))
                } else {
                    match parse_u64(rest2) {
                        None => Err(QueryError::Number(ParserError::ParseInt(rest2.to_owned()))),
                        Some(v) => Ok(QueryOperationOptions::Number(RangeOrSet::Range(Range {
                            start: 0u64,
                            end: Some(v),
                        }))),
                    }
                }
            } else {
                Err(QueryError::InvalidQueryOption(options.to_owned()))
            }
        } else {
            Err(QueryError::InvalidQueryOption(options.to_owned()))
        }
    }
}

/// A query string together with its compiled operation.
#[derive(Debug)]
pub struct Query {
    pub options: String,
    pub op: QueryOperationOptions,
}

impl Query {
    /// Compile a query string; fails exactly when the dispatch rejects it.
    pub fn new(options: &str) -> (r: Result<Query, QueryError>)
        ensures
            match spec_query_dispatch(options@) {
                Ok(v) => r matches Ok(q) && q.op@ == v && q.options@ == options@,
                Err(ev) => r matches Err(e) && e@ == ev,
            },
    {
        match QueryOperationOptions::try_from(options) {
            Ok(op) => Ok(Query { options: options.to_owned(), op }),
            Err(e) => Err(e),
        }
    }

    /// Hand out the compiled operation.
    pub fn build_query_op(self) -> (op: QueryOperationOptions)
        ensures
            op@ == self.op@,
    {
        self.op
    }
}

/// Membership of `n` in one numeric range or scalar.
pub open spec fn in_range_u64(r: Range<u64>, n: u64) -> bool {
    match r.end {
        Some(e) => r.start <= n && n <= e,
        None => n == r.start,
    }
}

/// Membership of `n` in a numeric range-or-set.
pub open spec fn ros_matches_u64(v: RangeOrSetV<u64>, n: u64) -> bool {
    match v {
        RangeOrSetV::RangeV(r) => in_range_u64(r, n),
        RangeOrSetV::SetV(st) => exists|r: Range<u64>| st.contains(r) && in_range_u64(r, n),
    }
}

/// Membership of date `d` in one date range or scalar.
pub open spec fn in_range_date(r: Range<Date>, d: Date) -> bool {
    match r.end {
        Some(e) => date_le_spec(r.start, d) && date_le_spec(d, e),
        None => d == r.start,
    }
}

/// Membership of date `d` in a date range-or-set.
pub open spec fn ros_matches_date(v: RangeOrSetV<Date>, d: Date) -> bool {
    match v {
        RangeOrSetV::RangeV(r) => in_range_date(r, d),
        RangeOrSetV::SetV(st) => exists|r: Range<Date>| st.contains(r) && in_range_date(r, d),
    }
}

/// Some pattern of the set occurs in `t`.
pub open spec fn set_matches_text(st: Set<Range<Seq<char>>>, t: Seq<char>) -> bool {
    exists|r: Range<Seq<char>>| #[trigger] st.contains(r) && contains_seq(t, r.start)
}

/// Substring match of a text pattern (or any pattern of a set) in `t`,
/// case-sensitive.
pub open spec fn ros_matches_text(v: RangeOrSetV<Seq<char>>, t: Seq<char>) -> bool {
    match v {
        RangeOrSetV::RangeV(r) => contains_seq(t, r.start),
        RangeOrSetV::SetV(st) => set_matches_text(st, t),
    }
}

/// What one compiled operation decides for an item, given the item's text
/// fields, its ordinal position in the feed, and whether its destination
/// file already exists.
pub open spec fn eval_spec(
    op: QueryOptV,
    title: Seq<char>,
    description: Seq<char>,
    pub_date: Seq<char>,
    ordinal: u64,
    dest_exists: bool,
) -> bool {
    match op {
        QueryOptV::NumberQ(v) => ros_matches_u64(v, ordinal),
        QueryOptV::DateQ(v) => match rfc2822_date_of(pub_date) {
            None => false,
            Some(d) => ros_matches_date(v, d),
        },
        QueryOptV::TitleQ(v) => ros_matches_text(v, title),
        QueryOptV::DescriptionQ(v) => ros_matches_text(v, description),
        QueryOptV::NotExistsQ => !dest_exists,
    }
}

fn in_range_u64_exec(r: &Range<u64>, n: u64) -> (b: bool)
    ensures
        b == in_range_u64(*r, n),
{
    match r.end {
        Some(e) => r.start <= n && n <= e,
        None => n == r.start,
    }
}

fn in_range_date_exec(r: &Range<Date>, d: &Date) -> (b: bool)
    ensures
        b == in_range_date(*r, *d),
{
    match &r.end {
        Some(e) => date_le(&r.start, d) && date_le(d, e),
        None => crate::date::date_eq(d, &r.start),
    }
}

fn ros_u64_exec(v: &RangeOrSet<u64>, n: u64) -> (b: bool)
    ensures
        b == ros_matches_u64(v@, n),
{
    match v {
        RangeOrSet::Range(r) => {
            proof {
                assert(r@ == *r);
            }
            in_range_u64_exec(r, n)
        },
        RangeOrSet::Ranges(rs) => {
            let mut k: usize = 0;
            while k < rs.contents.len()
                invariant
                    v@ == RangeOrSetV::SetV(rs@),
                    0 <= k <= rs.contents@.len(),
                    forall|t: int| 0 <= t < k ==> !in_range_u64(#[trigger] rs.contents@[t], n),
                decreases rs.contents@.len() - k,
            {
                if in_range_u64_exec(&rs.contents[k], n) {
                    proof {
                        let m = rs.contents@.map_values(|r: Range<u64>| r@);
                        assert(m[k as int] == rs.contents@[k as int]@);
                        assert(rs.contents@[k as int]@ == rs.contents@[k as int]);
                        assert(m.contains(rs.contents@[k as int]));
                        assert(rs@.contains(rs.contents@[k as int]));
                    }
                    return true;
                }
                k = k + 1;
            }
            proof {
                if exists|r: Range<u64>| rs@.contains(r) && in_range_u64(r, n) {
                    let r = choose|r: Range<u64>| rs@.contains(r) && in_range_u64(r, n);
                    let m = rs.contents@.map_values(|rr: Range<u64>| rr@);
                    assert(m.contains(r));
                    let t = choose|t: int| 0 <= t < m.len() && m[t] == r;
                    assert(rs.contents@[t]@ == rs.contents@[t]);
                    assert(!in_range_u64(rs.contents@[t], n));
                    assert(false);
                }
            }
            false
        },
    }
}

fn ros_date_exec(v: &RangeOrSet<Date>, d: &Date) -> (b: bool)
    ensures
        b == ros_matches_date(v@, *d),
{
    match v {
        RangeOrSet::Range(r) => {
            proof {
                assert(r@ == *r);
            }
            in_range_date_exec(r, d)
        },
        RangeOrSet::Ranges(rs) => {
            let mut k: usize = 0;
            while k < rs.contents.len()
                invariant
                    v@ == RangeOrSetV::SetV(rs@),
                    0 <= k <= rs.contents@.len(),
                    forall|t: int| 0 <= t < k ==> !in_range_date(#[trigger] rs.contents@[t], *d),
                decreases rs.contents@.len() - k,
            {
                if in_range_date_exec(&rs.contents[k], d) {
                    proof {
                        let m = rs.contents@.map_values(|r: Range<Date>| r@);
                        assert(m[k as int] == rs.contents@[k as int]@);
                        assert(rs.contents@[k as int]@ == rs.contents@[k as int]);
                        assert(m.contains(rs.contents@[k as int]));
                    }
                    return true;
                }
                k = k + 1;
            }
            proof {
                if exists|r: Range<Date>| rs@.contains(r) && in_range_date(r, *d) {
                    let r = choose|r: Range<Date>| rs@.contains(r) && in_range_date(r, *d);
                    let m = rs.contents@.map_values(|rr: Range<Date>| rr@);
                    assert(m.contains(r));
                    let t = choose|t: int| 0 <= t < m.len() && m[t] == r;
                    assert(rs.contents@[t]@ == rs.contents@[t]);
                    assert(!in_range_date(rs.contents@[t], *d));
                    assert(false);
                }
            }
            false
        },
    }
}

fn ros_text_exec(v: &RangeOrSet<String>, t: &str) -> (b: bool)
    ensures
        b == ros_matches_text(v@, t@),
{
    match v {
        RangeOrSet::Range(r) => contains_sub(t, r.start.as_str()),
        RangeOrSet::Ranges(rs) => {
            let mut k: usize = 0;
            while k < rs.contents.len()
                invariant
                    v@ == RangeOrSetV::SetV(rs@),
                    0 <= k <= rs.contents@.len(),
                    forall|m: int| 0 <= m < k
                        ==> !contains_seq(t@, (#[trigger] rs.contents@[m]).start@),
                decreases rs.contents@.len() - k,
            {
                if contains_sub(t, rs.contents[k].start.as_str()) {
                    proof {
                        let m = rs.contents@.map_values(|r: Range<String>| r@);
                        assert(m[k as int] == rs.contents@[k as int]@);
                        assert(m.contains(rs.contents@[k as int]@));
                        let w = rs.contents@[k as int]@;
                        assert(rs@.contains(w));
                        assert(w.start == rs.contents@[k as int].start@);
                        assert(rs@.contains(w) && contains_seq(t@, w.start));
                        assert(set_matches_text(rs@, t@));
                    }
                    return true;
                }
                k = k + 1;
            }
            proof {
                if set_matches_text(rs@, t@) {
                    let r = choose|r: Range<Seq<char>>|
                        #[trigger] rs@.contains(r) && contains_seq(t@, r.start);
                    let m = rs.contents@.map_values(|rr: Range<String>| rr@);
                    assert(m.contains(r));
                    let idx = choose|idx: int| 0 <= idx < m.len() && m[idx] == r;
                    assert(rs.contents@[idx]@.start == rs.contents@[idx].start@);
                    assert(!contains_seq(t@, rs.contents@[idx].start@));
                    assert(false);
                }
            }
            false
        },
    }
}

impl QueryOperationOptions {
    /// Decide whether one feed item passes this operation. `dest_exists`
    /// reports whether the item's destination file already exists, probed
    /// by the caller at evaluation time.
    pub fn evaluate(
        &self,
        title: &str,
        description: &str,
        pub_date: &str,
        ordinal: usize,
        dest_exists: bool,
    ) -> (b: bool)
        ensures
            b == eval_spec(self@, title@, description@, pub_date@, ordinal as u64, dest_exists),
    {
        match self {
            QueryOperationOptions::Number(v) => ros_u64_exec(v, ordinal as u64),
            QueryOperationOptions::Date(v) => match parse_rfc2822_date(pub_date) {
                None => false,
                Some(d) => ros_date_exec(v, &d),
            },
            QueryOperationOptions::Title(v) => ros_text_exec(v, title),
            QueryOperationOptions::Description(v) => ros_text_exec(v, description),
            QueryOperationOptions::NotExists => !dest_exists,
        }
    }
}

/// The `latest` selection law: without a suffix the compiled operation
/// selects ordinal `0` only; with `latest:N` it selects ordinals `0..=N`.
pub proof fn lemma_latest_selects(
    end: Option<u64>,
    title: Seq<char>,
    description: Seq<char>,
    pub_date: Seq<char>,
    ordinal: u64,
    dest_exists: bool,
)
    ensures
        eval_spec(
            QueryOptV::NumberQ(RangeOrSetV::RangeV(Range { start: 0u64, end })),
            title,
            description,
            pub_date,
            ordinal,
            dest_exists,
        ) == match end {
            None => ordinal == 0,
            Some(n) => ordinal <= n,
        },
{
}

} // verus!
