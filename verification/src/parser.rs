//! The textual query-value grammar: a bare scalar (`20`), a bracketed range
//! (`[15:20]`), or a brace-delimited comma list of scalars and ranges
//! (`{15,[20:25]}`). Each parse function's result is pinned down exactly by
//! a specification function over the input's characters.

use vstd::prelude::*;

use crate::date::{
    date_bounded, date_from_key, date_key, date_key_spec, date_le, date_lt_spec, date_of_key,
    iso_date_of, parse_iso_date, Date,
};
use crate::merge::{lemma_merge_values_from_input, merge_ranges, merged_range_set};
use crate::rangeset::{Range, RangeOrSet, RangeOrSetV, RangeSet};
use crate::text::{
    all_digits, contains_char, dec_rep, digits_val, find_char, find_spec,
    lemma_dec_rep_digits, lemma_digit_char_facts, lemma_find_at, lemma_ltrim_at,
    lemma_rtrim_at, lemma_strip_leading_at, lemma_strip_trailing_at, seg_after_first,
    seg_before, seg_between, segment_before, segment_between, strip_leading,
    strip_leading_spec, strip_plus, strip_trailing, strip_trailing_spec, trim_spec, trim_str,
    u64_from_chars, parse_u64,
};

verus! {

/// Why a piece of query text failed to parse. Text payloads hold the
/// offending input, as handed to the failing stage.
#[derive(Debug, Clone, PartialEq, Eq)]
pub enum ParserError<T> {
    /// A segment that should have been a decimal number was not.
    ParseInt(String),
    /// A segment that should have been a calendar date was not.
    ParseDate(String),
    EndLessThanStart { start: T, end: T },
    EndEqualToStart { start: T, end: T },
    MissingRangeDelimiter(String),
    MissingStart(String),
    MissingEnd(String),
    Unfinished(String),
    EmptySetElement(String),
    Recursion(String),
    EmptyInput,
}

/// Abstract value of a [`ParserError`]: text payloads as character
/// sequences.
pub enum ParserErrorV<V> {
    ParseInt(Seq<char>),
    ParseDate(Seq<char>),
    EndLessThanStart { start: V, end: V },
    EndEqualToStart { start: V, end: V },
    MissingRangeDelimiter(Seq<char>),
    MissingStart(Seq<char>),
    MissingEnd(Seq<char>),
    Unfinished(Seq<char>),
    EmptySetElement(Seq<char>),
    Recursion(Seq<char>),
    EmptyInput,
}

impl<T: View> View for ParserError<T> {
    type V = ParserErrorV<T::V>;

    open spec fn view(&self) -> ParserErrorV<T::V> {
        match self {
            ParserError::ParseInt(s) => ParserErrorV::ParseInt(s@),
            ParserError::ParseDate(s) => ParserErrorV::ParseDate(s@),
            ParserError::EndLessThanStart { start, end } => ParserErrorV::EndLessThanStart {
                start: start@,
                end: end@,
            },
            ParserError::EndEqualToStart { start, end } => ParserErrorV::EndEqualToStart {
                start: start@,
                end: end@,
            },
            ParserError::MissingRangeDelimiter(s) => ParserErrorV::MissingRangeDelimiter(s@),
            ParserError::MissingStart(s) => ParserErrorV::MissingStart(s@),
            ParserError::MissingEnd(s) => ParserErrorV::MissingEnd(s@),
            ParserError::Unfinished(s) => ParserErrorV::Unfinished(s@),
            ParserError::EmptySetElement(s) => ParserErrorV::EmptySetElement(s@),
            ParserError::Recursion(s) => ParserErrorV::Recursion(s@),
            ParserError::EmptyInput => ParserErrorV::EmptyInput,
        }
    }
}

/// What `parse_range` yields for numeric input `s`: bracket checks, then
/// the first segment (brackets stripped, trimmed) as the start, then the
/// segment between the first two delimiters (brackets stripped, trimmed) as
/// the end, which must strictly exceed the start.
pub open spec fn spec_parse_range_u64(s: Seq<char>) -> Result<Range<u64>, ParserErrorV<u64>> {
    let starts = s.len() > 0 && s[0] == '[';
    let ends = s.len() > 0 && s[s.len() - 1] == ']';
    if starts != ends {
        Err(ParserErrorV::Unfinished(s))
    } else if starts && ends {
        let m1 = trim_spec(strip_leading_spec(seg_before(s, ':'), '['));
        if m1.contains(']') {
            Err(ParserErrorV::MissingRangeDelimiter(s))
        } else if m1.len() == 0 {
            Err(ParserErrorV::MissingStart(s))
        } else {
            match u64_from_chars(m1) {
                None => Err(ParserErrorV::ParseInt(m1)),
                Some(st) => {
                    let m2 = trim_spec(strip_trailing_spec(seg_between(s, ':'), ']'));
                    if m2.len() == 0 {
                        Err(ParserErrorV::MissingEnd(s))
                    } else {
                        match u64_from_chars(m2) {
                            None => Err(ParserErrorV::ParseInt(m2)),
                            Some(en) => {
                                if en > st {
                                    Ok(Range { start: st, end: Some(en) })
                                } else if en < st {
                                    Err(ParserErrorV::EndLessThanStart { start: st, end: en })
                                } else {
                                    Err(ParserErrorV::EndEqualToStart { start: st, end: en })
                                }
                            },
                        }
                    }
                },
            }
        }
    } else {
        match u64_from_chars(trim_spec(s)) {
            None => Err(ParserErrorV::ParseInt(trim_spec(s))),
            Some(v) => Ok(Range { start: v, end: None }),
        }
    }
}

/// Split `s` at every occurrence of `c`; empty segments are kept.
pub open spec fn split_char(s: Seq<char>, c: char) -> Seq<Seq<char>>
    decreases s.len(),
{
    let f = find_spec(s, c);
    if f < 0 || f >= s.len() {
        seq![s]
    } else {
        seq![s.subrange(0, f)] + split_char(s.subrange(f + 1, s.len() as int), c)
    }
}

/// Split `s` at every `c`.
pub fn split_char_exec<'a>(s: &'a str, c: char) -> (parts: Vec<&'a str>)
    ensures
        parts@.map_values(|p: &str| p@) == split_char(s@, c),
{
    let mut parts: Vec<&'a str> = Vec::new();
    let mut rem: &'a str = s;
    loop
        invariant
            parts@.map_values(|p: &str| p@) + split_char(rem@, c) =~= split_char(s@, c),
        decreases rem@.len(),
    {
        let ghost pre = parts@.map_values(|p: &str| p@);
        let n = rem.unicode_len();
        match find_char(rem, c) {
            Some(i) => {
                proof {
                    crate::text::lemma_find_props(rem@, c);
                }
                let head = rem.substring_char(0, i);
                parts.push(head);
                let next = rem.substring_char(i + 1, n);
                proof {
                    assert(0 <= find_spec(rem@, c) < rem@.len());
                    assert(split_char(rem@, c) == seq![rem@.subrange(0, i as int)]
                        + split_char(rem@.subrange(i + 1, rem@.len() as int), c));
                    assert(parts@.map_values(|p: &str| p@) =~= pre.push(head@));
                    assert(parts@.map_values(|p: &str| p@) + split_char(next@, c)
                        =~= split_char(s@, c));
                }
                rem = next;
            },
            None => {
                parts.push(rem);
                proof {
                    assert(split_char(rem@, c) == seq![rem@]);
                    assert(parts@.map_values(|p: &str| p@) =~= pre.push(rem@));
                    assert(parts@.map_values(|p: &str| p@) =~= split_char(s@, c));
                }
                return parts;
            },
        }
    }
}

/// Parse every segment as a numeric range, stopping at the first failure.
pub open spec fn parse_elems_u64(parts: Seq<Seq<char>>) -> Result<Seq<Range<u64>>, ParserErrorV<u64>>
    decreases parts.len(),
{
    if parts.len() == 0 {
        Ok(Seq::empty())
    } else {
        match spec_parse_range_u64(parts[0]) {
            Err(e) => Err(e),
            Ok(rg) => match parse_elems_u64(parts.drop_first()) {
                Err(e) => Err(e),
                Ok(rest) => Ok(seq![rg] + rest),
            },
        }
    }
}

proof fn lemma_parse_elems_u64_prefix(parts: Seq<Seq<char>>, vals: Seq<Range<u64>>, k: int)
    requires
        0 <= k <= parts.len(),
        vals.len() == k,
        forall|t: int| 0 <= t < k ==> spec_parse_range_u64(parts[t]) == Ok::<Range<u64>, ParserErrorV<u64>>(vals[t]),
    ensures
        k == parts.len() ==> parse_elems_u64(parts) == Ok::<Seq<Range<u64>>, ParserErrorV<u64>>(vals),
        k < parts.len() && spec_parse_range_u64(parts[k]) is Err ==> parse_elems_u64(parts)
            == Err::<Seq<Range<u64>>, ParserErrorV<u64>>(spec_parse_range_u64(parts[k])->Err_0),
    decreases parts.len(),
{
    if parts.len() == 0 {
        assert(vals =~= Seq::<Range<u64>>::empty());
    } else {
        if k == 0 {
            if parts.len() > 0 && spec_parse_range_u64(parts[0]) is Err {
            }
        } else {
            let sub = parts.drop_first();
            let vsub = vals.drop_first();
            assert(forall|t: int| 0 <= t < k - 1 ==> sub[t] == parts[t + 1] && vsub[t] == vals[t + 1]);
            lemma_parse_elems_u64_prefix(sub, vsub, k - 1);
            assert(spec_parse_range_u64(parts[0]) == Ok::<Range<u64>, ParserErrorV<u64>>(vals[0]));
            if k == parts.len() {
                assert(parse_elems_u64(sub) == Ok::<Seq<Range<u64>>, ParserErrorV<u64>>(vsub));
                assert(seq![vals[0]] + vsub =~= vals);
            } else if spec_parse_range_u64(parts[k]) is Err {
                assert(sub[k - 1] == parts[k]);
            }
        }
    }
}

/// What `parse_set` yields for numeric input `s`: strip braces, reject
/// nested braces and empty segments, parse each comma-separated segment as
/// a range or scalar, then merge the collection.
pub open spec fn spec_parse_set_u64(s: Seq<char>) -> Result<Set<Range<u64>>, ParserErrorV<u64>> {
    let core = strip_leading_spec(strip_trailing_spec(s, '}'), '{');
    if core.contains('{') || core.contains('}') {
        Err(ParserErrorV::Recursion(s))
    } else {
        let parts = split_char(core, ',').map_values(|p: Seq<char>| trim_spec(p));
        if exists|t: int| 0 <= t < parts.len() && #[trigger] parts[t].len() == 0 {
            Err(ParserErrorV::EmptySetElement(s))
        } else {
            match parse_elems_u64(parts) {
                Err(e) => Err(e),
                Ok(vals) => Ok(merged_range_set(vals)),
            }
        }
    }
}

/// What the top-level numeric parse yields: trim, demand non-empty input
/// and matched braces, then parse as a set or as a single range.
pub open spec fn spec_parse_u64_query(s0: Seq<char>) -> Result<RangeOrSetV<u64>, ParserErrorV<u64>> {
    let s = trim_spec(s0);
    if s.len() == 0 {
        Err(ParserErrorV::EmptyInput)
    } else {
        let sb = s[0] == '{';
        let eb = s[s.len() - 1] == '}';
        if sb != eb {
            Err(ParserErrorV::Unfinished(s))
        } else if sb && eb {
            match spec_parse_set_u64(s) {
                Ok(st) => Ok(RangeOrSetV::SetV(st)),
                Err(e) => Err(e),
            }
        } else {
            match spec_parse_range_u64(s) {
                Ok(rg) => Ok(RangeOrSetV::RangeV(rg)),
                Err(e) => Err(e),
            }
        }
    }
}

impl RangeOrSet<u64> {
    /// Parse one numeric scalar or bracketed range.
    pub fn parse_range(input: &str) -> (r: Result<RangeOrSet<u64>, ParserError<u64>>)
        ensures
            match spec_parse_range_u64(input@) {
                Ok(rg) => r matches Ok(RangeOrSet::Range(rr)) && rr == rg,
                Err(ev) => r matches Err(e) && e@ == ev,
            },
    {
        let n = input.unicode_len();
        let starts = n > 0 && input.get_char(0) == '[';
        let ends = n > 0 && input.get_char(n - 1) == ']';
        if starts != ends {
            return Err(ParserError::Unfinished(input.to_owned()));
        }
        if starts && ends {
            let seg1 = segment_before(input, ':');
            let m1 = trim_str(strip_leading(seg1, '['));
            if contains_char(m1, ']') {
                return Err(ParserError::MissingRangeDelimiter(input.to_owned()));
            }
            if m1.unicode_len() == 0 {
                return Err(ParserError::MissingStart(input.to_owned()));
            }
            let st = match parse_u64(m1) {
                Some(v) => v,
                None => {
                    return Err(ParserError::ParseInt(m1.to_owned()));
                },
            };
            let seg2 = segment_between(input, ':');
            let m2 = trim_str(strip_trailing(seg2, ']'));
            if m2.unicode_len() == 0 {
                return Err(ParserError::MissingEnd(input.to_owned()));
            }
            let en = match parse_u64(m2) {
                Some(v) => v,
                None => {
                    return Err(ParserError::ParseInt(m2.to_owned()));
                },
            };
            if en > st {
                Ok(RangeOrSet::Range(Range { start: st, end: Some(en) }))
            } else if en < st {
                Err(ParserError::EndLessThanStart { start: st, end: en })
            } else {
                Err(ParserError::EndEqualToStart { start: st, end: en })
            }
        } else {
            let m = trim_str(input);
            match parse_u64(m) {
                Some(v) => Ok(RangeOrSet::Range(Range { start: v, end: None })),
                None => Err(ParserError::ParseInt(m.to_owned())),
            }
        }
    }

    /// Parse a brace-delimited set of numeric scalars and ranges, merging
    /// overlaps and duplicates.
    pub fn parse_set(input: &str) -> (r: Result<RangeOrSet<u64>, ParserError<u64>>)
        ensures
            match spec_parse_set_u64(input@) {
                Ok(st) => r matches Ok(RangeOrSet::Ranges(rs)) && rs@ == st
                    && rs.contents@.no_duplicates(),
                Err(ev) => r matches Err(e) && e@ == ev,
            },
    {
        let stripped = strip_trailing(input, '}');
        let core = strip_leading(stripped, '{');
        if contains_char(core, '{') || contains_char(core, '}') {
            return Err(ParserError::Recursion(input.to_owned()));
        }
        let raw_parts = split_char_exec(core, ',');
        let ghost sparts = split_char(core@, ',').map_values(|p: Seq<char>| trim_spec(p));
        let ghost set_ok = !core@.contains('{') && !core@.contains('}')
            && core@ == strip_leading_spec(strip_trailing_spec(input@, '}'), '{');
        proof {
            assert(set_ok);
        }
        let mut parts: Vec<&str> = Vec::new();
        let mut k: usize = 0;
        while k < raw_parts.len()
            invariant
                0 <= k <= raw_parts@.len(),
                raw_parts@.map_values(|p: &str| p@) == split_char(core@, ','),
                sparts == split_char(core@, ',').map_values(|p: Seq<char>| trim_spec(p)),
                parts@.len() == k,
                forall|t: int| 0 <= t < k ==> (#[trigger] parts@[t])@ == sparts[t],
            decreases raw_parts@.len() - k,
        {
            let p = trim_str(raw_parts[k]);
            parts.push(p);
            k = k + 1;
        }
        let mut k2: usize = 0;
        while k2 < parts.len()
            invariant
                0 <= k2 <= parts@.len(),
                parts@.len() == sparts.len(),
                set_ok,
                !core@.contains('{') && !core@.contains('}'),
                core@ == strip_leading_spec(strip_trailing_spec(input@, '}'), '{'),
                sparts == split_char(core@, ',').map_values(|p: Seq<char>| trim_spec(p)),
                forall|t: int| 0 <= t < parts@.len() ==> (#[trigger] parts@[t])@ == sparts[t],
                forall|t: int| 0 <= t < k2 ==> #[trigger] sparts[t].len() != 0,
            decreases parts@.len() - k2,
        {
            if parts[k2].unicode_len() == 0 {
                proof {
                    assert(sparts[k2 as int].len() == 0);
                }
                return Err(ParserError::EmptySetElement(input.to_owned()));
            }
            k2 = k2 + 1;
        }
        let mut vals: Vec<Range<u64>> = Vec::new();
        let mut k3: usize = 0;
        while k3 < parts.len()
            invariant
                0 <= k3 <= parts@.len(),
                parts@.len() == sparts.len(),
                set_ok,
                !core@.contains('{') && !core@.contains('}'),
                core@ == strip_leading_spec(strip_trailing_spec(input@, '}'), '{'),
                sparts == split_char(core@, ',').map_values(|p: Seq<char>| trim_spec(p)),
                forall|t: int| 0 <= t < sparts.len() ==> #[trigger] sparts[t].len() != 0,
                forall|t: int| 0 <= t < parts@.len() ==> (#[trigger] parts@[t])@ == sparts[t],
                vals@.len() == k3,
                forall|t: int| 0 <= t < k3 ==> spec_parse_range_u64(sparts[t])
                    == Ok::<Range<u64>, ParserErrorV<u64>>(vals@[t]),
            decreases parts@.len() - k3,
        {
            match Self::parse_range(parts[k3]) {
                Ok(RangeOrSet::Range(rg)) => {
                    vals.push(rg);
                },
                Ok(RangeOrSet::Ranges(_)) => {
                    proof {
                        assert(false);
                    }
                },
                Err(e) => {
                    proof {
                        lemma_parse_elems_u64_prefix(sparts, vals@, k3 as int);
                    }
                    return Err(e);
                },
            }
            k3 = k3 + 1;
        }
        proof {
            lemma_parse_elems_u64_prefix(sparts, vals@, sparts.len() as int);
        }
        let merged = merge_ranges(&vals);
        let rs = RangeSet { contents: merged };
        proof {
            assert(rs@ == merged_range_set(vals@)) by {
                assert(merged@.map_values(|r: Range<u64>| r@) =~= merged@);
                assert(rs@ =~= merged@.to_set());
            }
        }
        Ok(RangeOrSet::Ranges(rs))
    }

    /// Parse a numeric query value: a scalar, a range, or a set of both.
    pub fn parse(input: &str) -> (r: Result<RangeOrSet<u64>, ParserError<u64>>)
        ensures
            match spec_parse_u64_query(input@) {
                Ok(v) => r matches Ok(ros) && ros@ == v,
                Err(ev) => r matches Err(e) && e@ == ev,
            },
    {
        let s = trim_str(input);
        let n = s.unicode_len();
        if n == 0 {
            return Err(ParserError::EmptyInput);
        }
        let sb = s.get_char(0) == '{';
        let eb = s.get_char(n - 1) == '}';
        if sb != eb {
            return Err(ParserError::Unfinished(s.to_owned()));
        }
        if sb && eb {
            Self::parse_set(s)
        } else {
            Self::parse_range(s)
        }
    }
}


/// What `parse_range` yields for free-text input: the text itself, as a
/// single substring pattern.
pub open spec fn spec_parse_range_text(s: Seq<char>) -> Range<Seq<char>> {
    Range { start: s, end: None }
}

/// What `parse_set` yields for free-text input: strip braces, reject nested
/// braces, split on commas, trim each pattern, and reject empty patterns.
pub open spec fn spec_parse_set_text(s: Seq<char>) -> Result<
    Set<Range<Seq<char>>>,
    ParserErrorV<Seq<char>>,
> {
    let core = strip_leading_spec(strip_trailing_spec(s, '}'), '{');
    if core.contains('{') || core.contains('}') {
        Err(ParserErrorV::Recursion(s))
    } else {
        let parts = split_char(core, ',').map_values(|p: Seq<char>| trim_spec(p));
        if exists|t: int| 0 <= t < parts.len() && #[trigger] parts[t].len() == 0 {
            Err(ParserErrorV::EmptySetElement(s))
        } else {
            Ok(parts.map_values(|p: Seq<char>| Range { start: p, end: None::<Seq<char>> }).to_set())
        }
    }
}

/// What the top-level free-text parse yields: trim, demand non-empty input
/// and matched braces, then one pattern or a set of patterns.
pub open spec fn spec_parse_text_query(s0: Seq<char>) -> Result<
    RangeOrSetV<Seq<char>>,
    ParserErrorV<Seq<char>>,
> {
    let s = trim_spec(s0);
    if s.len() == 0 {
        Err(ParserErrorV::EmptyInput)
    } else {
        let sb = s[0] == '{';
        let eb = s[s.len() - 1] == '}';
        if sb != eb {
            Err(ParserErrorV::Unfinished(s))
        } else if sb && eb {
            match spec_parse_set_text(s) {
                Ok(st) => Ok(RangeOrSetV::SetV(st)),
                Err(e) => Err(e),
            }
        } else {
            Ok(RangeOrSetV::RangeV(spec_parse_range_text(s)))
        }
    }
}

impl RangeOrSet<String> {
    /// Parse one free-text pattern: the text stands for itself.
    pub fn parse_range(input: &str) -> (r: Result<RangeOrSet<String>, ParserError<String>>)
        ensures
            r matches Ok(RangeOrSet::Range(rr)) && rr@ == spec_parse_range_text(input@),
    {
        Ok(RangeOrSet::Range(Range { start: input.to_owned(), end: None }))
    }

    /// Parse a brace-delimited set of free-text patterns.
    pub fn parse_set(input: &str) -> (r: Result<RangeOrSet<String>, ParserError<String>>)
        ensures
            match spec_parse_set_text(input@) {
                Ok(st) => r matches Ok(RangeOrSet::Ranges(rs)) && rs@ == st,
                Err(ev) => r matches Err(e) && e@ == ev,
            },
    {
        let stripped = strip_trailing(input, '}');
        let core = strip_leading(stripped, '{');
        if contains_char(core, '{') || contains_char(core, '}') {
            return Err(ParserError::Recursion(input.to_owned()));
        }
        let raw_parts = split_char_exec(core, ',');
        let ghost sparts = split_char(core@, ',').map_values(|p: Seq<char>| trim_spec(p));
        let mut vals: Vec<Range<String>> = Vec::new();
        let mut k: usize = 0;
        while k < raw_parts.len()
            invariant
                0 <= k <= raw_parts@.len(),
                raw_parts@.map_values(|p: &str| p@) == split_char(core@, ','),
                sparts == split_char(core@, ',').map_values(|p: Seq<char>| trim_spec(p)),
                !core@.contains('{') && !core@.contains('}'),
                core@ == strip_leading_spec(strip_trailing_spec(input@, '}'), '{'),
                vals@.len() == k,
                forall|t: int| 0 <= t < k ==> (#[trigger] vals@[t]).start@ == sparts[t]
                    && vals@[t].end is None,
            decreases raw_parts@.len() - k,
        {
            let p = trim_str(raw_parts[k]);
            vals.push(Range { start: p.to_owned(), end: None });
            k = k + 1;
        }
        let mut k2: usize = 0;
        while k2 < vals.len()
            invariant
                0 <= k2 <= vals@.len(),
                vals@.len() == sparts.len(),
                !core@.contains('{') && !core@.contains('}'),
                core@ == strip_leading_spec(strip_trailing_spec(input@, '}'), '{'),
                sparts == split_char(core@, ',').map_values(|p: Seq<char>| trim_spec(p)),
                forall|t: int| 0 <= t < vals@.len() ==> (#[trigger] vals@[t]).start@ == sparts[t]
                    && vals@[t].end is None,
                forall|t: int| 0 <= t < k2 ==> #[trigger] sparts[t].len() != 0,
            decreases vals@.len() - k2,
        {
            if vals[k2].start.as_str().unicode_len() == 0 {
                proof {
                    assert(sparts[k2 as int].len() == 0);
                }
                return Err(ParserError::EmptySetElement(input.to_owned()));
            }
            k2 = k2 + 1;
        }
        let rs = RangeSet { contents: vals };
        proof {
            let expect = sparts.map_values(|p: Seq<char>| Range { start: p, end: None::<Seq<char>> });
            assert(rs@ =~= expect.to_set()) by {
                let got = rs.contents@.map_values(|r: Range<String>| r@);
                assert(got.len() == expect.len());
                assert forall|t: int| 0 <= t < got.len() implies got[t] == expect[t] by {
                    assert(got[t] == rs.contents@[t]@);
                }
                assert(got =~= expect);
            }
        }
        Ok(RangeOrSet::Ranges(rs))
    }

    /// Parse a free-text query value: one pattern, or a set of patterns.
    pub fn parse(input: &str) -> (r: Result<RangeOrSet<String>, ParserError<String>>)
        ensures
            match spec_parse_text_query(input@) {
                Ok(v) => r matches Ok(ros) && ros@ == v,
                Err(ev) => r matches Err(e) && e@ == ev,
            },
    {
        let s = trim_str(input);
        let n = s.unicode_len();
        if n == 0 {
            return Err(ParserError::EmptyInput);
        }
        let sb = s.get_char(0) == '{';
        let eb = s.get_char(n - 1) == '}';
        if sb != eb {
            return Err(ParserError::Unfinished(s.to_owned()));
        }
        if sb && eb {
            Self::parse_set(s)
        } else {
            Self::parse_range(s)
        }
    }
}


/// What `parse_range` yields for date input: the same bracket grammar as
/// numbers, with each bound read as an ISO `YYYY-MM-DD` date.
pub open spec fn spec_parse_range_date(s: Seq<char>) -> Result<Range<Date>, ParserErrorV<Date>> {
    let starts = s.len() > 0 && s[0] == '[';
    let ends = s.len() > 0 && s[s.len() - 1] == ']';
    if starts != ends {
        Err(ParserErrorV::Unfinished(s))
    } else if starts && ends {
        let m1 = trim_spec(strip_leading_spec(seg_before(s, ':'), '['));
        if m1.contains(']') {
            Err(ParserErrorV::MissingRangeDelimiter(s))
        } else if m1.len() == 0 {
            Err(ParserErrorV::MissingStart(s))
        } else {
            match iso_date_of(m1) {
                None => Err(ParserErrorV::ParseDate(m1)),
                Some(st) => {
                    let m2 = trim_spec(strip_trailing_spec(seg_between(s, ':'), ']'));
                    if m2.len() == 0 {
                        Err(ParserErrorV::MissingEnd(s))
                    } else {
                        match iso_date_of(m2) {
                            None => Err(ParserErrorV::ParseDate(m2)),
                            Some(en) => {
                                if date_lt_spec(st, en) {
                                    Ok(Range { start: st, end: Some(en) })
                                } else if en == st {
                                    Err(ParserErrorV::EndEqualToStart { start: st, end: en })
                                } else {
                                    Err(ParserErrorV::EndLessThanStart { start: st, end: en })
                                }
                            },
                        }
                    }
                },
            }
        }
    } else {
        match iso_date_of(trim_spec(s)) {
            None => Err(ParserErrorV::ParseDate(trim_spec(s))),
            Some(d) => Ok(Range { start: d, end: None }),
        }
    }
}

/// Parse every segment as a date range, stopping at the first failure.
pub open spec fn parse_elems_date(parts: Seq<Seq<char>>) -> Result<Seq<Range<Date>>, ParserErrorV<Date>>
    decreases parts.len(),
{
    if parts.len() == 0 {
        Ok(Seq::empty())
    } else {
        match spec_parse_range_date(parts[0]) {
            Err(e) => Err(e),
            Ok(rg) => match parse_elems_date(parts.drop_first()) {
                Err(e) => Err(e),
                Ok(rest) => Ok(seq![rg] + rest),
            },
        }
    }
}

proof fn lemma_parse_elems_date_prefix(parts: Seq<Seq<char>>, vals: Seq<Range<Date>>, k: int)
    requires
        0 <= k <= parts.len(),
        vals.len() == k,
        forall|t: int| 0 <= t < k ==> spec_parse_range_date(parts[t]) == Ok::<Range<Date>, ParserErrorV<Date>>(vals[t]),
    ensures
        k == parts.len() ==> parse_elems_date(parts) == Ok::<Seq<Range<Date>>, ParserErrorV<Date>>(vals),
        k < parts.len() && spec_parse_range_date(parts[k]) is Err ==> parse_elems_date(parts)
            == Err::<Seq<Range<Date>>, ParserErrorV<Date>>(spec_parse_range_date(parts[k])->Err_0),
    decreases parts.len(),
{
    if parts.len() == 0 {
        assert(vals =~= Seq::<Range<Date>>::empty());
    } else {
        if k == 0 {
        } else {
            let sub = parts.drop_first();
            let vsub = vals.drop_first();
            assert(forall|t: int| 0 <= t < k - 1 ==> sub[t] == parts[t + 1] && vsub[t] == vals[t + 1]);
            lemma_parse_elems_date_prefix(sub, vsub, k - 1);
            assert(spec_parse_range_date(parts[0]) == Ok::<Range<Date>, ParserErrorV<Date>>(vals[0]));
            if k == parts.len() {
                assert(parse_elems_date(sub) == Ok::<Seq<Range<Date>>, ParserErrorV<Date>>(vsub));
                assert(seq![vals[0]] + vsub =~= vals);
            } else if spec_parse_range_date(parts[k]) is Err {
                assert(sub[k - 1] == parts[k]);
            }
        }
    }
}

/// The order-preserving numeric image of a date range, so that date sets
/// merge by the numeric reduction.
pub open spec fn encode_date_range(r: Range<Date>) -> Range<u64> {
    Range {
        start: date_key_spec(r.start) as u64,
        end: match r.end {
            Option::Some(e) => Option::Some(date_key_spec(e) as u64),
            Option::None => Option::None,
        },
    }
}

/// The date range a numeric image encodes.
pub open spec fn decode_date_range(r: Range<u64>) -> Range<Date> {
    Range {
        start: date_of_key(r.start as int),
        end: match r.end {
            Option::Some(e) => Option::Some(date_of_key(e as int)),
            Option::None => Option::None,
        },
    }
}

/// What `parse_set` yields for date input: the numeric reduction applied to
/// the parsed ranges' key images, read back as dates.
pub open spec fn spec_parse_set_date(s: Seq<char>) -> Result<Set<Range<Date>>, ParserErrorV<Date>> {
    let core = strip_leading_spec(strip_trailing_spec(s, '}'), '{');
    if core.contains('{') || core.contains('}') {
        Err(ParserErrorV::Recursion(s))
    } else {
        let parts = split_char(core, ',').map_values(|p: Seq<char>| trim_spec(p));
        if exists|t: int| 0 <= t < parts.len() && #[trigger] parts[t].len() == 0 {
            Err(ParserErrorV::EmptySetElement(s))
        } else {
            match parse_elems_date(parts) {
                Err(e) => Err(e),
                Ok(vals) => Ok(
                    merged_range_set(vals.map_values(|r: Range<Date>| encode_date_range(r))).map(
                        |r: Range<u64>| decode_date_range(r),
                    ),
                ),
            }
        }
    }
}

/// What the top-level date parse yields.
pub open spec fn spec_parse_date_query(s0: Seq<char>) -> Result<RangeOrSetV<Date>, ParserErrorV<Date>> {
    let s = trim_spec(s0);
    if s.len() == 0 {
        Err(ParserErrorV::EmptyInput)
    } else {
        let sb = s[0] == '{';
        let eb = s[s.len() - 1] == '}';
        if sb != eb {
            Err(ParserErrorV::Unfinished(s))
        } else if sb && eb {
            match spec_parse_set_date(s) {
                Ok(st) => Ok(RangeOrSetV::SetV(st)),
                Err(e) => Err(e),
            }
        } else {
            match spec_parse_range_date(s) {
                Ok(rg) => Ok(RangeOrSetV::RangeV(rg)),
                Err(e) => Err(e),
            }
        }
    }
}

/// Every field of the range is a bounded date.
pub open spec fn date_range_bounded(r: Range<Date>) -> bool {
    date_bounded(r.start) && (r.end matches Some(e) ==> date_bounded(e))
}

impl RangeOrSet<Date> {
    /// Parse one date scalar or bracketed date range.
    pub fn parse_range(input: &str) -> (r: Result<RangeOrSet<Date>, ParserError<Date>>)
        ensures
            match spec_parse_range_date(input@) {
                Ok(rg) => r matches Ok(RangeOrSet::Range(rr)) && rr == rg
                    && date_range_bounded(rg),
                Err(ev) => r matches Err(e) && e@ == ev,
            },
    {
        let n = input.unicode_len();
        let starts = n > 0 && input.get_char(0) == '[';
        let ends = n > 0 && input.get_char(n - 1) == ']';
        if starts != ends {
            return Err(ParserError::Unfinished(input.to_owned()));
        }
        if starts && ends {
            let seg1 = segment_before(input, ':');
            let m1 = trim_str(strip_leading(seg1, '['));
            if contains_char(m1, ']') {
                return Err(ParserError::MissingRangeDelimiter(input.to_owned()));
            }
            if m1.unicode_len() == 0 {
                return Err(ParserError::MissingStart(input.to_owned()));
            }
            let st = match parse_iso_date(m1) {
                Some(d) => d,
                None => {
                    return Err(ParserError::ParseDate(m1.to_owned()));
                },
            };
            let seg2 = segment_between(input, ':');
            let m2 = trim_str(strip_trailing(seg2, ']'));
            if m2.unicode_len() == 0 {
                return Err(ParserError::MissingEnd(input.to_owned()));
            }
            let en = match parse_iso_date(m2) {
                Some(d) => d,
                None => {
                    return Err(ParserError::ParseDate(m2.to_owned()));
                },
            };
            if crate::date::date_eq(&st, &en) {
                Err(ParserError::EndEqualToStart { start: st, end: en })
            } else if date_le(&st, &en) {
                Ok(RangeOrSet::Range(Range { start: st, end: Some(en) }))
            } else {
                Err(ParserError::EndLessThanStart { start: st, end: en })
            }
        } else {
            let m = trim_str(input);
            match parse_iso_date(m) {
                Some(d) => Ok(RangeOrSet::Range(Range { start: d, end: None })),
                None => Err(ParserError::ParseDate(m.to_owned())),
            }
        }
    }

    /// Parse a brace-delimited set of date scalars and ranges, merging
    /// overlaps and duplicates chronologically.
    pub fn parse_set(input: &str) -> (r: Result<RangeOrSet<Date>, ParserError<Date>>)
        ensures
            match spec_parse_set_date(input@) {
                Ok(st) => r matches Ok(RangeOrSet::Ranges(rs)) && rs@ == st,
                Err(ev) => r matches Err(e) && e@ == ev,
            },
    {
        let stripped = strip_trailing(input, '}');
        let core = strip_leading(stripped, '{');
        if contains_char(core, '{') || contains_char(core, '}') {
            return Err(ParserError::Recursion(input.to_owned()));
        }
        let raw_parts = split_char_exec(core, ',');
        let ghost sparts = split_char(core@, ',').map_values(|p: Seq<char>| trim_spec(p));
        let mut parts: Vec<&str> = Vec::new();
        let mut k: usize = 0;
        while k < raw_parts.len()
            invariant
                0 <= k <= raw_parts@.len(),
                raw_parts@.map_values(|p: &str| p@) == split_char(core@, ','),
                sparts == split_char(core@, ',').map_values(|p: Seq<char>| trim_spec(p)),
                parts@.len() == k,
                forall|t: int| 0 <= t < k ==> (#[trigger] parts@[t])@ == sparts[t],
            decreases raw_parts@.len() - k,
        {
            let p = trim_str(raw_parts[k]);
            parts.push(p);
            k = k + 1;
        }
        let mut k2: usize = 0;
        while k2 < parts.len()
            invariant
                0 <= k2 <= parts@.len(),
                parts@.len() == sparts.len(),
                !core@.contains('{') && !core@.contains('}'),
                core@ == strip_leading_spec(strip_trailing_spec(input@, '}'), '{'),
                sparts == split_char(core@, ',').map_values(|p: Seq<char>| trim_spec(p)),
                forall|t: int| 0 <= t < parts@.len() ==> (#[trigger] parts@[t])@ == sparts[t],
                forall|t: int| 0 <= t < k2 ==> #[trigger] sparts[t].len() != 0,
            decreases parts@.len() - k2,
        {
            if parts[k2].unicode_len() == 0 {
                proof {
                    assert(sparts[k2 as int].len() == 0);
                }
                return Err(ParserError::EmptySetElement(input.to_owned()));
            }
            k2 = k2 + 1;
        }
        let mut vals: Vec<Range<Date>> = Vec::new();
        let mut k3: usize = 0;
        while k3 < parts.len()
            invariant
                0 <= k3 <= parts@.len(),
                parts@.len() == sparts.len(),
                !core@.contains('{') && !core@.contains('}'),
                core@ == strip_leading_spec(strip_trailing_spec(input@, '}'), '{'),
                sparts == split_char(core@, ',').map_values(|p: Seq<char>| trim_spec(p)),
                forall|t: int| 0 <= t < sparts.len() ==> #[trigger] sparts[t].len() != 0,
                forall|t: int| 0 <= t < parts@.len() ==> (#[trigger] parts@[t])@ == sparts[t],
                vals@.len() == k3,
                forall|t: int| 0 <= t < k3 ==> spec_parse_range_date(sparts[t])
                    == Ok::<Range<Date>, ParserErrorV<Date>>(vals@[t])
                    && date_range_bounded(#[trigger] vals@[t]),
            decreases parts@.len() - k3,
        {
            match Self::parse_range(parts[k3]) {
                Ok(RangeOrSet::Range(rg)) => {
                    vals.push(rg);
                },
                Ok(RangeOrSet::Ranges(_)) => {
                    proof {
                        assert(false);
                    }
                },
                Err(e) => {
                    proof {
                        lemma_parse_elems_date_prefix(sparts, vals@, k3 as int);
                    }
                    return Err(e);
                },
            }
            k3 = k3 + 1;
        }
        proof {
            lemma_parse_elems_date_prefix(sparts, vals@, sparts.len() as int);
        }
        // Merge on the numeric key images, then read the survivors back.
        let ghost dvals = vals@;
        let mut keys: Vec<Range<u64>> = Vec::new();
        let mut k4: usize = 0;
        while k4 < vals.len()
            invariant
                0 <= k4 <= vals@.len(),
                vals@ == dvals,
                forall|t: int| 0 <= t < dvals.len() ==> date_range_bounded(#[trigger] dvals[t]),
                keys@.len() == k4,
                forall|t: int| 0 <= t < k4 ==> #[trigger] keys@[t] == encode_date_range(dvals[t]),
            decreases vals@.len() - k4,
        {
            let v = &vals[k4];
            let ks = date_key(&v.start);
            let ke = match &v.end {
                Option::Some(e) => Option::Some(date_key(e)),
                Option::None => Option::None,
            };
            keys.push(Range { start: ks, end: ke });
            k4 = k4 + 1;
        }
        proof {
            assert(keys@ =~= dvals.map_values(|r: Range<Date>| encode_date_range(r)));
        }
        let merged = merge_ranges(&keys);
        proof {
            lemma_merge_values_from_input(keys@);
        }
        let ghost mset = merged_range_set(keys@);
        let mut out: Vec<Range<Date>> = Vec::new();
        let mut k5: usize = 0;
        while k5 < merged.len()
            invariant
                0 <= k5 <= merged@.len(),
                merged@.to_set() == mset,
                mset == merged_range_set(keys@),
                keys@ == dvals.map_values(|r: Range<Date>| encode_date_range(r)),
                forall|t: int| 0 <= t < dvals.len() ==> date_range_bounded(#[trigger] dvals[t]),
                forall|x: Range<u64>| #[trigger] mset.contains(x) ==> (exists|i: int|
                    0 <= i < keys@.len() && x.start == (#[trigger] keys@[i]).start)
                    && (exists|j: int| 0 <= j < keys@.len() && x.end == (#[trigger] keys@[j]).end),
                out@.len() == k5,
                forall|t: int| 0 <= t < k5 ==> #[trigger] out@[t] == decode_date_range(merged@[t]),
            decreases merged@.len() - k5,
        {
            let kr = &merged[k5];
            proof {
                assert(merged@.contains(merged@[k5 as int]));
                assert(mset.contains(merged@[k5 as int]));
                let i0 = choose|i: int| 0 <= i < keys@.len()
                    && merged@[k5 as int].start == (#[trigger] keys@[i]).start;
                assert(keys@[i0] == encode_date_range(dvals[i0]));
                crate::date::lemma_date_key_inverse(dvals[i0].start);
                assert(date_bounded(dvals[i0].start)
                    && date_key_spec(dvals[i0].start) == merged@[k5 as int].start);
            }
            let ds = date_from_key(kr.start);
            let de = match &kr.end {
                Option::Some(e) => {
                    proof {
                        let j0 = choose|j: int| 0 <= j < keys@.len()
                            && merged@[k5 as int].end == (#[trigger] keys@[j]).end;
                        assert(keys@[j0] == encode_date_range(dvals[j0]));
                        let ed = dvals[j0].end->0;
                        crate::date::lemma_date_key_inverse(ed);
                        assert(date_bounded(ed) && date_key_spec(ed) == *e);
                    }
                    Option::Some(date_from_key(*e))
                },
                Option::None => Option::None,
            };
            out.push(Range { start: ds, end: de });
            proof {
                assert(out@[k5 as int] == decode_date_range(merged@[k5 as int]));
            }
            k5 = k5 + 1;
        }
        let rs = RangeSet { contents: out };
        proof {
            let dset = mset.map(|r: Range<u64>| decode_date_range(r));
            assert(rs@ =~= dset) by {
                let got = rs.contents@.map_values(|r: Range<Date>| r@);
                assert forall|y: Range<Date>| got.to_set().contains(y) implies dset.contains(y) by {
                    let t = choose|t: int| 0 <= t < got.len() && got[t] == y;
                    assert(got[t] == rs.contents@[t]@);
                    assert(rs.contents@[t]@ == rs.contents@[t]);
                    assert(rs.contents@[t] == decode_date_range(merged@[t]));
                    assert(merged@.contains(merged@[t]));
                    assert(mset.contains(merged@[t]));
                };
                assert forall|y: Range<Date>| dset.contains(y) implies got.to_set().contains(y) by {
                    let x = choose|x: Range<u64>| mset.contains(x) && y == decode_date_range(x);
                    assert(merged@.to_set().contains(x));
                    let t = choose|t: int| 0 <= t < merged@.len() && merged@[t] == x;
                    assert(rs.contents@[t] == decode_date_range(x));
                    assert(got[t] == rs.contents@[t]@);
                    assert(rs.contents@[t]@ == rs.contents@[t]);
                    assert(got.contains(y));
                };
            }
        }
        Ok(RangeOrSet::Ranges(rs))
    }

    /// Parse a date query value: a scalar, a range, or a set of both.
    pub fn parse(input: &str) -> (r: Result<RangeOrSet<Date>, ParserError<Date>>)
        ensures
            match spec_parse_date_query(input@) {
                Ok(v) => r matches Ok(ros) && ros@ == v,
                Err(ev) => r matches Err(e) && e@ == ev,
            },
    {
        let s = trim_str(input);
        let n = s.unicode_len();
        if n == 0 {
            return Err(ParserError::EmptyInput);
        }
        let sb = s.get_char(0) == '{';
        let eb = s.get_char(n - 1) == '}';
        if sb != eb {
            return Err(ParserError::Unfinished(s.to_owned()));
        }
        if sb && eb {
            Self::parse_set(s)
        } else {
            Self::parse_range(s)
        }
    }
}


/// Whitespace at the edges of a query value never changes the parsed
/// result: the numeric parse of any input equals the parse of its trimmed
/// form. (Whitespace around inner delimiters is trimmed per segment by the
/// parse itself.)
pub proof fn lemma_parse_u64_trim_insensitive(s: Seq<char>)
    ensures
        spec_parse_u64_query(s) == spec_parse_u64_query(trim_spec(s)),
{
    crate::text::lemma_trim_idempotent(s);
}

/// Whitespace at the edges of a date query value never changes the parsed
/// result.
pub proof fn lemma_parse_date_trim_insensitive(s: Seq<char>)
    ensures
        spec_parse_date_query(s) == spec_parse_date_query(trim_spec(s)),
{
    crate::text::lemma_trim_idempotent(s);
}

/// Whitespace at the edges of a free-text query value never changes the
/// parsed result.
pub proof fn lemma_parse_text_trim_insensitive(s: Seq<char>)
    ensures
        spec_parse_text_query(s) == spec_parse_text_query(trim_spec(s)),
{
    crate::text::lemma_trim_idempotent(s);
}


proof fn lemma_digit_string_parses(sa: Seq<char>, a: u64)
    requires
        all_digits(sa),
        sa.len() >= 1,
        digits_val(sa) == a,
    ensures
        trim_spec(sa) == sa,
        u64_from_chars(sa) == Some(a),
        !sa.contains(']'),
    decreases sa.len(),
{
    assert forall|k: int| 0 <= k < sa.len() implies sa[k] != ']' && !crate::text::is_space_char(
        sa[k],
    ) && sa[k] != '+' by {
        lemma_digit_char_facts(sa[k]);
    }
    lemma_ltrim_at(sa, 0);
    lemma_rtrim_at(sa, sa.len() as int);
    assert(sa.subrange(0, sa.len() as int) =~= sa);
    assert(strip_plus(sa) == sa);
}

/// The well-formed range law: for any bounds written in decimal inside
/// brackets, parsing yields exactly `Range { start: a, end: Some(b) }` when
/// `a < b`, the equal-bounds error when `a == b`, and the reversed-bounds
/// error when `a > b`.
pub proof fn lemma_parse_range_roundtrip(a: u64, b: u64)
    ensures
        ({
            let s = seq!['['] + dec_rep(a as int) + seq![':'] + dec_rep(b as int) + seq![']'];
            &&& (a < b ==> spec_parse_range_u64(s) == Ok::<Range<u64>, ParserErrorV<u64>>(
                Range { start: a, end: Some(b) },
            ))
            &&& (a == b ==> spec_parse_range_u64(s) == Err::<Range<u64>, ParserErrorV<u64>>(
                ParserErrorV::EndEqualToStart { start: a, end: b },
            ))
            &&& (a > b ==> spec_parse_range_u64(s) == Err::<Range<u64>, ParserErrorV<u64>>(
                ParserErrorV::EndLessThanStart { start: a, end: b },
            ))
        }),
{
    lemma_dec_rep_digits(a as int);
    lemma_dec_rep_digits(b as int);
    let sa = dec_rep(a as int);
    let sb = dec_rep(b as int);
    lemma_digit_string_parses(sa, a);
    lemma_digit_string_parses(sb, b);
    let s = seq!['['] + sa + seq![':'] + sb + seq![']'];
    let la = sa.len() as int;
    let lb = sb.len() as int;
    assert(s.len() == la + lb + 3);
    assert(s[0] == '[');
    assert(s[s.len() - 1] == ']');
    assert(forall|k: int| 0 <= k < la ==> s[1 + k] == sa[k]);
    assert(s[1 + la] == ':');
    assert(forall|k: int| 0 <= k < lb ==> s[2 + la + k] == sb[k]);

    // the first delimiter stands right after the start digits
    assert forall|k: int| 0 <= k < 1 + la implies s[k] != ':' by {
        if k >= 1 {
            lemma_digit_char_facts(sa[k - 1]);
        }
    }
    lemma_find_at(s, ':', 1 + la);
    assert(find_spec(s, ':') == 1 + la);
    let m0 = seg_before(s, ':');
    assert(m0 =~= seq!['['] + sa);

    // strip the bracket, leaving exactly the digits
    assert(m0[0] == '[');
    assert(1 < m0.len() ==> m0[1] != '[') by {
        if la > 0 {
            lemma_digit_char_facts(sa[0]);
        }
    }
    lemma_strip_leading_at(m0, '[', 1);
    assert(strip_leading_spec(m0, '[') =~= sa);
    assert(trim_spec(strip_leading_spec(m0, '[')) == sa);

    // the end segment runs to the closing bracket
    let rest = seg_after_first(s, ':');
    assert(rest =~= sb + seq![']']);
    assert forall|k: int| 0 <= k < rest.len() implies rest[k] != ':' by {
        if k < lb {
            lemma_digit_char_facts(sb[k]);
        }
    }
    lemma_find_at(rest, ':', rest.len() as int);
    assert(find_spec(rest, ':') == -1);
    assert(seg_between(s, ':') == rest);
    assert(rest[rest.len() - 1] == ']');
    assert forall|k: int| lb <= k < rest.len() implies rest[k] == ']' by {}
    assert(lb > 0 ==> rest[lb - 1] != ']') by {
        lemma_digit_char_facts(sb[lb - 1]);
    }
    lemma_strip_trailing_at(rest, ']', lb);
    assert(strip_trailing_spec(rest, ']') =~= sb);
    assert(trim_spec(strip_trailing_spec(rest, ']')) == sb);
}

} // verus!
