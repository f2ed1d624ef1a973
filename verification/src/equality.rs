//! Equality of parsed query values. A `RangeSet` compares as a set — same
//! members, whatever the order or duplication of its backing vector — and
//! the enclosing sums compare structurally on top of that.

use vstd::prelude::*;

use crate::date::Date;
use crate::merge::vec_contains_range;
use crate::options::QueryOperationOptions;
use crate::rangeset::{Range, RangeOrSet, RangeSet};

verus! {

/// The view of `x` occurs among the views of `b`'s elements.
pub open spec fn holds_view<T: View>(b: Seq<Range<T>>, x: Range<T::V>) -> bool {
    exists|u: int| 0 <= u < b.len() && (#[trigger] b[u])@ == x
}

proof fn lemma_view_member<T: View>(b: Seq<Range<T>>, x: Range<T::V>)
    ensures
        holds_view(b, x) == b.map_values(|r: Range<T>| r@).to_set().contains(x),
{
    let m = b.map_values(|r: Range<T>| r@);
    if holds_view(b, x) {
        let u = choose|u: int| 0 <= u < b.len() && (#[trigger] b[u])@ == x;
        assert(m[u] == x);
        assert(m.contains(x));
    }
    if m.to_set().contains(x) {
        let u = choose|u: int| 0 <= u < m.len() && m[u] == x;
        assert(b[u]@ == x);
        assert(holds_view(b, x));
    }
}

proof fn lemma_mutual_view_eq<T: View>(a: Seq<Range<T>>, b: Seq<Range<T>>)
    ensures
        ((forall|t: int| 0 <= t < a.len() ==> holds_view(b, (#[trigger] a[t])@)) && (forall|t: int|
            0 <= t < b.len() ==> holds_view(a, (#[trigger] b[t])@))) == (a.map_values(
            |r: Range<T>| r@,
        ).to_set() == b.map_values(|r: Range<T>| r@).to_set()),
{
    let ma = a.map_values(|r: Range<T>| r@);
    let mb = b.map_values(|r: Range<T>| r@);
    if (forall|t: int| 0 <= t < a.len() ==> holds_view(b, (#[trigger] a[t])@)) && (forall|t: int|
        0 <= t < b.len() ==> holds_view(a, (#[trigger] b[t])@)) {
        assert forall|x: Range<T::V>| ma.to_set().contains(x) implies mb.to_set().contains(x) by {
            let u = choose|u: int| 0 <= u < ma.len() && ma[u] == x;
            assert(a[u]@ == x);
            assert(holds_view(b, a[u]@));
            lemma_view_member(b, x);
        }
        assert forall|x: Range<T::V>| mb.to_set().contains(x) implies ma.to_set().contains(x) by {
            let u = choose|u: int| 0 <= u < mb.len() && mb[u] == x;
            assert(b[u]@ == x);
            assert(holds_view(a, b[u]@));
            lemma_view_member(a, x);
        }
        assert(ma.to_set() =~= mb.to_set());
    }
    if ma.to_set() == mb.to_set() {
        assert forall|t: int| 0 <= t < a.len() implies holds_view(b, (#[trigger] a[t])@) by {
            assert(ma[t] == a[t]@);
            assert(ma.contains(a[t]@));
            assert(mb.to_set().contains(a[t]@));
            lemma_view_member(b, a[t]@);
        }
        assert forall|t: int| 0 <= t < b.len() implies holds_view(a, (#[trigger] b[t])@) by {
            assert(mb[t] == b[t]@);
            assert(mb.contains(b[t]@));
            assert(ma.to_set().contains(b[t]@));
            lemma_view_member(a, b[t]@);
        }
    }
}

fn contains_all_u64(a: &Vec<Range<u64>>, b: &Vec<Range<u64>>) -> (r: bool)
    ensures
        r == forall|t: int| 0 <= t < a@.len() ==> holds_view(b@, (#[trigger] a@[t])@),
{
    let mut t: usize = 0;
    while t < a.len()
        invariant
            0 <= t <= a@.len(),
            forall|m: int| 0 <= m < t ==> holds_view(b@, (#[trigger] a@[m])@),
        decreases a@.len() - t,
    {
        if !vec_contains_range(b, &a[t]) {
            proof {
                assert(a@[t as int]@ == a@[t as int]);
                let ghost xt = a@[t as int];
                assert forall|u: int| 0 <= u < b@.len() implies (#[trigger] b@[u])@ != xt@ by {
                    assert(b@[u]@ == b@[u]);
                    if b@[u] == xt {
                        assert(b@.contains(xt));
                    }
                }
                assert(!holds_view(b@, a@[t as int]@));
            }
            return false;
        }
        proof {
            let u = choose|u: int| 0 <= u < b@.len() && b@[u] == a@[t as int];
            assert(b@[u]@ == a@[t as int]@);
        }
        t = t + 1;
    }
    true
}

fn range_eq_date(x: &Range<Date>, y: &Range<Date>) -> (r: bool)
    ensures
        r == (x == y),
{
    crate::date::date_eq(&x.start, &y.start) && match (&x.end, &y.end) {
        (Some(a), Some(b)) => crate::date::date_eq(a, b),
        (None, None) => true,
        _ => false,
    }
}

fn vec_contains_date_range(v: &Vec<Range<Date>>, x: &Range<Date>) -> (r: bool)
    ensures
        r == v@.contains(*x),
{
    let mut k: usize = 0;
    while k < v.len()
        invariant
            0 <= k <= v@.len(),
            forall|m: int| 0 <= m < k ==> v@[m] != *x,
        decreases v@.len() - k,
    {
        if range_eq_date(&v[k], x) {
            return true;
        }
        k = k + 1;
    }
    false
}

fn contains_all_date(a: &Vec<Range<Date>>, b: &Vec<Range<Date>>) -> (r: bool)
    ensures
        r == forall|t: int| 0 <= t < a@.len() ==> holds_view(b@, (#[trigger] a@[t])@),
{
    let mut t: usize = 0;
    while t < a.len()
        invariant
            0 <= t <= a@.len(),
            forall|m: int| 0 <= m < t ==> holds_view(b@, (#[trigger] a@[m])@),
        decreases a@.len() - t,
    {
        if !vec_contains_date_range(b, &a[t]) {
            proof {
                assert(a@[t as int]@ == a@[t as int]);
                let ghost xt = a@[t as int];
                assert forall|u: int| 0 <= u < b@.len() implies (#[trigger] b@[u])@ != xt@ by {
                    assert(b@[u]@ == b@[u]);
                    if b@[u] == xt {
                        assert(b@.contains(xt));
                    }
                }
                assert(!holds_view(b@, a@[t as int]@));
            }
            return false;
        }
        proof {
            let u = choose|u: int| 0 <= u < b@.len() && b@[u] == a@[t as int];
            assert(b@[u]@ == a@[t as int]@);
        }
        t = t + 1;
    }
    true
}

fn range_eq_text(x: &Range<String>, y: &Range<String>) -> (r: bool)
    ensures
        r == (x@ == y@),
{
    let starts = crate::text::str_eq(x.start.as_str(), y.start.as_str());
    let ends: bool = match (&x.end, &y.end) {
        (Some(a), Some(b)) => crate::text::str_eq(a.as_str(), b.as_str()),
        (None, None) => true,
        _ => false,
    };
    proof {
        match (&x.end, &y.end) {
            (Some(a), Some(b)) => {
                assert(x@.end == Some(a@) && y@.end == Some(b@));
            },
            (None, None) => {
                assert(x@.end == y@.end);
            },
            _ => {
                assert(x@.end != y@.end);
            },
        }
        assert(x@.start == x.start@ && y@.start == y.start@);
        if starts && ends {
            assert(x@ == y@);
        } else {
            assert(x@ != y@);
        }
    }
    starts && ends
}

fn vec_contains_text_range(v: &Vec<Range<String>>, x: &Range<String>) -> (r: bool)
    ensures
        r == holds_view(v@, x@),
{
    let mut k: usize = 0;
    while k < v.len()
        invariant
            0 <= k <= v@.len(),
            forall|m: int| 0 <= m < k ==> (#[trigger] v@[m])@ != x@,
        decreases v@.len() - k,
    {
        if range_eq_text(&v[k], x) {
            return true;
        }
        k = k + 1;
    }
    false
}

fn contains_all_text(a: &Vec<Range<String>>, b: &Vec<Range<String>>) -> (r: bool)
    ensures
        r == forall|t: int| 0 <= t < a@.len() ==> holds_view(b@, (#[trigger] a@[t])@),
{
    let mut t: usize = 0;
    while t < a.len()
        invariant
            0 <= t <= a@.len(),
            forall|m: int| 0 <= m < t ==> holds_view(b@, (#[trigger] a@[m])@),
        decreases a@.len() - t,
    {
        if !vec_contains_text_range(b, &a[t]) {
            return false;
        }
        t = t + 1;
    }
    true
}

impl PartialEq for RangeSet<u64> {
    fn eq(&self, other: &Self) -> (r: bool) {
        let r = contains_all_u64(&self.contents, &other.contents) && contains_all_u64(
            &other.contents,
            &self.contents,
        );
        proof {
            lemma_mutual_view_eq(self.contents@, other.contents@);
        }
        r
    }
}

impl vstd::std_specs::cmp::PartialEqSpecImpl for RangeSet<u64> {
    open spec fn obeys_eq_spec() -> bool {
        true
    }

    open spec fn eq_spec(&self, other: &Self) -> bool {
        self@ == other@
    }
}

impl Eq for RangeSet<u64> {

}

impl PartialEq for RangeSet<Date> {
    fn eq(&self, other: &Self) -> (r: bool) {
        let r = contains_all_date(&self.contents, &other.contents) && contains_all_date(
            &other.contents,
            &self.contents,
        );
        proof {
            lemma_mutual_view_eq(self.contents@, other.contents@);
        }
        r
    }
}

impl vstd::std_specs::cmp::PartialEqSpecImpl for RangeSet<Date> {
    open spec fn obeys_eq_spec() -> bool {
        true
    }

    open spec fn eq_spec(&self, other: &Self) -> bool {
        self@ == other@
    }
}

impl Eq for RangeSet<Date> {

}

impl PartialEq for RangeSet<String> {
    fn eq(&self, other: &Self) -> (r: bool) {
        let r = contains_all_text(&self.contents, &other.contents) && contains_all_text(
            &other.contents,
            &self.contents,
        );
        proof {
            lemma_mutual_view_eq(self.contents@, other.contents@);
        }
        r
    }
}

impl vstd::std_specs::cmp::PartialEqSpecImpl for RangeSet<String> {
    open spec fn obeys_eq_spec() -> bool {
        true
    }

    open spec fn eq_spec(&self, other: &Self) -> bool {
        self@ == other@
    }
}

impl Eq for RangeSet<String> {

}

impl PartialEq for RangeOrSet<u64> {
    fn eq(&self, other: &Self) -> (r: bool) {
        match (self, other) {
            (RangeOrSet::Range(a), RangeOrSet::Range(b)) => {
                proof {
                    assert(a@ == *a && b@ == *b);
                }
                crate::merge::range_eq(a, b)
            },
            (RangeOrSet::Ranges(a), RangeOrSet::Ranges(b)) => a == b,
            _ => false,
        }
    }
}

impl vstd::std_specs::cmp::PartialEqSpecImpl for RangeOrSet<u64> {
    open spec fn obeys_eq_spec() -> bool {
        true
    }

    open spec fn eq_spec(&self, other: &Self) -> bool {
        self@ == other@
    }
}

impl Eq for RangeOrSet<u64> {

}

impl PartialEq for RangeOrSet<Date> {
    fn eq(&self, other: &Self) -> (r: bool) {
        match (self, other) {
            (RangeOrSet::Range(a), RangeOrSet::Range(b)) => {
                proof {
                    assert(a@ == *a && b@ == *b);
                }
                range_eq_date(a, b)
            },
            (RangeOrSet::Ranges(a), RangeOrSet::Ranges(b)) => a == b,
            _ => false,
        }
    }
}

impl vstd::std_specs::cmp::PartialEqSpecImpl for RangeOrSet<Date> {
    open spec fn obeys_eq_spec() -> bool {
        true
    }

    open spec fn eq_spec(&self, other: &Self) -> bool {
        self@ == other@
    }
}

impl Eq for RangeOrSet<Date> {

}

impl PartialEq for RangeOrSet<String> {
    fn eq(&self, other: &Self) -> (r: bool) {
        match (self, other) {
            (RangeOrSet::Range(a), RangeOrSet::Range(b)) => range_eq_text(a, b),
            (RangeOrSet::Ranges(a), RangeOrSet::Ranges(b)) => a == b,
            _ => false,
        }
    }
}

impl vstd::std_specs::cmp::PartialEqSpecImpl for RangeOrSet<String> {
    open spec fn obeys_eq_spec() -> bool {
        true
    }

    open spec fn eq_spec(&self, other: &Self) -> bool {
        self@ == other@
    }
}

impl Eq for RangeOrSet<String> {

}

impl PartialEq for QueryOperationOptions {
    fn eq(&self, other: &Self) -> (r: bool) {
        match (self, other) {
            (QueryOperationOptions::Date(a), QueryOperationOptions::Date(b)) => a == b,
            (QueryOperationOptions::Title(a), QueryOperationOptions::Title(b)) => a == b,
            (QueryOperationOptions::Description(a), QueryOperationOptions::Description(b)) => a
                == b,
            (QueryOperationOptions::Number(a), QueryOperationOptions::Number(b)) => a == b,
            (QueryOperationOptions::NotExists, QueryOperationOptions::NotExists) => true,
            _ => false,
        }
    }
}

impl vstd::std_specs::cmp::PartialEqSpecImpl for QueryOperationOptions {
    open spec fn obeys_eq_spec() -> bool {
        true
    }

    open spec fn eq_spec(&self, other: &Self) -> bool {
        self@ == other@
    }
}

impl Eq for QueryOperationOptions {

}

} // verus!
