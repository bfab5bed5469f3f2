//! Course records, their quarter numbers and their ordering by quarter.

use vstd::prelude::*;

use crate::style::TermColor;
use crate::text::{
    ascii_lowercase, ascii_uppercase, is_ascii_text, lemma_ascii_case_folds, lowercase, occurs_in,
    text_contains, text_eq, to_lowercase,
};

verus! {

/// Directory that holds one sub-directory per course code prefix.
pub const COURSES_DIR: &'static str = "/home/gerb/uni/courses/";

/// Directory that holds the notes vault.
pub const NOTES_DIR: &'static str = "/home/gerb/uni/Vault-MSc/";

/// One course, as its `info.yaml` describes it.
#[derive(PartialEq, Eq, Debug)]
pub struct Course {
    pub title: String,
    pub short: String,
    pub code: String,
    pub year: String,
    pub quarter: String,
    pub url: String,
    pub active: bool,
    pub credits: String,
}

impl Clone for Course {
    fn clone(&self) -> (copy: Self)
        ensures
            copy == *self,
    {
        Course {
            title: self.title.clone(),
            short: self.short.clone(),
            code: self.code.clone(),
            year: self.year.clone(),
            quarter: self.quarter.clone(),
            url: self.url.clone(),
            active: self.active,
            credits: self.credits.clone(),
        }
    }
}

/// The quarter number that a lower-case quarter text names: `q1`..`q4`, and
/// the first quarter of the two-quarter spans `q1/q2` and `q3/q4`.
pub open spec fn quarter_number_spec(q: Seq<char>) -> Option<i32> {
    if q == "q1"@ {
        Some(1i32)
    } else if q == "q2"@ {
        Some(2i32)
    } else if q == "q3"@ {
        Some(3i32)
    } else if q == "q4"@ {
        Some(4i32)
    } else if q == "q1/q2"@ {
        Some(1i32)
    } else if q == "q3/q4"@ {
        Some(3i32)
    } else {
        None
    }
}

/// The quarter number of a quarter text that is already in lower case.
pub fn lowercase_quarter_number(q: &str) -> (number: Option<i32>)
    ensures
        number == quarter_number_spec(q@),
{
    if text_eq(q, "q1") {
        Some(1)
    } else if text_eq(q, "q2") {
        Some(2)
    } else if text_eq(q, "q3") {
        Some(3)
    } else if text_eq(q, "q4") {
        Some(4)
    } else if text_eq(q, "q1/q2") {
        Some(1)
    } else if text_eq(q, "q3/q4") {
        Some(3)
    } else {
        None
    }
}

/// The quarter number of a quarter text, compared without regard to case.
pub fn convert_quarter_string_to_number(quarter: &str) -> (number: Option<i32>)
    ensures
        number == quarter_number_spec(lowercase(quarter@)),
        is_ascii_text(quarter@) ==> number == quarter_number_spec(ascii_lowercase(quarter@)),
        number matches Some(n) ==> 1 <= n <= 4,
{
    let lowered = to_lowercase(quarter);
    lowercase_quarter_number(lowered.as_str())
}


/// The quarter number of an ASCII text does not depend on the case of its
/// letters: upper-casing or lower-casing the text first gives the same number.
pub proof fn lemma_quarter_number_ignores_case(s: Seq<char>)
    requires
        is_ascii_text(s),
    ensures
        is_ascii_text(ascii_uppercase(s)),
        is_ascii_text(ascii_lowercase(s)),
        quarter_number_spec(ascii_lowercase(ascii_uppercase(s))) == quarter_number_spec(
            ascii_lowercase(s),
        ),
        quarter_number_spec(ascii_lowercase(ascii_lowercase(s))) == quarter_number_spec(
            ascii_lowercase(s),
        ),
{
    lemma_ascii_case_folds(s);
}

/// The number by which courses are ordered: the course's quarter number,
/// or 0 where its quarter text names none.
pub open spec fn quarter_key(c: Course) -> int {
    match quarter_number_spec(lowercase(c.quarter@)) {
        Some(n) => n as int,
        None => 0,
    }
}

/// The courses of `s` whose key is `k`, in their order in `s`.
pub open spec fn quarter_bucket(s: Seq<Course>, k: int) -> Seq<Course> {
    s.filter(|c: Course| quarter_key(c) == k)
}

/// The courses of `s` whose key is at least `k`, in their order in `s`.
pub open spec fn keyed_from(s: Seq<Course>, k: int) -> Seq<Course> {
    s.filter(|c: Course| quarter_key(c) >= k)
}

/// The buckets of keys `0 .. upto` of `s`, one after the other.
pub open spec fn ascending_buckets(s: Seq<Course>, upto: nat) -> Seq<Course>
    decreases upto,
{
    if upto == 0 {
        Seq::empty()
    } else {
        ascending_buckets(s, (upto - 1) as nat) + quarter_bucket(s, upto - 1)
    }
}

/// `s` ordered by quarter, highest quarter first: the stable ascending order
/// by key, read backwards (so courses of one quarter come in reverse order).
pub open spec fn sorted_by_quarter(s: Seq<Course>) -> Seq<Course> {
    ascending_buckets(s, 5).reverse()
}

proof fn lemma_quarter_key_range(c: Course)
    ensures
        0 <= quarter_key(c) <= 4,
{
}

/// Filtering by `p` splits into filtering by `q` and by `r` where `p` is the
/// disjoint union of `q` and `r`.
proof fn lemma_filter_split(
    s: Seq<Course>,
    p: spec_fn(Course) -> bool,
    q: spec_fn(Course) -> bool,
    r: spec_fn(Course) -> bool,
)
    requires
        forall|c: Course| #[trigger] p(c) == (q(c) || r(c)),
        forall|c: Course| !(#[trigger] q(c) && r(c)),
    ensures
        s.filter(p).to_multiset() == s.filter(q).to_multiset().add(s.filter(r).to_multiset()),
    decreases s.len(),
{
    broadcast use vstd::seq_lib::group_to_multiset_ensures;
    broadcast use vstd::multiset::group_multiset_axioms;
    if s.len() == 0 {
        assert(s.filter(p) =~= Seq::empty());
        assert(s.filter(q) =~= Seq::empty());
        assert(s.filter(r) =~= Seq::empty());
        assert(s.filter(p).to_multiset() =~= s.filter(q).to_multiset().add(s.filter(r).to_multiset()));
    } else {
        let t = s.drop_last();
        let x = s.last();
        lemma_filter_split(t, p, q, r);
        assert(s =~= t.push(x));
        t.lemma_filter_push(x, p);
        t.lemma_filter_push(x, q);
        t.lemma_filter_push(x, r);
        assert(s.filter(p).to_multiset() =~= s.filter(q).to_multiset().add(s.filter(r).to_multiset()));
    }
}

/// A filter that keeps nothing of `s` is empty.
proof fn lemma_filter_none(s: Seq<Course>, p: spec_fn(Course) -> bool)
    requires
        forall|i: int| 0 <= i < s.len() ==> !p(#[trigger] s[i]),
    ensures
        s.filter(p) == Seq::<Course>::empty(),
    decreases s.len(),
{
    if s.len() > 0 {
        let t = s.drop_last();
        assert forall|i: int| 0 <= i < t.len() implies !p(#[trigger] t[i]) by {
            assert(t[i] == s[i]);
        }
        lemma_filter_none(t, p);
        assert(s =~= t.push(s.last()));
        t.lemma_filter_push(s.last(), p);
    }
    assert(s.filter(p) =~= Seq::<Course>::empty());
}

/// A filter that keeps all of `s` is `s`.
proof fn lemma_filter_all(s: Seq<Course>, p: spec_fn(Course) -> bool)
    requires
        forall|i: int| 0 <= i < s.len() ==> p(#[trigger] s[i]),
    ensures
        s.filter(p) == s,
    decreases s.len(),
{
    if s.len() > 0 {
        let t = s.drop_last();
        assert forall|i: int| 0 <= i < t.len() implies p(#[trigger] t[i]) by {
            assert(t[i] == s[i]);
        }
        lemma_filter_all(t, p);
        assert(s =~= t.push(s.last()));
        t.lemma_filter_push(s.last(), p);
    }
    assert(s.filter(p) =~= s);
}

/// Where a filter by `p` is empty, so is one by any `q` that implies `p`.
proof fn lemma_filter_empty_narrower(s: Seq<Course>, p: spec_fn(Course) -> bool, q: spec_fn(Course) -> bool)
    requires
        s.filter(p).len() == 0,
        forall|c: Course| #[trigger] q(c) ==> p(c),
    ensures
        s.filter(q).len() == 0,
    decreases s.len(),
{
    if s.len() > 0 {
        let t = s.drop_last();
        assert(s =~= t.push(s.last()));
        t.lemma_filter_push(s.last(), p);
        t.lemma_filter_push(s.last(), q);
        lemma_filter_empty_narrower(t, p, q);
    }
}

/// The buckets below `k`, together with the courses keyed from `k` on, hold
/// every course of `s` exactly once.
proof fn lemma_buckets_partition(s: Seq<Course>, k: nat)
    ensures
        ascending_buckets(s, k).to_multiset().add(keyed_from(s, k as int).to_multiset())
            == s.to_multiset(),
        ascending_buckets(s, k).len() + keyed_from(s, k as int).len() == s.len(),
    decreases k,
{
    broadcast use vstd::seq_lib::group_to_multiset_ensures;
    broadcast use vstd::multiset::group_multiset_axioms;
    if k == 0 {
        assert forall|i: int| 0 <= i < s.len() implies (|c: Course| quarter_key(c) >= 0)(
            #[trigger] s[i],
        ) by {
            lemma_quarter_key_range(s[i]);
        }
        lemma_filter_all(s, |c: Course| quarter_key(c) >= 0);
        assert(ascending_buckets(s, 0).to_multiset() =~= vstd::multiset::Multiset::empty());
        assert(ascending_buckets(s, k).to_multiset().add(keyed_from(s, k as int).to_multiset())
            =~= s.to_multiset());
    } else {
        let j = (k - 1) as nat;
        lemma_buckets_partition(s, j);
        lemma_filter_split(
            s,
            |c: Course| quarter_key(c) >= j,
            |c: Course| quarter_key(c) == j,
            |c: Course| quarter_key(c) >= k,
        );
        vstd::seq_lib::lemma_multiset_commutative(ascending_buckets(s, j), quarter_bucket(s, j as int));
        assert(ascending_buckets(s, k).to_multiset().add(keyed_from(s, k as int).to_multiset())
            =~= s.to_multiset());
    }
    assert(ascending_buckets(s, k).to_multiset().add(keyed_from(s, k as int).to_multiset()).len()
        == s.to_multiset().len());
    assert(ascending_buckets(s, k).to_multiset().len() == ascending_buckets(s, k).len());
    assert(keyed_from(s, k as int).to_multiset().len() == keyed_from(s, k as int).len());
}


/// Once no course is keyed from `k` on, the buckets from `k` on add nothing.
proof fn lemma_buckets_stop(s: Seq<Course>, k: nat, m: nat)
    requires
        keyed_from(s, k as int).len() == 0,
        k <= m,
    ensures
        ascending_buckets(s, m) == ascending_buckets(s, k),
    decreases m - k,
{
    if m > k {
        let j = (m - 1) as nat;
        lemma_buckets_stop(s, k, j);
        lemma_filter_empty_narrower(
            s,
            |c: Course| quarter_key(c) >= k,
            |c: Course| quarter_key(c) == j,
        );
        assert(quarter_bucket(s, j as int) =~= Seq::<Course>::empty());
        assert(ascending_buckets(s, m) =~= ascending_buckets(s, k));
    }
}

/// No course is keyed from 5 on.
proof fn lemma_nothing_keyed_from_five(s: Seq<Course>)
    ensures
        keyed_from(s, 5) == Seq::<Course>::empty(),
{
    assert forall|i: int| 0 <= i < s.len() implies !(|c: Course| quarter_key(c) >= 5)(
        #[trigger] s[i],
    ) by {
        lemma_quarter_key_range(s[i]);
    }
    lemma_filter_none(s, |c: Course| quarter_key(c) >= 5);
}

/// Orders courses by quarter, highest quarter first, by collecting the courses
/// of each quarter in turn and reading the collection backwards.
pub fn primitive_sort_by_quarter(courses_list: Vec<Course>) -> (sorted: Vec<Course>)
    ensures
        sorted@ == sorted_by_quarter(courses_list@),
{
    let ghost s = courses_list@;
    let mut courses_sorted: Vec<Course> = Vec::new();
    let n: usize = courses_list.len();
    let mut i: i32 = 0;
    while courses_sorted.len() != n
        invariant
            0 <= i <= 5,
            n == courses_list.len(),
            s == courses_list@,
            courses_sorted@ == ascending_buckets(s, i as nat),
        decreases 5 - i,
    {
        proof {
            lemma_buckets_partition(s, i as nat);
            if i == 5 {
                lemma_nothing_keyed_from_five(s);
            }
        }
        let ghost before = courses_sorted@;
        let mut j: usize = 0;
        while j < n
            invariant
                0 <= i < 5,
                j <= n,
                n == courses_list.len(),
                s == courses_list@,
                before == ascending_buckets(s, i as nat),
                courses_sorted@ == before + quarter_bucket(s.take(j as int), i as int),
            decreases n - j,
        {
            let course_quarter_number = convert_quarter_string_to_number(&courses_list[j].quarter);
            let key: i32 = match course_quarter_number {
                Some(number) => number,
                None => 0,
            };
            proof {
                assert(s.take(j + 1) =~= s.take(j as int).push(s[j as int]));
                s.take(j as int).lemma_filter_push(s[j as int], |c: Course| quarter_key(c) == i);
            }
            if key == i {
                courses_sorted.push(courses_list[j].clone());
            }
            j += 1;
        }
        proof {
            assert(s.take(n as int) =~= s);
        }
        i += 1;
    }
    proof {
        lemma_buckets_partition(s, i as nat);
        lemma_buckets_stop(s, i as nat, 5);
    }
    let ghost full = courses_sorted@;
    let mut sorted: Vec<Course> = Vec::new();
    while courses_sorted.len() > 0
        invariant
            courses_sorted@.len() <= full.len(),
            courses_sorted@ == full.take(courses_sorted@.len() as int),
            sorted@ == full.subrange(courses_sorted@.len() as int, full.len() as int).reverse(),
        decreases courses_sorted@.len(),
    {
        let ghost m = courses_sorted@.len() as int;
        let course = courses_sorted.pop().unwrap();
        sorted.push(course);
        proof {
            assert(courses_sorted@ =~= full.take(m - 1));
            assert(sorted@ =~= full.subrange(m - 1, full.len() as int).reverse());
        }
    }
    proof {
        assert(full.subrange(0, full.len() as int) =~= full);
    }
    sorted
}


/// The buckets below `k` hold keys below `k`, in ascending order.
proof fn lemma_buckets_ascending(s: Seq<Course>, k: nat)
    ensures
        forall|i: int|
            0 <= i < ascending_buckets(s, k).len() ==> quarter_key(
                #[trigger] ascending_buckets(s, k)[i],
            ) < k,
        forall|i: int, j: int|
            0 <= i < j < ascending_buckets(s, k).len() ==> quarter_key(
                #[trigger] ascending_buckets(s, k)[i],
            ) <= quarter_key(#[trigger] ascending_buckets(s, k)[j]),
    decreases k,
{
    broadcast use Seq::lemma_filter_pred;
    if k > 0 {
        let m = (k - 1) as nat;
        lemma_buckets_ascending(s, m);
        let low = ascending_buckets(s, m);
        let b = quarter_bucket(s, m as int);
        let all = ascending_buckets(s, k);
        assert(all == low + b);
        assert forall|i: int| 0 <= i < b.len() implies quarter_key(#[trigger] b[i]) == m by {
            s.lemma_filter_pred(|c: Course| quarter_key(c) == m, i);
        }
        assert forall|i: int| 0 <= i < all.len() implies quarter_key(#[trigger] all[i]) < k by {
            if i >= low.len() {
                assert(all[i] == b[i - low.len()]);
            } else {
                assert(all[i] == low[i]);
            }
        }
        assert forall|i: int, j: int| 0 <= i < j < all.len() implies quarter_key(
            #[trigger] all[i],
        ) <= quarter_key(#[trigger] all[j]) by {
            if j < low.len() {
                assert(all[i] == low[i]);
                assert(all[j] == low[j]);
            } else if i >= low.len() {
                assert(all[i] == b[i - low.len()]);
                assert(all[j] == b[j - low.len()]);
            } else {
                assert(all[i] == low[i]);
                assert(all[j] == b[j - low.len()]);
            }
        }
    }
}

/// Ordering by quarter keeps every course of the list, each as often as it
/// was given, and nothing else.
pub proof fn lemma_sort_by_quarter_permutes(s: Seq<Course>)
    ensures
        sorted_by_quarter(s).to_multiset() == s.to_multiset(),
        sorted_by_quarter(s).len() == s.len(),
{
    broadcast use vstd::seq_lib::group_to_multiset_ensures;
    broadcast use vstd::multiset::group_multiset_axioms;
    lemma_buckets_partition(s, 5);
    lemma_nothing_keyed_from_five(s);
    ascending_buckets(s, 5).lemma_reverse_to_multiset();
    assert(keyed_from(s, 5).to_multiset() =~= vstd::multiset::Multiset::empty());
    assert(ascending_buckets(s, 5).to_multiset() =~= s.to_multiset());
}

/// In a list ordered by quarter, the quarter keys never increase.
pub proof fn lemma_sort_by_quarter_descending(s: Seq<Course>)
    ensures
        forall|i: int, j: int|
            0 <= i < j < sorted_by_quarter(s).len() ==> quarter_key(
                #[trigger] sorted_by_quarter(s)[i],
            ) >= quarter_key(#[trigger] sorted_by_quarter(s)[j]),
{
    lemma_buckets_ascending(s, 5);
    let a = ascending_buckets(s, 5);
    let r = sorted_by_quarter(s);
    assert forall|i: int, j: int| 0 <= i < j < r.len() implies quarter_key(#[trigger] r[i])
        >= quarter_key(#[trigger] r[j]) by {
        assert(r[i] == a[a.len() - 1 - i]);
        assert(r[j] == a[a.len() - 1 - j]);
    }
}


/// The buckets of keys `upto - 1` down to 0 of `s`, one after the other.
pub open spec fn descending_buckets(s: Seq<Course>, upto: nat) -> Seq<Course>
    decreases upto,
{
    if upto == 0 {
        Seq::empty()
    } else {
        quarter_bucket(s, upto - 1) + descending_buckets(s, (upto - 1) as nat)
    }
}

/// `s` in stable order by quarter, highest quarter first, courses of one
/// quarter in their order in `s`.
pub open spec fn stable_descending_by_quarter(s: Seq<Course>) -> Seq<Course> {
    descending_buckets(s, 5)
}

/// Reversing a concatenation reverses and swaps its parts.
proof fn lemma_reverse_add(a: Seq<Course>, b: Seq<Course>)
    ensures
        (a + b).reverse() == b.reverse() + a.reverse(),
{
    assert((a + b).reverse() =~= b.reverse() + a.reverse());
}

/// Filtering commutes with reversal.
proof fn lemma_filter_reverse(s: Seq<Course>, p: spec_fn(Course) -> bool)
    ensures
        s.reverse().filter(p) == s.filter(p).reverse(),
    decreases s.len(),
{
    if s.len() == 0 {
        assert(s.reverse() =~= s);
        assert(s.filter(p) =~= Seq::<Course>::empty());
        assert(s.filter(p).reverse() =~= Seq::<Course>::empty());
    } else {
        let t = s.drop_last();
        let x = s.last();
        lemma_filter_reverse(t, p);
        assert(s =~= t.push(x));
        assert(s.reverse() =~= seq![x] + t.reverse());
        Seq::filter_distributes_over_add(seq![x], t.reverse(), p);
        Seq::<Course>::empty().lemma_filter_push(x, p);
        assert(Seq::<Course>::empty().push(x) =~= seq![x]);
        assert(Seq::<Course>::empty().filter(p) =~= Seq::<Course>::empty());
        t.lemma_filter_push(x, p);
        if p(x) {
            assert(t.filter(p).push(x).reverse() =~= seq![x] + t.filter(p).reverse());
        } else {
            assert(seq![x].filter(p) + t.filter(p).reverse() =~= t.filter(p).reverse());
        }
    }
}

/// Picking the courses of key `k` from the bucket of key `j` leaves that bucket
/// where `j == k`, and nothing otherwise.
proof fn lemma_bucket_of_bucket(s: Seq<Course>, j: int, k: int)
    ensures
        quarter_bucket(quarter_bucket(s, j), k) == (if j == k {
            quarter_bucket(s, j)
        } else {
            Seq::<Course>::empty()
        }),
{
    broadcast use Seq::lemma_filter_pred;
    let b = quarter_bucket(s, j);
    assert forall|i: int| 0 <= i < b.len() implies quarter_key(#[trigger] b[i]) == j by {
        s.lemma_filter_pred(|c: Course| quarter_key(c) == j, i);
    }
    if j == k {
        lemma_filter_all(b, |c: Course| quarter_key(c) == k);
    } else {
        lemma_filter_none(b, |c: Course| quarter_key(c) == k);
    }
}

/// The bucket of key `k` of the buckets below `m` is the bucket of key `k` of
/// `s` where `k < m`, and empty otherwise.
proof fn lemma_bucket_of_ascending(s: Seq<Course>, m: nat, k: int)
    requires
        k >= 0,
    ensures
        quarter_bucket(ascending_buckets(s, m), k) == (if k < m {
            quarter_bucket(s, k)
        } else {
            Seq::<Course>::empty()
        }),
    decreases m,
{
    if m == 0 {
        assert(ascending_buckets(s, 0).filter(|c: Course| quarter_key(c) == k)
            =~= Seq::<Course>::empty());
    } else {
        let j = (m - 1) as nat;
        lemma_bucket_of_ascending(s, j, k);
        Seq::filter_distributes_over_add(
            ascending_buckets(s, j),
            quarter_bucket(s, j as int),
            |c: Course| quarter_key(c) == k,
        );
        lemma_bucket_of_bucket(s, j as int, k);
        if k < j {
            assert(quarter_bucket(ascending_buckets(s, m), k) =~= quarter_bucket(s, k));
        } else if k == j {
            assert(quarter_bucket(ascending_buckets(s, m), k) =~= quarter_bucket(s, k));
        } else {
            assert(quarter_bucket(ascending_buckets(s, m), k) =~= Seq::<Course>::empty());
        }
    }
}

/// Reading the buckets below `m` of a sorted list backwards gives the buckets
/// below `m` of the original list from the top down, each in original order.
proof fn lemma_resort_buckets(s: Seq<Course>, m: nat)
    requires
        m <= 5,
    ensures
        ascending_buckets(sorted_by_quarter(s), m).reverse() == descending_buckets(s, m),
    decreases m,
{
    let r = sorted_by_quarter(s);
    if m == 0 {
        assert(ascending_buckets(r, 0).reverse() =~= Seq::<Course>::empty());
    } else {
        let j = (m - 1) as nat;
        lemma_resort_buckets(s, j);
        lemma_reverse_add(ascending_buckets(r, j), quarter_bucket(r, j as int));
        lemma_filter_reverse(ascending_buckets(s, 5), |c: Course| quarter_key(c) == j);
        lemma_bucket_of_ascending(s, 5, j as int);
        assert(quarter_bucket(r, j as int) == quarter_bucket(s, j as int).reverse());
        assert(quarter_bucket(s, j as int).reverse().reverse() =~= quarter_bucket(s, j as int));
    }
}

/// Ordering by quarter twice gives the stable order by quarter, highest first,
/// with the courses of each quarter back in their original order.
pub proof fn lemma_sort_by_quarter_twice(s: Seq<Course>)
    ensures
        sorted_by_quarter(sorted_by_quarter(s)) == stable_descending_by_quarter(s),
{
    lemma_resort_buckets(s, 5);
}

/// The pattern whose first match in a course code is the code's prefix.
pub const COURSE_CODE_PATTERN: &'static str = "([A-Z]+)";

#[verifier::external_type_specification]
#[verifier::external_body]
pub struct ExRegexError(regex::Error);

/// What a search with the `regex` crate gives: `None` where the pattern is
/// refused, else the text of the leftmost-first match of the pattern in the
/// text, if there is one.
pub uninterp spec fn regex_first_match(pattern: Seq<char>, text: Seq<char>) -> Option<
    Option<Seq<char>>,
>;

/// The characters of an optional text.
pub open spec fn opt_text(t: Option<String>) -> Option<Seq<char>> {
    match t {
        Some(x) => Some(x@),
        None => None,
    }
}

/// `c` is a capital letter `A`..`Z`.
pub open spec fn is_capital(c: char) -> bool {
    'A' <= c && c <= 'Z'
}

/// The position of the first capital letter at or after `from`, or the
/// length of `t` where there is none.
pub open spec fn first_capital(t: Seq<char>, from: int) -> int
    decreases t.len() - from,
{
    if from >= t.len() || from < 0 {
        t.len() as int
    } else if is_capital(t[from]) {
        from
    } else {
        first_capital(t, from + 1)
    }
}

/// The number of capital letters in a row from `from` on.
pub open spec fn capital_run_len(t: Seq<char>, from: int) -> int
    decreases t.len() - from,
{
    if from >= t.len() || from < 0 || !is_capital(t[from]) {
        0
    } else {
        1 + capital_run_len(t, from + 1)
    }
}

/// The first run of capital letters of `t`, as long as it goes on.
pub open spec fn first_capital_run(t: Seq<char>) -> Option<Seq<char>> {
    let start = first_capital(t, 0);
    if start < t.len() {
        Some(t.subrange(start, start + capital_run_len(t, start)))
    } else {
        None
    }
}

/// Trusted: `regex::Regex::new` on `pattern`, then `Regex::captures` on `text`
/// and the whole match (group 0). `Err` exactly where `Regex::new` refuses the
/// pattern; otherwise the result is named by `regex_first_match`, a function of
/// the two texts alone. For the pattern `([A-Z]+)` the crate's documented
/// leftmost-first, greedy matching gives the first run of capitals; for other
/// patterns which match is picked is not stated here.
#[verifier::external_body]
fn first_regex_match(pattern: &str, text: &str) -> (found: Result<Option<String>, regex::Error>)
    ensures
        found matches Ok(m) ==> regex_first_match(pattern@, text@) == Some(opt_text(m)),
        found is Err ==> regex_first_match(pattern@, text@) is None,
        pattern@ == COURSE_CODE_PATTERN@ ==> found is Ok,
        found matches Ok(m) ==> (pattern@ == COURSE_CODE_PATTERN@ ==> opt_text(m) == first_capital_run(text@)),
{
    let re = regex::Regex::new(pattern)?;
    Ok(re.captures(text).and_then(|caps| caps.get(0)).map(|whole| whole.as_str().to_string()))
}

/// The prefix of a course code: its first run of capital letters, which is
/// the first match of `COURSE_CODE_PATTERN`.
pub open spec fn course_code_prefix(code: Seq<char>) -> Option<Seq<char>> {
    first_capital_run(code)
}

/// The colour of a faculty prefix of a course code.
pub open spec fn color_of_prefix(prefix: Seq<char>) -> TermColor {
    if prefix == "AM"@ || prefix == "TW"@ || prefix == "WI"@ {
        TermColor::Magenta
    } else if prefix == "CESE"@ || prefix == "EE"@ || prefix == "ET"@ {
        TermColor::Red
    } else if prefix == "CS"@ || prefix == "IN"@ || prefix == "CSE"@ || prefix == "RO"@ {
        TermColor::Cyan
    } else if prefix == "WB"@ || prefix == "ME"@ {
        TermColor::Yellow
    } else if prefix == "SC"@ {
        TermColor::Blue
    } else {
        TermColor::Gray
    }
}

/// The faculty prefixes with a colour of their own.
pub open spec fn magenta_prefix(p: Seq<char>) -> bool {
    p == "AM"@ || p == "TW"@ || p == "WI"@
}

/// The faculty prefixes shown in red.
pub open spec fn red_prefix(p: Seq<char>) -> bool {
    p == "CESE"@ || p == "EE"@ || p == "ET"@
}

/// The faculty prefixes shown in cyan.
pub open spec fn cyan_prefix(p: Seq<char>) -> bool {
    p == "CS"@ || p == "IN"@ || p == "CSE"@ || p == "RO"@
}

/// The faculty prefixes shown in yellow.
pub open spec fn yellow_prefix(p: Seq<char>) -> bool {
    p == "WB"@ || p == "ME"@
}

/// Each colour goes to exactly its own prefixes: `AM`, `TW`, `WI` magenta;
/// `CESE`, `EE`, `ET` red; `CS`, `IN`, `CSE`, `RO` cyan; `WB`, `ME` yellow;
/// `SC` blue; every other prefix gray.
pub proof fn lemma_prefix_colors(p: Seq<char>)
    ensures
        (color_of_prefix(p) == TermColor::Magenta) <==> magenta_prefix(p),
        (color_of_prefix(p) == TermColor::Red) <==> red_prefix(p),
        (color_of_prefix(p) == TermColor::Cyan) <==> cyan_prefix(p),
        (color_of_prefix(p) == TermColor::Yellow) <==> yellow_prefix(p),
        (color_of_prefix(p) == TermColor::Blue) <==> p == "SC"@,
        (color_of_prefix(p) == TermColor::Gray) <==> !(magenta_prefix(p) || red_prefix(p)
            || cyan_prefix(p) || yellow_prefix(p) || p == "SC"@),
{
    reveal_strlit("AM");
    reveal_strlit("TW");
    reveal_strlit("WI");
    reveal_strlit("CESE");
    reveal_strlit("EE");
    reveal_strlit("ET");
    reveal_strlit("CS");
    reveal_strlit("IN");
    reveal_strlit("CSE");
    reveal_strlit("RO");
    reveal_strlit("WB");
    reveal_strlit("ME");
    reveal_strlit("SC");
    assert("AM"@ =~= seq!['A', 'M']);
    assert("TW"@ =~= seq!['T', 'W']);
    assert("WI"@ =~= seq!['W', 'I']);
    assert("CESE"@ =~= seq!['C', 'E', 'S', 'E']);
    assert("EE"@ =~= seq!['E', 'E']);
    assert("ET"@ =~= seq!['E', 'T']);
    assert("CS"@ =~= seq!['C', 'S']);
    assert("IN"@ =~= seq!['I', 'N']);
    assert("CSE"@ =~= seq!['C', 'S', 'E']);
    assert("RO"@ =~= seq!['R', 'O']);
    assert("WB"@ =~= seq!['W', 'B']);
    assert("ME"@ =~= seq!['M', 'E']);
    assert("SC"@ =~= seq!['S', 'C']);
}

/// The colour of a faculty prefix.
pub fn prefix_color(prefix: &str) -> (color: TermColor)
    ensures
        color == color_of_prefix(prefix@),
        (color == TermColor::Magenta) <==> magenta_prefix(prefix@),
        (color == TermColor::Red) <==> red_prefix(prefix@),
        (color == TermColor::Cyan) <==> cyan_prefix(prefix@),
        (color == TermColor::Yellow) <==> yellow_prefix(prefix@),
        (color == TermColor::Blue) <==> prefix@ == "SC"@,
        (color == TermColor::Gray) <==> !(magenta_prefix(prefix@) || red_prefix(prefix@)
            || cyan_prefix(prefix@) || yellow_prefix(prefix@) || prefix@ == "SC"@),
{
    proof {
        lemma_prefix_colors(prefix@);
    }
    if text_eq(prefix, "AM") || text_eq(prefix, "TW") || text_eq(prefix, "WI") {
        TermColor::Magenta
    } else if text_eq(prefix, "CESE") || text_eq(prefix, "EE") || text_eq(prefix, "ET") {
        TermColor::Red
    } else if text_eq(prefix, "CS") || text_eq(prefix, "IN") || text_eq(prefix, "CSE") || text_eq(
        prefix,
        "RO",
    ) {
        TermColor::Cyan
    } else if text_eq(prefix, "WB") || text_eq(prefix, "ME") {
        TermColor::Yellow
    } else if text_eq(prefix, "SC") {
        TermColor::Blue
    } else {
        TermColor::Gray
    }
}

/// The colour of a course: that of the prefix of its code.
pub fn get_color_for_course_code(course: Course) -> (color: TermColor)
    requires
        course_code_prefix(course.code@) is Some,
    ensures
        color == color_of_prefix(course_code_prefix(course.code@)->0),
{
    proof {
        reveal_strlit("([A-Z]+)");
    }
    match first_regex_match(COURSE_CODE_PATTERN, course.code.as_str()) {
        Ok(Some(prefix)) => prefix_color(prefix.as_str()),
        _ => {
            proof {
                assert(false);
            }
            TermColor::Gray
        },
    }
}

/// Why a course code has no colour.
#[derive(Clone, Copy, PartialEq, Eq, Debug, Structural)]
pub enum CourseCodeError {
    /// The code has no prefix.
    NoPrefix,
}

/// The colour of a course, or why its code has none.
pub fn course_code_color(course: Course) -> (color: Result<TermColor, CourseCodeError>)
    ensures
        color is Ok <==> course_code_prefix(course.code@) is Some,
        color matches Ok(c) ==> c == color_of_prefix(course_code_prefix(course.code@)->0),
{
    proof {
        reveal_strlit("([A-Z]+)");
    }
    match first_regex_match(COURSE_CODE_PATTERN, course.code.as_str()) {
        Ok(Some(_)) => Ok(get_color_for_course_code(course)),
        _ => Err(CourseCodeError::NoPrefix),
    }
}

/// The courses that are marked active, in their order.
pub fn select_active_courses(courses: &Vec<Course>) -> (active: Vec<Course>)
    ensures
        active@ == courses@.filter(|c: Course| c.active),
{
    let mut active: Vec<Course> = Vec::new();
    let n = courses.len();
    let mut i: usize = 0;
    while i < n
        invariant
            n == courses@.len(),
            i <= n,
            active@ == courses@.take(i as int).filter(|c: Course| c.active),
        decreases n - i,
    {
        proof {
            assert(courses@.take(i + 1) =~= courses@.take(i as int).push(courses@[i as int]));
            courses@.take(i as int).lemma_filter_push(courses@[i as int], |c: Course| c.active);
        }
        if courses[i].active {
            active.push(courses[i].clone());
        }
        i += 1;
    }
    assert(courses@.take(n as int) =~= courses@);
    active
}

impl Course {
    /// The label `code-short` under which the course's directories are named
    /// and the course is listed.
    pub open spec fn label_spec(self) -> Seq<char> {
        self.code@ + "-"@ + self.short@
    }

    /// The label `code-short` of the course.
    pub fn label(&self) -> (label: String)
        ensures
            label@ == self.label_spec(),
    {
        let mut label = self.code.clone();
        label.append("-");
        label.append(self.short.as_str());
        label
    }

    /// The rows of the course information block: a label and a value each.
    pub open spec fn info_rows_spec(self) -> Seq<(Seq<char>, Seq<char>)> {
        seq![
            ("Code: "@, self.code@),
            ("Title: "@, self.title@),
            ("Year: "@, self.year@),
            ("Quarter: "@, self.quarter@),
            ("Active: "@, if self.active { "true"@ } else { "false"@ }),
            ("ECTS: "@, self.credits@),
        ]
    }

    /// The rows of the course information block.
    pub fn info_rows(&self) -> (rows: Vec<(String, String)>)
        ensures
            rows@.map_values(|row: (String, String)| (row.0@, row.1@)) == self.info_rows_spec(),
    {
        let mut rows: Vec<(String, String)> = Vec::new();
        rows.push((String::from_str("Code: "), self.code.clone()));
        rows.push((String::from_str("Title: "), self.title.clone()));
        rows.push((String::from_str("Year: "), self.year.clone()));
        rows.push((String::from_str("Quarter: "), self.quarter.clone()));
        let active = if self.active {
            String::from_str("true")
        } else {
            String::from_str("false")
        };
        rows.push((String::from_str("Active: "), active));
        rows.push((String::from_str("ECTS: "), self.credits.clone()));
        assert(rows@.map_values(|row: (String, String)| (row.0@, row.1@)) =~= self.info_rows_spec());
        rows
    }

    /// The position of the first path that belongs to this course, if any.
    pub fn first_matching_path(&self, paths: &Vec<String>) -> (found: Option<usize>)
        ensures
            found matches Some(i) ==> i < paths@.len() && occurs_in(paths@[i as int]@, self.label_spec())
                && forall|j: int| 0 <= j < i ==> !occurs_in(#[trigger] paths@[j]@, self.label_spec()),
            found is None ==> forall|j: int|
                0 <= j < paths@.len() ==> !occurs_in(#[trigger] paths@[j]@, self.label_spec()),
    {
        let n = paths.len();
        let mut i: usize = 0;
        while i < n
            invariant
                n == paths@.len(),
                i <= n,
                forall|j: int| 0 <= j < i ==> !occurs_in(#[trigger] paths@[j]@, self.label_spec()),
            decreases n - i,
        {
            if self.dir_matches(paths[i].as_str()) {
                return Some(i);
            }
            i += 1;
        }
        None
    }

    /// Whether a directory path belongs to this course: it holds the course's label.
    pub fn dir_matches(&self, path: &str) -> (belongs: bool)
        ensures
            belongs == occurs_in(path@, self.label_spec()),
    {
        let label = self.label();
        text_contains(path, label.as_str())
    }
}

} // verus!
