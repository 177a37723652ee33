use vstd::prelude::*;
use std::cmp::Ordering;
use crate::text::{flip, char_order};
use crate::profile::int_order;

verus! {

/// Whether `c` is an ASCII digit.
pub open spec fn is_digit(c: char) -> bool {
    '0' <= c && c <= '9'
}

/// Longest run of ASCII digits that `lexical_sort` can read into its `u64`.
pub const MAX_DIGIT_RUN: usize = 19;

/// Whether every run of ASCII digits in `s` is at most `MAX_DIGIT_RUN` long,
/// so that `lexical_sort` reads each one as a 64-bit number.
#[verifier::opaque]
pub open spec fn digit_runs_fit(s: Seq<char>) -> bool {
    forall|i: int| 0 <= i && i + MAX_DIGIT_RUN < s.len() ==> !#[trigger] long_run_at(s, i)
}

/// Whether the `MAX_DIGIT_RUN + 1` characters of `s` from `i` on are all digits.
pub open spec fn long_run_at(s: Seq<char>, i: int) -> bool {
    forall|j: int| i <= j <= i + MAX_DIGIT_RUN ==> is_digit(#[trigger] s[j])
}

/// Length of the run of ASCII digits in `s` from position `i` on.
pub open spec fn digit_run(s: Seq<char>, i: int) -> nat
    decreases s.len() - i,
{
    if 0 <= i < s.len() && is_digit(s[i]) {
        1 + digit_run(s, i + 1)
    } else {
        0
    }
}

/// The natural order of `a` and `b`, both read in step from position `i` on.
/// Where both hold a digit and their digit runs from there differ in length,
/// the shorter run is the smaller number; runs of one length compare digit by
/// digit, as their values do; other characters compare by code point, and a
/// string that ends first is smaller.
pub open spec fn natural_from(a: Seq<char>, b: Seq<char>, i: int) -> Ordering
    decreases a.len() - i,
{
    if i < 0 || i >= a.len() {
        if i >= 0 && i < b.len() { Ordering::Less } else { Ordering::Equal }
    } else if i >= b.len() {
        Ordering::Greater
    } else if is_digit(a[i]) && is_digit(b[i]) && digit_run(a, i) != digit_run(b, i) {
        int_order(digit_run(a, i) as int, digit_run(b, i) as int)
    } else if a[i] != b[i] {
        char_order(a[i], b[i])
    } else {
        natural_from(a, b, i + 1)
    }
}

/// The natural order of two strings: runs of ASCII digits compare as
/// numbers, so `a9` comes before `a10`.
pub open spec fn natural_order(a: Seq<char>, b: Seq<char>) -> Ordering {
    natural_from(a, b, 0)
}

/// Relies on `lexical_sort::natural_cmp`: it walks both strings in step; two
/// ASCII digits start a comparison of the digit runs from there, read in step
/// (a run that ends first is smaller; two runs of one length compare by
/// value, which with at most `MAX_DIGIT_RUN` digits fits its `u64`); other
/// unequal characters compare by code point; a string that ends first is
/// smaller.
#[verifier::external_body]
fn lexical_natural_cmp(a: &str, b: &str) -> (r: Ordering)
    requires
        digit_runs_fit(a@),
        digit_runs_fit(b@),
    ensures
        r == natural_order(a@, b@),
{
    lexical_sort::natural_cmp(a, b)
}

fn digit_run_exec(s: &str, n: usize, i: usize) -> (r: usize)
    requires
        n == s@.len(),
        i <= n,
    ensures
        r == digit_run(s@, i as int),
{
    let mut j: usize = i;
    while j < n && is_digit_exec(s.get_char(j))
        invariant
            n == s@.len(),
            i <= j <= n,
            digit_run(s@, i as int) == (j - i) + digit_run(s@, j as int),
        decreases n - j,
    {
        j = j + 1;
    }
    j - i
}

fn is_digit_exec(c: char) -> (r: bool)
    ensures
        r == is_digit(c),
{
    '0' <= c && c <= '9'
}

/// The natural order computed character by character, for strings whose
/// digit runs are too long for `lexical_sort`.
fn natural_cmp_by_runs(a: &str, b: &str) -> (r: Ordering)
    ensures
        r == natural_order(a@, b@),
{
    let n = a.unicode_len();
    let m = b.unicode_len();
    let mut i: usize = 0;
    while i < n && i < m
        invariant
            n == a@.len(),
            m == b@.len(),
            i <= n,
            i <= m,
            natural_from(a@, b@, i as int) == natural_from(a@, b@, 0),
        decreases n - i,
    {
        let x = a.get_char(i);
        let y = b.get_char(i);
        if is_digit_exec(x) && is_digit_exec(y) {
            let ra = digit_run_exec(a, n, i);
            let rb = digit_run_exec(b, m, i);
            if ra < rb {
                return Ordering::Less;
            } else if ra > rb {
                return Ordering::Greater;
            }
        }
        if x != y {
            if x < y {
                return Ordering::Less;
            } else {
                return Ordering::Greater;
            }
        }
        i = i + 1;
    }
    if i < n {
        Ordering::Greater
    } else if i < m {
        Ordering::Less
    } else {
        Ordering::Equal
    }
}

/// Compares two strings in natural order. `lexical_sort::natural_cmp` does
/// the work; where a digit run is too long for the `u64` it reads runs into,
/// the same order is computed here.
pub fn natural_cmp(a: &str, b: &str) -> (r: Ordering)
    ensures
        r == natural_order(a@, b@),
        natural_order(b@, a@) == flip(r),
        (r == Ordering::Equal) == (a@ == b@),
{
    let r = if fits_natural_order(a) && fits_natural_order(b) {
        lexical_natural_cmp(a, b)
    } else {
        natural_cmp_by_runs(a, b)
    };
    proof {
        lemma_natural_order_total(a@, b@, a@);
    }
    r
}

proof fn lemma_digit_run_same(a: Seq<char>, b: Seq<char>, i: int)
    requires
        0 <= i,
        a.len() == b.len(),
        a.skip(i) =~= b.skip(i),
    ensures
        digit_run(a, i) == digit_run(b, i),
    decreases a.len() - i,
{
    if i < a.len() {
        assert(a[i] == a.skip(i)[0] && b[i] == b.skip(i)[0]);
        assert(a.skip(i + 1) =~= b.skip(i + 1)) by {
            assert forall|k: int| 0 <= k < a.skip(i + 1).len() implies #[trigger] a.skip(i + 1)[k] == b.skip(i + 1)[k] by {
                assert(a.skip(i + 1)[k] == a.skip(i)[k + 1]);
                assert(b.skip(i + 1)[k] == b.skip(i)[k + 1]);
            }
        }
        lemma_digit_run_same(a, b, i + 1);
    }
}

proof fn lemma_natural_from_equal(a: Seq<char>, b: Seq<char>, i: int)
    requires
        0 <= i <= a.len(),
        i <= b.len(),
    ensures
        (natural_from(a, b, i) == Ordering::Equal) <==> (a.len() == b.len() && a.skip(i) =~= b.skip(i)),
    decreases a.len() - i,
{
    if i < a.len() && i < b.len() {
        if a.len() == b.len() && a.skip(i) =~= b.skip(i) {
            lemma_digit_run_same(a, b, i);
            assert(a[i] == a.skip(i)[0] && b[i] == b.skip(i)[0]);
            assert(a.skip(i + 1) =~= b.skip(i + 1)) by {
                assert forall|k: int| 0 <= k < a.skip(i + 1).len() implies #[trigger] a.skip(i + 1)[k] == b.skip(i + 1)[k] by {
                    assert(a.skip(i + 1)[k] == a.skip(i)[k + 1]);
                    assert(b.skip(i + 1)[k] == b.skip(i)[k + 1]);
                }
            }
            lemma_natural_from_equal(a, b, i + 1);
        } else if a[i] == b[i] && !(is_digit(a[i]) && is_digit(b[i]) && digit_run(a, i) != digit_run(b, i)) {
            lemma_natural_from_equal(a, b, i + 1);
            if a.len() == b.len() && a.skip(i + 1) =~= b.skip(i + 1) {
                assert(a.skip(i) =~= b.skip(i)) by {
                    assert forall|k: int| 0 <= k < a.skip(i).len() implies #[trigger] a.skip(i)[k] == b.skip(i)[k] by {
                        if k > 0 {
                            assert(a.skip(i)[k] == a.skip(i + 1)[k - 1]);
                            assert(b.skip(i)[k] == b.skip(i + 1)[k - 1]);
                        }
                    }
                }
            }
        }
    } else if i == a.len() && i < b.len() {
        assert(a.skip(i).len() != b.skip(i).len());
    }
}

proof fn lemma_natural_from_flip(a: Seq<char>, b: Seq<char>, i: int)
    requires
        0 <= i,
    ensures
        natural_from(b, a, i) == flip(natural_from(a, b, i)),
    decreases a.len() - i,
{
    if i < a.len() && i < b.len() && a[i] == b[i] && !(is_digit(a[i]) && is_digit(b[i]) && digit_run(a, i)
        != digit_run(b, i)) {
        lemma_natural_from_flip(a, b, i + 1);
    }
}

proof fn lemma_digit_run_pos(s: Seq<char>, i: int)
    requires
        0 <= i < s.len(),
        is_digit(s[i]),
    ensures
        digit_run(s, i) >= 1,
        digit_run(s, i) == 1 + digit_run(s, i + 1),
{
}

proof fn lemma_natural_from_trans(a: Seq<char>, b: Seq<char>, c: Seq<char>, i: int)
    requires
        0 <= i,
        natural_from(a, b, i) == Ordering::Less,
        natural_from(b, c, i) == Ordering::Less,
    ensures
        natural_from(a, c, i) == Ordering::Less,
    decreases a.len() - i,
{
    if i < a.len() && i < b.len() && i < c.len() {
        if is_digit(a[i]) {
            lemma_digit_run_pos(a, i);
        }
        if is_digit(b[i]) {
            lemma_digit_run_pos(b, i);
        }
        if is_digit(c[i]) {
            lemma_digit_run_pos(c, i);
        }
        if a[i] == b[i] && b[i] == c[i] && !(is_digit(a[i]) && digit_run(a, i) != digit_run(b, i)) && !(
        is_digit(b[i]) && digit_run(b, i) != digit_run(c, i)) {
            lemma_natural_from_trans(a, b, c, i + 1);
        }
    }
}

/// The natural order is a strict total order: it is `Equal` exactly on equal
/// strings, swapping the arguments reverses it, and `Less` is transitive.
pub proof fn lemma_natural_order_total(a: Seq<char>, b: Seq<char>, c: Seq<char>)
    ensures
        (natural_order(a, b) == Ordering::Equal) <==> a == b,
        natural_order(b, a) == flip(natural_order(a, b)),
        natural_order(a, b) == Ordering::Less && natural_order(b, c) == Ordering::Less ==> natural_order(a, c)
            == Ordering::Less,
{
    lemma_natural_from_equal(a, b, 0);
    assert(a.skip(0) =~= a);
    assert(b.skip(0) =~= b);
    lemma_natural_from_flip(a, b, 0);
    if natural_order(a, b) == Ordering::Less && natural_order(b, c) == Ordering::Less {
        lemma_natural_from_trans(a, b, c, 0);
    }
}

/// Digit runs compare as numbers: `a9` comes before `a10`, and `a2` before
/// `a10`.
pub proof fn lemma_natural_order_examples()
    ensures
        natural_order(seq!['a', '9'], seq!['a', '1', '0']) == Ordering::Less,
        natural_order(seq!['a', '2'], seq!['a', '1', '0']) == Ordering::Less,
{
    let a9 = seq!['a', '9'];
    let a2 = seq!['a', '2'];
    let a10 = seq!['a', '1', '0'];
    assert(digit_run(a9, 2) == 0);
    assert(digit_run(a9, 1) == 1);
    assert(digit_run(a2, 2) == 0);
    assert(digit_run(a2, 1) == 1);
    assert(digit_run(a10, 3) == 0);
    assert(digit_run(a10, 2) == 1);
    assert(digit_run(a10, 1) == 2);
    assert(natural_from(a9, a10, 1) == Ordering::Less);
    assert(natural_from(a2, a10, 1) == Ordering::Less);
}

/// Whether `s` has no run of ASCII digits longer than `MAX_DIGIT_RUN`.
pub fn fits_natural_order(s: &str) -> (r: bool)
    ensures
        r == digit_runs_fit(s@),
{
    reveal(digit_runs_fit);
    let n = s.unicode_len();
    let mut run: usize = 0;
    let mut i: usize = 0;
    while i < n
        invariant
            n == s@.len(),
            i <= n,
            run <= MAX_DIGIT_RUN,
            run <= i,
            forall|j: int| i - run <= j < i ==> is_digit(#[trigger] s@[j]),
            run < i ==> !is_digit(s@[i - run - 1]),
            forall|k: int| 0 <= k && k + MAX_DIGIT_RUN < i ==> !#[trigger] long_run_at(s@, k),
        decreases n - i,
    {
        let c = s.get_char(i);
        if '0' <= c && c <= '9' {
            if run == MAX_DIGIT_RUN {
                assert(!digit_runs_fit(s@)) by {
                    reveal(digit_runs_fit);
                    let k = i - MAX_DIGIT_RUN;
                    assert forall|j: int| k <= j <= k + MAX_DIGIT_RUN implies is_digit(#[trigger] s@[j]) by {
                        if j < i {
                            assert(i - run <= j);
                        }
                    }
                    assert(long_run_at(s@, k));
                }
                return false;
            }
            run = run + 1;
        } else {
            run = 0;
        }
        i = i + 1;
        assert forall|k: int| 0 <= k && k + MAX_DIGIT_RUN < i implies !#[trigger] long_run_at(s@, k) by {
            if k + MAX_DIGIT_RUN == i - 1 {
                if run == 0 {
                    assert(!is_digit(s@[i - 1]));
                } else {
                    assert(!is_digit(s@[i - run - 1]));
                }
            }
        }
    }
    true
}

} // verus!
