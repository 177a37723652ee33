use vstd::prelude::*;
use std::cmp::Ordering;

verus! {

/// Compares two characters by their code points.
pub open spec fn char_order(a: char, b: char) -> Ordering {
    if a < b {
        Ordering::Less
    } else if a == b {
        Ordering::Equal
    } else {
        Ordering::Greater
    }
}

/// Lexicographic order of `a` and `b`, looking from position `i` on.
pub open spec fn lex_from(a: Seq<char>, b: Seq<char>, i: int) -> Ordering
    decreases a.len() - i,
{
    if i < 0 || i >= a.len() {
        if i >= 0 && i < b.len() { Ordering::Less } else { Ordering::Equal }
    } else if i >= b.len() {
        Ordering::Greater
    } else if a[i] != b[i] {
        char_order(a[i], b[i])
    } else {
        lex_from(a, b, i + 1)
    }
}

/// The plain lexicographic order of two strings, character by character.
pub open spec fn lex_order(a: Seq<char>, b: Seq<char>) -> Ordering {
    lex_from(a, b, 0)
}

/// The reverse of an ordering.
pub open spec fn flip(o: Ordering) -> Ordering {
    match o {
        Ordering::Less => Ordering::Greater,
        Ordering::Equal => Ordering::Equal,
        Ordering::Greater => Ordering::Less,
    }
}

/// ASCII lower case of one character; other characters stay as they are.
pub open spec fn ascii_lower(c: char) -> char {
    if 'A' <= c && c <= 'Z' {
        (((c as u8) + 32) as u8) as char
    } else {
        c
    }
}

/// Equality of two strings when ASCII letters are compared without case.
pub open spec fn eq_fold(a: Seq<char>, b: Seq<char>) -> bool {
    a.len() == b.len() && forall|i: int| 0 <= i < a.len() ==> ascii_lower(#[trigger] a[i]) == ascii_lower(b[i])
}

proof fn lemma_lex_from_equal(a: Seq<char>, b: Seq<char>, i: int)
    requires
        0 <= i <= a.len(),
        i <= b.len(),
    ensures
        (lex_from(a, b, i) == Ordering::Equal) <==> (a.len() == b.len() && a.skip(i) =~= b.skip(i)),
    decreases a.len() - i,
{
    if i < a.len() && i < b.len() && a[i] == b[i] {
        lemma_lex_from_equal(a, b, i + 1);
        if a.len() == b.len() && a.skip(i + 1) =~= b.skip(i + 1) {
            assert(a.skip(i) =~= b.skip(i)) by {
                assert forall|j: int| 0 <= j < a.skip(i).len() implies a.skip(i)[j] == b.skip(i)[j] by {
                    if j > 0 {
                        assert(a.skip(i)[j] == a.skip(i + 1)[j - 1]);
                        assert(b.skip(i)[j] == b.skip(i + 1)[j - 1]);
                    }
                }
            }
        }
        if a.len() == b.len() && a.skip(i) =~= b.skip(i) {
            assert forall|j: int| 0 <= j < a.skip(i + 1).len() implies #[trigger] a.skip(i + 1)[j] == b.skip(i + 1)[j] by {
                assert(a.skip(i + 1)[j] == a.skip(i)[j + 1]);
                assert(b.skip(i + 1)[j] == b.skip(i)[j + 1]);
            }
            assert(a.skip(i + 1) =~= b.skip(i + 1));
        }
    } else if i < a.len() && i < b.len() {
        assert(a.skip(i)[0] != b.skip(i)[0]);
    } else if i == a.len() && i < b.len() {
        assert(a.skip(i).len() != b.skip(i).len());
    }
}

proof fn lemma_lex_from_flip(a: Seq<char>, b: Seq<char>, i: int)
    requires
        0 <= i,
    ensures
        lex_from(b, a, i) == flip(lex_from(a, b, i)),
    decreases a.len() - i,
{
    if i < a.len() && i < b.len() && a[i] == b[i] {
        lemma_lex_from_flip(a, b, i + 1);
    }
}

proof fn lemma_lex_from_trans(a: Seq<char>, b: Seq<char>, c: Seq<char>, i: int)
    requires
        0 <= i,
        lex_from(a, b, i) == Ordering::Less,
        lex_from(b, c, i) == Ordering::Less,
    ensures
        lex_from(a, c, i) == Ordering::Less,
    decreases a.len() - i,
{
    if i < a.len() && i < b.len() && i < c.len() && a[i] == b[i] && b[i] == c[i] {
        lemma_lex_from_trans(a, b, c, i + 1);
    }
}

/// The lexicographic order is a strict total order: it is `Equal` exactly on
/// equal strings, swapping the arguments reverses it, and `Less` is transitive.
pub proof fn lemma_lex_order_total(a: Seq<char>, b: Seq<char>, c: Seq<char>)
    ensures
        (lex_order(a, b) == Ordering::Equal) <==> a == b,
        lex_order(b, a) == flip(lex_order(a, b)),
        lex_order(a, b) == Ordering::Less && lex_order(b, c) == Ordering::Less ==> lex_order(a, c)
            == Ordering::Less,
{
    lemma_lex_from_equal(a, b, 0);
    assert(a.skip(0) =~= a);
    assert(b.skip(0) =~= b);
    lemma_lex_from_flip(a, b, 0);
    if lex_order(a, b) == Ordering::Less && lex_order(b, c) == Ordering::Less {
        lemma_lex_from_trans(a, b, c, 0);
    }
}

/// Compares two strings lexicographically, character by character.
pub fn lex_cmp(a: &str, b: &str) -> (r: Ordering)
    ensures
        r == lex_order(a@, b@),
{
    let n = a.unicode_len();
    let m = b.unicode_len();
    let mut i: usize = 0;
    while i < n && i < m
        invariant
            n == a@.len(),
            m == b@.len(),
            i <= n,
            i <= m,
            lex_from(a@, b@, i as int) == lex_from(a@, b@, 0),
        decreases n - i,
    {
        let x = a.get_char(i);
        let y = b.get_char(i);
        if x != y {
            if x < y {
                return Ordering::Less;
            } else {
                return Ordering::Greater;
            }
        }
        i = i + 1;
    }
    if i < n {
        Ordering::Greater
    } else if i < m {
        Ordering::Less
    } else {
        Ordering::Equal
    }
}

/// Whether two strings hold the same characters.
pub fn same_text(a: &str, b: &str) -> (r: bool)
    ensures
        r == (a@ == b@),
{
    let n = a.unicode_len();
    let m = b.unicode_len();
    if n != m {
        return false;
    }
    let mut i: usize = 0;
    while i < n
        invariant
            n == a@.len(),
            m == b@.len(),
            n == m,
            i <= n,
            forall|j: int| 0 <= j < i ==> a@[j] == b@[j],
        decreases n - i,
    {
        if a.get_char(i) != b.get_char(i) {
            return false;
        }
        i = i + 1;
    }
    assert(a@ =~= b@);
    true
}

/// Whether two strings are equal when ASCII letters are compared without case.
pub fn eq_ignore_ascii_case(a: &str, b: &str) -> (r: bool)
    ensures
        r == eq_fold(a@, b@),
{
    let n = a.unicode_len();
    let m = b.unicode_len();
    if n != m {
        return false;
    }
    let mut i: usize = 0;
    while i < n
        invariant
            n == a@.len(),
            m == b@.len(),
            n == m,
            i <= n,
            forall|j: int| 0 <= j < i ==> ascii_lower(#[trigger] a@[j]) == ascii_lower(b@[j]),
        decreases n - i,
    {
        if lower_char(a.get_char(i)) != lower_char(b.get_char(i)) {
            return false;
        }
        i = i + 1;
    }
    true
}

fn lower_char(c: char) -> (r: char)
    ensures
        r == ascii_lower(c),
{
    if 'A' <= c && c <= 'Z' {
        ((c as u8) + 32) as char
    } else {
        c
    }
}

} // verus!
