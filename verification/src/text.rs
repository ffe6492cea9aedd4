//! Character-sequence utilities shared by the parsing and resolution code:
//! plain lexicographic ordering of strings, locating a delimiter, and
//! splitting on a delimiter.

use vstd::prelude::*;
use vstd::relations::total_ordering;

verus! {

/// Plain lexicographic order on character sequences, comparing scalar
/// values position by position.  This is the order in which resolved
/// address lists are stored; it is deliberately *not* a numeric order on
/// dotted-decimal addresses (`"10.0.0.1"` sorts before `"2.0.0.2"`).
pub open spec fn lex_le(a: Seq<char>, b: Seq<char>) -> bool
    decreases a.len(),
{
    if a.len() == 0 {
        true
    } else if b.len() == 0 {
        false
    } else if (a[0] as int) < (b[0] as int) {
        true
    } else if (a[0] as int) > (b[0] as int) {
        false
    } else {
        lex_le(a.drop_first(), b.drop_first())
    }
}

/// `lex_le` as a binary relation value, the form the sequence-sorting
/// lemmas of vstd expect.
pub open spec fn lex_leq() -> spec_fn(Seq<char>, Seq<char>) -> bool {
    |a: Seq<char>, b: Seq<char>| lex_le(a, b)
}

pub proof fn lemma_lex_le_reflexive(a: Seq<char>)
    ensures
        lex_le(a, a),
    decreases a.len(),
{
    if a.len() > 0 {
        lemma_lex_le_reflexive(a.drop_first());
    }
}

pub proof fn lemma_lex_le_connected(a: Seq<char>, b: Seq<char>)
    ensures
        lex_le(a, b) || lex_le(b, a),
    decreases a.len(),
{
    if a.len() > 0 && b.len() > 0 && a[0] == b[0] {
        lemma_lex_le_connected(a.drop_first(), b.drop_first());
    }
}

pub proof fn lemma_lex_le_antisymmetric(a: Seq<char>, b: Seq<char>)
    requires
        lex_le(a, b),
        lex_le(b, a),
    ensures
        a == b,
    decreases a.len(),
{
    if a.len() > 0 {
        assert(b.len() > 0);
        lemma_lex_le_antisymmetric(a.drop_first(), b.drop_first());
        assert(a.drop_first().len() == b.drop_first().len());
        assert(a.len() == b.len());
        assert(a[0] as int == b[0] as int);
        assert forall|i: int| 0 <= i < a.len() implies a[i] == b[i] by {
            if i > 0 {
                assert(a[i] == a.drop_first()[i - 1]);
                assert(b[i] == b.drop_first()[i - 1]);
            }
        }
        assert(a =~= b);
    } else {
        assert(a =~= b);
    }
}

pub proof fn lemma_lex_le_transitive(a: Seq<char>, b: Seq<char>, c: Seq<char>)
    requires
        lex_le(a, b),
        lex_le(b, c),
    ensures
        lex_le(a, c),
    decreases a.len(),
{
    if a.len() > 0 && b.len() > 0 && c.len() > 0 {
        if a[0] == b[0] && b[0] == c[0] {
            lemma_lex_le_transitive(a.drop_first(), b.drop_first(), c.drop_first());
        }
    }
}

/// `lex_le` is a total order, so sorting by it has a unique result.
pub proof fn lemma_lex_total_ordering()
    ensures
        total_ordering(lex_leq()),
{
    let leq = lex_leq();
    assert forall|a: Seq<char>| #[trigger] leq(a, a) by {
        lemma_lex_le_reflexive(a);
    }
    assert forall|a: Seq<char>, b: Seq<char>| #[trigger] leq(a, b) && #[trigger] leq(b, a)
        implies a == b by {
        lemma_lex_le_antisymmetric(a, b);
    }
    assert forall|a: Seq<char>, b: Seq<char>, c: Seq<char>|
        #[trigger] leq(a, b) && #[trigger] leq(b, c) implies leq(a, c) by {
        lemma_lex_le_transitive(a, b, c);
    }
    assert forall|a: Seq<char>, b: Seq<char>| #![trigger leq(a, b)] true implies leq(a, b) || leq(
        b,
        a,
    ) by {
        lemma_lex_le_connected(a, b);
    }
}

/// Compares two strings in plain lexicographic order.
pub fn str_le(a: &str, b: &str) -> (r: bool)
    ensures
        r == lex_le(a@, b@),
{
    let la: usize = a.unicode_len();
    let lb: usize = b.unicode_len();
    let mut i: usize = 0;
    proof {
        assert(a@.skip(0) =~= a@);
        assert(b@.skip(0) =~= b@);
    }
    loop
        invariant
            i <= la,
            i <= lb,
            la == a@.len(),
            lb == b@.len(),
            lex_le(a@, b@) == lex_le(a@.skip(i as int), b@.skip(i as int)),
        decreases la - i,
    {
        if i >= la {
            return true;
        }
        if i >= lb {
            return false;
        }
        let ca = a.get_char(i);
        let cb = b.get_char(i);
        if (ca as u32) < (cb as u32) {
            assert(a@.skip(i as int)[0] == ca);
            assert(b@.skip(i as int)[0] == cb);
            return true;
        }
        if (ca as u32) > (cb as u32) {
            return false;
        }
        proof {
            assert(a@.skip(i as int)[0] == ca);
            assert(b@.skip(i as int)[0] == cb);
            assert(ca == cb);
            assert(a@.skip(i as int).drop_first() =~= a@.skip(i + 1));
            assert(b@.skip(i as int).drop_first() =~= b@.skip(i + 1));
        }
        i = i + 1;
    }
}

/// Index of the first occurrence of `c` in `s`, if any.
pub open spec fn first_index(s: Seq<char>, c: char) -> Option<int>
    decreases s.len(),
{
    if s.len() == 0 {
        Option::None
    } else if s[0] == c {
        Option::Some(0int)
    } else {
        match first_index(s.drop_first(), c) {
            Option::Some(i) => Option::Some(i + 1),
            Option::None => Option::None,
        }
    }
}

pub proof fn lemma_first_index_properties(s: Seq<char>, c: char)
    ensures
        match first_index(s, c) {
            Option::Some(i) => 0 <= i < s.len() && s[i] == c && (forall|j: int|
                0 <= j < i ==> s[j] != c),
            Option::None => forall|j: int| 0 <= j < s.len() ==> s[j] != c,
        },
    decreases s.len(),
{
    if s.len() > 0 && s[0] != c {
        lemma_first_index_properties(s.drop_first(), c);
        match first_index(s.drop_first(), c) {
            Option::Some(i) => {
                assert(s[i + 1] == s.drop_first()[i]);
                assert forall|j: int| 0 <= j < i + 1 implies s[j] != c by {
                    if j > 0 {
                        assert(s.drop_first()[j - 1] == s[j]);
                    }
                }
            },
            Option::None => {
                assert forall|j: int| 0 <= j < s.len() implies s[j] != c by {
                    if j > 0 {
                        assert(s.drop_first()[j - 1] == s[j]);
                    }
                }
            },
        }
    }
}

/// `first_index` is pinned down by the properties of a first occurrence.
pub proof fn lemma_first_index_of_occurrence(s: Seq<char>, c: char, i: int)
    requires
        0 <= i < s.len(),
        s[i] == c,
        forall|j: int| 0 <= j < i ==> s[j] != c,
    ensures
        first_index(s, c) == Option::Some(i),
    decreases s.len(),
{
    if s[0] != c {
        lemma_first_index_of_occurrence(s.drop_first(), c, i - 1);
    }
}

pub proof fn lemma_first_index_absent(s: Seq<char>, c: char)
    requires
        forall|j: int| 0 <= j < s.len() ==> s[j] != c,
    ensures
        first_index(s, c) is None,
    decreases s.len(),
{
    if s.len() > 0 {
        lemma_first_index_absent(s.drop_first(), c);
    }
}

/// Everything before the first occurrence of `c`, or all of `s` when `c`
/// does not occur.
pub open spec fn before_first(s: Seq<char>, c: char) -> Seq<char> {
    match first_index(s, c) {
        Option::Some(i) => s.take(i),
        Option::None => s,
    }
}

/// Finds the first occurrence of `c` in `s`.
pub fn find_char(s: &str, c: char) -> (r: Option<usize>)
    ensures
        match r {
            Option::Some(i) => first_index(s@, c) == Option::Some(i as int),
            Option::None => first_index(s@, c) is None,
        },
{
    let n: usize = s.unicode_len();
    let mut i: usize = 0;
    loop
        invariant
            i <= n,
            n == s@.len(),
            forall|j: int| 0 <= j < i ==> s@[j] != c,
        decreases n - i,
    {
        if i >= n {
            proof {
                lemma_first_index_absent(s@, c);
            }
            return Option::None;
        }
        let ch = s.get_char(i);
        if ch == c {
            proof {
                lemma_first_index_of_occurrence(s@, c, i as int);
            }
            return Option::Some(i);
        }
        i = i + 1;
    }
}

/// Everything of `s` before the first occurrence of `c`.
pub fn before_char(s: &str, c: char) -> (r: String)
    ensures
        r@ == before_first(s@, c),
{
    let n: usize = s.unicode_len();
    match find_char(s, c) {
        Option::Some(i) => {
            proof {
                lemma_first_index_properties(s@, c);
            }
            let part = s.substring_char(0, i);
            assert(part@ =~= s@.take(i as int));
            part.to_owned()
        },
        Option::None => s.to_owned(),
    }
}

/// The pieces of `s` between occurrences of the delimiter `c`, in order.
/// A string without the delimiter is one piece; every delimiter ends a
/// piece, so `n` delimiters give `n + 1` pieces, empty ones included.
pub open spec fn split_by(s: Seq<char>, c: char) -> Seq<Seq<char>>
    decreases s.len(),
{
    if s.len() == 0 {
        seq![Seq::<char>::empty()]
    } else if s[0] == c {
        seq![Seq::<char>::empty()] + split_by(s.drop_first(), c)
    } else {
        let rest = split_by(s.drop_first(), c);
        seq![seq![s[0]] + rest[0]] + rest.drop_first()
    }
}

pub proof fn lemma_split_by_nonempty(s: Seq<char>, c: char)
    ensures
        split_by(s, c).len() >= 1,
    decreases s.len(),
{
    if s.len() > 0 && s[0] == c {
        lemma_split_by_nonempty(s.drop_first(), c);
    }
}

/// Relies on `String::push`: appends the one character to the end of the
/// string.
#[verifier::external_body]
fn push_char(s: &mut String, c: char)
    ensures
        final(s)@ == old(s)@.push(c),
{
    s.push(c);
}

/// Splits `s` into the pieces between occurrences of `c`.
pub fn split_all(s: &str, c: char) -> (r: Vec<String>)
    ensures
        r@.map_values(|t: String| t@) == split_by(s@, c),
{
    let n: usize = s.unicode_len();
    let mut pieces: Vec<String> = Vec::new();
    let mut cur: String = String::new();
    let mut i: usize = 0;
    proof {
        lemma_split_by_nonempty(s@, c);
        assert(s@.skip(0) =~= s@);
        assert(split_by(s@, c) =~= pieces@.map_values(|t: String| t@) + seq![
            cur@ + split_by(s@.skip(0), c)[0],
        ] + split_by(s@.skip(0), c).drop_first());
    }
    loop
        invariant
            i <= n,
            n == s@.len(),
            split_by(s@, c) == pieces@.map_values(|t: String| t@) + seq![
                cur@ + split_by(s@.skip(i as int), c)[0],
            ] + split_by(s@.skip(i as int), c).drop_first(),
        decreases n - i,
    {
        proof {
            lemma_split_by_nonempty(s@.skip(i as int), c);
        }
        if i >= n {
            proof {
                assert(s@.skip(i as int) =~= Seq::<char>::empty());
                assert(cur@ + split_by(s@.skip(i as int), c)[0] =~= cur@);
            }
            let ghost prev = pieces@;
            pieces.push(cur);
            proof {
                assert(pieces@.map_values(|t: String| t@) =~= prev.map_values(|t: String| t@)
                    + seq![pieces@.last()@]);
                assert(pieces@.map_values(|t: String| t@) =~= split_by(s@, c));
            }
            return pieces;
        }
        let ghost rem = split_by(s@.skip(i as int), c);
        let ghost rem2 = split_by(s@.skip(i + 1), c);
        proof {
            lemma_split_by_nonempty(s@.skip(i + 1), c);
            assert(s@.skip(i as int).len() > 0);
            assert(s@.skip(i as int)[0] == s@[i as int]);
            assert(s@.skip(i as int).drop_first() =~= s@.skip(i + 1));
        }
        let ch = s.get_char(i);
        if ch == c {
            proof {
                assert(rem =~= seq![Seq::<char>::empty()] + rem2);
                assert(rem[0] =~= Seq::<char>::empty());
                assert(cur@ + rem[0] =~= cur@);
                assert(rem.drop_first() =~= rem2);
                assert(rem2 =~= seq![rem2[0]] + rem2.drop_first());
            }
            let ghost prev = pieces@;
            pieces.push(cur);
            cur = String::new();
            proof {
                assert(pieces@.map_values(|t: String| t@) =~= prev.map_values(|t: String| t@)
                    + seq![pieces@.last()@]);
                assert(split_by(s@, c) =~= pieces@.map_values(|t: String| t@) + seq![
                    cur@ + rem2[0],
                ] + rem2.drop_first());
            }
        } else {
            proof {
                assert(rem =~= seq![seq![s@[i as int]] + rem2[0]] + rem2.drop_first());
                assert(rem[0] =~= seq![s@[i as int]] + rem2[0]);
                assert(rem.drop_first() =~= rem2.drop_first());
            }
            let ghost old_cur = cur@;
            push_char(&mut cur, ch);
            proof {
                assert(cur@ + rem2[0] =~= old_cur + rem[0]);
            }
        }
        i = i + 1;
    }
}

/// ASCII-case-insensitive equality of two characters: equal outright, or
/// equal once an ASCII capital is taken to its small form.
pub open spec fn ascii_case_eq(a: char, b: char) -> bool {
    a as int == b as int || (65 <= a as int <= 90 && a as int + 32 == b as int) || (65 <= b as int
        <= 90 && b as int + 32 == a as int)
}

/// ASCII-case-insensitive equality of two character sequences.
pub open spec fn seq_case_eq(a: Seq<char>, b: Seq<char>) -> bool {
    a.len() == b.len() && (forall|i: int| 0 <= i < a.len() ==> ascii_case_eq(a[i], b[i]))
}

/// Compares two strings, treating ASCII capitals and smalls alike.
pub fn str_case_eq(a: &str, b: &str) -> (r: bool)
    ensures
        r == seq_case_eq(a@, b@),
{
    let la: usize = a.unicode_len();
    let lb: usize = b.unicode_len();
    if la != lb {
        return false;
    }
    let mut i: usize = 0;
    loop
        invariant
            i <= la,
            la == a@.len(),
            lb == b@.len(),
            la == lb,
            forall|j: int| 0 <= j < i ==> ascii_case_eq(a@[j], b@[j]),
        decreases la - i,
    {
        if i >= la {
            return true;
        }
        let ca = a.get_char(i);
        let cb = b.get_char(i);
        let cau = ca as u32;
        let cbu = cb as u32;
        let same = cau == cbu || (65 <= cau && cau <= 90 && cau + 32 == cbu) || (65 <= cbu && cbu
            <= 90 && cbu + 32 == cau);
        if !same {
            return false;
        }
        i = i + 1;
    }
}

/// Splits `s` at the first occurrence of `c`: the part before it, and,
/// when `c` occurs at index `i`, the part after it.
pub fn split_first(s: &str, c: char) -> (r: (String, Option<String>))
    ensures
        r.0@ == before_first(s@, c),
        match first_index(s@, c) {
            Option::Some(i) => r.1 is Some && r.1->0@ == s@.skip(i + 1),
            Option::None => r.1 is None,
        },
{
    let n: usize = s.unicode_len();
    match find_char(s, c) {
        Option::Some(i) => {
            proof {
                lemma_first_index_properties(s@, c);
            }
            let head = s.substring_char(0, i);
            assert(head@ =~= s@.take(i as int));
            let tail = s.substring_char(i + 1, n);
            assert(tail@ =~= s@.skip(i + 1));
            (head.to_owned(), Option::Some(tail.to_owned()))
        },
        Option::None => (s.to_owned(), Option::None),
    }
}

} // verus!
