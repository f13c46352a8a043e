//! Character-level helpers on strings: reading a `str` as characters and
//! building `String`s.

use vstd::prelude::*;
use vstd::relations::{sorted_by, total_ordering};

verus! {

/// `String::push` appends one character.
pub assume_specification[ String::push ](s: &mut String, ch: char)
    ensures
        final(s)@ == old(s)@.push(ch),
;

/// The characters of `s`, in order.
pub fn chars_of(s: &str) -> (v: Vec<char>)
    ensures
        v@ == s@,
{
    let mut v: Vec<char> = Vec::new();
    for c in it: s.chars()
        invariant
            v@ == it.seq().take(it.index()),
    {
        v.push(c);
    }
    v
}

/// The uppercase mapping of a character outside ASCII, as the Unicode
/// character database gives it (one or more characters).
pub uninterp spec fn unicode_uppercase(c: char) -> Seq<char>;

pub open spec fn is_ascii_lower(c: char) -> bool {
    'a' <= c && c <= 'z'
}

/// The uppercase mapping of a character: ASCII lowercase letters map to the
/// corresponding capital letter, other ASCII characters to themselves.
pub open spec fn char_upper(c: char) -> Seq<char> {
    if is_ascii_lower(c) {
        seq![((c as u32) - 32) as char]
    } else if (c as u32) < 128 {
        seq![c]
    } else {
        unicode_uppercase(c)
    }
}

/// `char::to_uppercase`, collected into a `String`.
///
/// Trusted: the result is the Unicode uppercase mapping of `c`; for ASCII
/// characters that is the capital letter of a lowercase letter and the
/// character itself otherwise, as `char::to_uppercase` documents.
#[verifier::external_body]
pub(crate) fn char_to_uppercase(c: char) -> (r: String)
    ensures
        r@ == char_upper(c),
        (c as u32) >= 128 ==> r@ == unicode_uppercase(c),
{
    c.to_uppercase().collect::<String>()
}


// ---------------------------------------------------------------------------
// Lexicographic order on character sequences
// ---------------------------------------------------------------------------

/// `a` comes no later than `b` in lexicographic order by code point (the
/// order of `str`'s `Ord`, since UTF-8 preserves code point order).
pub open spec fn lex_le(a: Seq<char>, b: Seq<char>) -> bool
    decreases a.len(),
{
    if a.len() == 0 {
        true
    } else if b.len() == 0 {
        false
    } else if a[0] != b[0] {
        a[0] < b[0]
    } else {
        lex_le(a.drop_first(), b.drop_first())
    }
}

/// `lex_le` as a relation.
pub open spec fn lex_leq() -> spec_fn(Seq<char>, Seq<char>) -> bool {
    |a: Seq<char>, b: Seq<char>| lex_le(a, b)
}

proof fn lemma_lex_refl(a: Seq<char>)
    ensures
        lex_le(a, a),
    decreases a.len(),
{
    if a.len() > 0 {
        lemma_lex_refl(a.drop_first());
    }
}

proof fn lemma_lex_antisym(a: Seq<char>, b: Seq<char>)
    requires
        lex_le(a, b),
        lex_le(b, a),
    ensures
        a == b,
    decreases a.len(),
{
    if a.len() > 0 && b.len() > 0 {
        lemma_lex_antisym(a.drop_first(), b.drop_first());
        assert(a =~= seq![a[0]] + a.drop_first());
        assert(b =~= seq![b[0]] + b.drop_first());
    }
    assert(a =~= b);
}

proof fn lemma_lex_trans(a: Seq<char>, b: Seq<char>, c: Seq<char>)
    requires
        lex_le(a, b),
        lex_le(b, c),
    ensures
        lex_le(a, c),
    decreases a.len(),
{
    if a.len() > 0 && b.len() > 0 && c.len() > 0 && a[0] == b[0] && b[0] == c[0] {
        lemma_lex_trans(a.drop_first(), b.drop_first(), c.drop_first());
    }
}

proof fn lemma_lex_total(a: Seq<char>, b: Seq<char>)
    ensures
        lex_le(a, b) || lex_le(b, a),
    decreases a.len(),
{
    if a.len() > 0 && b.len() > 0 && a[0] == b[0] {
        lemma_lex_total(a.drop_first(), b.drop_first());
    }
}

/// Lexicographic order is a total order.
pub proof fn lemma_lex_total_ordering()
    ensures
        total_ordering(lex_leq()),
{
    assert forall|x: Seq<char>| #[trigger] (lex_leq())(x, x) by {
        lemma_lex_refl(x);
    }
    assert forall|x: Seq<char>, y: Seq<char>|
        #[trigger] (lex_leq())(x, y) && #[trigger] (lex_leq())(y, x) implies x == y by {
        lemma_lex_antisym(x, y);
    }
    assert forall|x: Seq<char>, y: Seq<char>, z: Seq<char>|
        #[trigger] (lex_leq())(x, y) && #[trigger] (lex_leq())(y, z) implies (lex_leq())(x, z) by {
        lemma_lex_trans(x, y, z);
    }
    assert forall|x: Seq<char>, y: Seq<char>|
        #[trigger] (lex_leq())(x, y) || #[trigger] (lex_leq())(y, x) by {
        lemma_lex_total(x, y);
    }
}

/// Whether `a` comes no later than `b` in lexicographic order.
fn chars_le(a: &Vec<char>, b: &Vec<char>) -> (r: bool)
    ensures
        r == lex_le(a@, b@),
{
    let mut i: usize = 0;
    assert(a@.skip(0) =~= a@);
    assert(b@.skip(0) =~= b@);
    while i < a.len() && i < b.len() && a[i] == b[i]
        invariant
            i <= a@.len(),
            i <= b@.len(),
            lex_le(a@, b@) == lex_le(a@.skip(i as int), b@.skip(i as int)),
        decreases a@.len() - i,
    {
        assert(a@.skip(i as int).drop_first() =~= a@.skip(i + 1));
        assert(b@.skip(i as int).drop_first() =~= b@.skip(i + 1));
        i += 1;
    }
    if i == a.len() {
        true
    } else if i == b.len() {
        false
    } else {
        a[i] < b[i]
    }
}

/// Whether `a` comes no later than `b` in lexicographic order.
pub fn str_le(a: &str, b: &str) -> (r: bool)
    ensures
        r == lex_le(a@, b@),
{
    let ca = chars_of(a);
    let cb = chars_of(b);
    chars_le(&ca, &cb)
}

/// The views of a sequence of strings.
pub open spec fn strings_view(v: Seq<String>) -> Seq<Seq<char>> {
    v.map_values(|s: String| s@)
}

proof fn lemma_multiset_insert<A>(s: Seq<A>, p: int, a: A)
    requires
        0 <= p <= s.len(),
    ensures
        s.insert(p, a).to_multiset() =~= s.to_multiset().insert(a),
{
    broadcast use vstd::seq_lib::group_to_multiset_ensures, vstd::multiset::group_multiset_axioms;

    let l = s.subrange(0, p);
    let r = s.subrange(p, s.len() as int);
    assert(s =~= l + r);
    vstd::seq_lib::lemma_multiset_commutative(l.push(a), r);
    vstd::seq_lib::lemma_multiset_commutative(l, r);
}

/// Two sequences sorted by a total order with the same elements are equal.
pub proof fn lemma_sorted_unique(a: Seq<Seq<char>>, b: Seq<Seq<char>>)
    requires
        sorted_by(a, lex_leq()),
        sorted_by(b, lex_leq()),
        a.to_multiset() == b.to_multiset(),
    ensures
        a == b,
    decreases a.len(),
{
    broadcast use vstd::seq_lib::group_to_multiset_ensures, vstd::multiset::group_multiset_axioms;

    lemma_lex_total_ordering();
    if a.len() == 0 {
        assert(b.to_multiset().len() == 0);
        assert(b =~= a);
    } else {
        assert(a.to_multiset().len() == a.len());
        assert(b.to_multiset().len() == b.len());
        assert(b.len() > 0);
        assert(a.contains(a[0]));
        assert(a.to_multiset().count(a[0]) > 0);
        assert(b.contains(a[0]));
        assert(b.contains(b[0]));
        assert(b.to_multiset().count(b[0]) > 0);
        assert(a.contains(b[0]));
        let i = choose|i: int| 0 <= i < b.len() && b[i] == a[0];
        let j = choose|j: int| 0 <= j < a.len() && a[j] == b[0];
        if i > 0 {
            assert((lex_leq())(b[0], b[i]));
        }
        if j > 0 {
            assert((lex_leq())(a[0], a[j]));
        }
        assert((lex_leq())(b[0], a[0]));
        assert((lex_leq())(a[0], b[0]));
        assert(a[0] == b[0]);
        assert(a.remove(0) =~= a.drop_first());
        assert(b.remove(0) =~= b.drop_first());
        assert(a.drop_first().to_multiset() == b.drop_first().to_multiset());
        assert(sorted_by(a.drop_first(), lex_leq())) by {
            assert forall|x: int, y: int| 0 <= x < y < a.drop_first().len() implies #[trigger] (lex_leq())(
                a.drop_first()[x],
                a.drop_first()[y],
            ) by {
                assert((lex_leq())(a[x + 1], a[y + 1]));
            }
        }
        assert(sorted_by(b.drop_first(), lex_leq())) by {
            assert forall|x: int, y: int| 0 <= x < y < b.drop_first().len() implies #[trigger] (lex_leq())(
                b.drop_first()[x],
                b.drop_first()[y],
            ) by {
                assert((lex_leq())(b[x + 1], b[y + 1]));
            }
        }
        lemma_sorted_unique(a.drop_first(), b.drop_first());
        assert(a =~= seq![a[0]] + a.drop_first());
        assert(b =~= seq![b[0]] + b.drop_first());
    }
}

/// The strings of `v` in lexicographic order.
pub fn sort_strings(v: &Vec<String>) -> (r: Vec<String>)
    ensures
        strings_view(r@) == strings_view(v@).sort_by(lex_leq()),
{
    let ghost sv = strings_view(v@);
    let mut r: Vec<String> = Vec::new();
    proof {
        lemma_lex_total_ordering();
        assert(sv.take(0) =~= Seq::<Seq<char>>::empty());
        assert(strings_view(r@) =~= Seq::<Seq<char>>::empty());
    }
    let mut i: usize = 0;
    while i < v.len()
        invariant
            i <= v@.len(),
            sv == strings_view(v@),
            total_ordering(lex_leq()),
            sorted_by(strings_view(r@), lex_leq()),
            strings_view(r@).to_multiset() == sv.take(i as int).to_multiset(),
        decreases v@.len() - i,
    {
        let x = v[i].clone();
        let ghost rv = strings_view(r@);
        let mut p: usize = 0;
        while p < r.len() && str_le(r[p].as_str(), x.as_str())
            invariant
                p <= r@.len(),
                rv == strings_view(r@),
                forall|q: int| 0 <= q < p ==> lex_le(#[trigger] rv[q], x@),
            decreases r@.len() - p,
        {
            p += 1;
        }
        proof {
            if p < rv.len() {
                lemma_lex_total(rv[p as int], x@);
            }
        }
        r.insert(p, x);
        proof {
            let nv = strings_view(r@);
            assert(nv =~= rv.insert(p as int, x@));
            assert forall|a: int, b: int| 0 <= a < b < nv.len() implies #[trigger] (lex_leq())(
                nv[a],
                nv[b],
            ) by {
                if b < p {
                    assert((lex_leq())(rv[a], rv[b]));
                } else if b == p {
                    assert(lex_le(rv[a], x@));
                } else if a == p {
                    assert(lex_le(x@, rv[p as int]));
                    if b - 1 > p {
                        assert((lex_leq())(rv[p as int], rv[b - 1]));
                        lemma_lex_trans(x@, rv[p as int], rv[b - 1]);
                    }
                } else if a < p {
                    assert(lex_le(rv[a], x@));
                    assert(lex_le(x@, rv[p as int]));
                    lemma_lex_trans(rv[a], x@, rv[p as int]);
                    if b - 1 > p {
                        assert((lex_leq())(rv[p as int], rv[b - 1]));
                        lemma_lex_trans(rv[a], rv[p as int], rv[b - 1]);
                    }
                } else {
                    assert((lex_leq())(rv[a - 1], rv[b - 1]));
                }
            }
            lemma_multiset_insert(rv, p as int, x@);
            assert(sv.take(i + 1) =~= sv.take(i as int).push(x@));
            broadcast use vstd::seq_lib::group_to_multiset_ensures;
        }
        i += 1;
    }
    proof {
        assert(sv.take(v@.len() as int) =~= sv);
        sv.lemma_sort_by_ensures(lex_leq());
        lemma_sorted_unique(strings_view(r@), sv.sort_by(lex_leq()));
    }
    r
}

/// Consecutive repeats of the first `k` elements dropped (as `Vec::dedup`
/// does).
pub open spec fn dedup_upto(s: Seq<Seq<char>>, k: int) -> Seq<Seq<char>>
    decreases k,
{
    if k <= 0 {
        Seq::empty()
    } else {
        let p = dedup_upto(s, k - 1);
        if p.len() > 0 && p.last() == s[k - 1] {
            p
        } else {
            p.push(s[k - 1])
        }
    }
}

/// Consecutive repeats dropped.
pub open spec fn dedup(s: Seq<Seq<char>>) -> Seq<Seq<char>> {
    dedup_upto(s, s.len() as int)
}

/// `v` with consecutive repeated strings dropped.
pub fn dedup_strings(v: &Vec<String>) -> (r: Vec<String>)
    ensures
        strings_view(r@) == dedup(strings_view(v@)),
{
    let ghost sv = strings_view(v@);
    let mut r: Vec<String> = Vec::new();
    assert(strings_view(r@) =~= Seq::<Seq<char>>::empty());
    let mut i: usize = 0;
    while i < v.len()
        invariant
            i <= v@.len(),
            sv == strings_view(v@),
            strings_view(r@) == dedup_upto(sv, i as int),
        decreases v@.len() - i,
    {
        let ghost rv = strings_view(r@);
        let keep = r.len() == 0 || !(r[r.len() - 1] == v[i]);
        if keep {
            r.push(v[i].clone());
            assert(strings_view(r@) =~= rv.push(sv[i as int]));
        } else {
            assert(rv.last() == sv[i as int]);
        }
        i += 1;
    }
    r
}

/// Append copies of the strings of `src` to `dst`.
pub fn append_strings(dst: &mut Vec<String>, src: &Vec<String>)
    ensures
        strings_view(final(dst)@) == strings_view(old(dst)@) + strings_view(src@),
{
    let ghost d0 = strings_view(dst@);
    let mut k: usize = 0;
    while k < src.len()
        invariant
            k <= src@.len(),
            dst@.len() == d0.len() + k,
            forall|j: int| 0 <= j < d0.len() ==> #[trigger] dst@[j]@ == d0[j],
            forall|j: int| 0 <= j < k ==> #[trigger] dst@[d0.len() + j]@ == src@[j]@,
        decreases src@.len() - k,
    {
        dst.push(src[k].clone());
        k += 1;
    }
    assert forall|j: int| 0 <= j < dst@.len() implies #[trigger] strings_view(dst@)[j] == (d0
        + strings_view(src@))[j] by {
        if j >= d0.len() {
            assert(dst@[d0.len() + (j - d0.len())]@ == src@[j - d0.len()]@);
        }
    }
    assert(strings_view(dst@) =~= d0 + strings_view(src@));
}


// ---------------------------------------------------------------------------
// Decimal numbers
// ---------------------------------------------------------------------------

/// The decimal digits of `n`, without leading zeros ("0" for zero).
pub open spec fn decimal(n: nat) -> Seq<char>
    decreases n,
{
    if n < 10 {
        seq![(n + ('0' as nat)) as char]
    } else {
        decimal(n / 10).push(((n % 10) + ('0' as nat)) as char)
    }
}

/// The decimal form of `n`.
pub fn decimal_string(n: usize) -> (r: String)
    ensures
        r@ == decimal(n as nat),
{
    let mut digits: Vec<char> = Vec::new();
    let mut m: usize = n;
    // digits of n from the least significant one
    assert(digits@.reverse() =~= Seq::<char>::empty());
    assert(decimal(n as nat) =~= decimal(n as nat) + digits@.reverse());
    loop
        invariant_except_break
            decimal(n as nat) == decimal(m as nat) + digits@.reverse(),
        ensures
            decimal(n as nat) == digits@.reverse(),
        decreases m,
    {
        let d = m % 10;
        let c: char = if d == 0 { '0' } else if d == 1 { '1' } else if d == 2 { '2' } else if d == 3 { '3' } else if d == 4 { '4' } else if d == 5 { '5' } else if d == 6 { '6' } else if d == 7 { '7' } else if d == 8 { '8' } else { '9' };
        assert(c == ((d as nat) + ('0' as nat)) as char);
        let ghost old_digits = digits@;
        digits.push(c);
        proof {
            assert(digits@.reverse() =~= seq![c] + old_digits.reverse());
        }
        if m < 10 {
            proof {
                assert(decimal(m as nat) == seq![c]);
                assert(decimal(n as nat) =~= digits@.reverse());
            }
            break;
        }
        proof {
            assert(decimal(m as nat) == decimal((m / 10) as nat).push(c));
            assert(decimal((m / 10) as nat).push(c) + old_digits.reverse() =~= decimal((m / 10) as nat) + digits@.reverse());
        }
        m = m / 10;
    }
    let mut r = String::new();
    let mut k: usize = digits.len();
    while k > 0
        invariant
            k <= digits@.len(),
            r@ == digits@.reverse().take(digits@.len() - k),
            decimal(n as nat) == digits@.reverse(),
        decreases k,
    {
        k -= 1;
        r.push(digits[k]);
        assert(digits@.reverse().take(digits@.len() - k) =~= digits@.reverse().take(digits@.len() - k - 1).push(digits@[k as int]));
    }
    assert(digits@.reverse().take(digits@.len() as int) =~= digits@.reverse());
    r
}

} // verus!
