//! Character-sequence order, stable by-key sorting, and small string helpers
//! shared by query canonicalization and request signing.

use vstd::prelude::*;
use vstd::multiset::Multiset;
use vstd::string::*;

verus! {

/// Lexicographic order on character sequences, comparing code points.
pub open spec fn lex_le(a: Seq<char>, b: Seq<char>) -> bool
    decreases a.len(),
{
    if a.len() == 0 {
        true
    } else if b.len() == 0 {
        false
    } else if a.first() == b.first() {
        lex_le(a.drop_first(), b.drop_first())
    } else {
        (a.first() as u32) < (b.first() as u32)
    }
}

/// Strict lexicographic order.
pub open spec fn lex_lt(a: Seq<char>, b: Seq<char>) -> bool {
    lex_le(a, b) && a != b
}

/// Distinct characters have distinct code points.
pub proof fn lemma_char_cast_distinct(a: char, b: char)
    requires
        a != b,
    ensures
        a as u32 != b as u32,
{
    broadcast use vstd::utf8::char_u32_cast;

    if a as u32 == b as u32 {
        assert((a as u32) as char == a);
        assert((b as u32) as char == b);
    }
}

pub proof fn lemma_lex_le_total(a: Seq<char>, b: Seq<char>)
    ensures
        lex_le(a, b) || lex_le(b, a),
    decreases a.len(),
{
    if a.len() != 0 && b.len() != 0 {
        if a.first() == b.first() {
            lemma_lex_le_total(a.drop_first(), b.drop_first());
        } else {
            lemma_char_cast_distinct(a.first(), b.first());
        }
    }
}

/// Lexicographic order is reflexive.
pub proof fn lemma_lex_le_refl(a: Seq<char>)
    ensures
        lex_le(a, a),
    decreases a.len(),
{
    if a.len() != 0 {
        lemma_lex_le_refl(a.drop_first());
    }
}

pub proof fn lemma_lex_le_antisymmetric(a: Seq<char>, b: Seq<char>)
    requires
        lex_le(a, b),
        lex_le(b, a),
    ensures
        a == b,
    decreases a.len(),
{
    if a.len() == 0 {
        assert(b.len() == 0);
        assert(a =~= b);
    } else {
        assert(b.len() != 0);
        assert(a.first() == b.first());
        lemma_lex_le_antisymmetric(a.drop_first(), b.drop_first());
        assert(a.len() == b.len());
        assert forall|i: int| 0 <= i < a.len() implies a[i] == b[i] by {
            if i > 0 {
                assert(a[i] == a.drop_first()[i - 1]);
                assert(b[i] == b.drop_first()[i - 1]);
            }
        }
        assert(a =~= b);
    }
}

pub proof fn lemma_lex_le_transitive(a: Seq<char>, b: Seq<char>, c: Seq<char>)
    requires
        lex_le(a, b),
        lex_le(b, c),
    ensures
        lex_le(a, c),
    decreases a.len(),
{
    if a.len() != 0 {
        assert(b.len() != 0);
        assert(c.len() != 0);
        if a.first() == b.first() && b.first() == c.first() {
            lemma_lex_le_transitive(a.drop_first(), b.drop_first(), c.drop_first());
        }
    }
}

/// A weak link then a strict link compose to a strict link.
pub proof fn lemma_le_lt_trans(a: Seq<char>, b: Seq<char>, c: Seq<char>)
    requires
        lex_le(a, b),
        lex_lt(b, c),
    ensures
        lex_lt(a, c),
{
    lemma_lex_le_transitive(a, b, c);
    if a == c {
        lemma_lex_le_antisymmetric(b, c);
    }
}

/// A strict link then a weak link compose to a strict link.
pub proof fn lemma_lt_le_trans(a: Seq<char>, b: Seq<char>, c: Seq<char>)
    requires
        lex_lt(a, b),
        lex_le(b, c),
    ensures
        lex_lt(a, c),
{
    lemma_lex_le_transitive(a, b, c);
    if a == c {
        lemma_lex_le_antisymmetric(a, b);
    }
}

/// Dropping an equal prefix does not change the comparison.
pub proof fn lemma_lex_le_common_prefix(a: Seq<char>, b: Seq<char>, i: int)
    requires
        0 <= i <= a.len(),
        i <= b.len(),
        forall|j: int| 0 <= j < i ==> a[j] == b[j],
    ensures
        lex_le(a, b) == lex_le(a.skip(i), b.skip(i)),
    decreases i,
{
    if i > 0 {
        assert(a.first() == b.first());
        assert(a.drop_first().skip(i - 1) =~= a.skip(i));
        assert(b.drop_first().skip(i - 1) =~= b.skip(i));
        assert(forall|j: int| 0 <= j < i - 1 ==> a.drop_first()[j] == b.drop_first()[j]);
        lemma_lex_le_common_prefix(a.drop_first(), b.drop_first(), i - 1);
    } else {
        assert(a.skip(0) =~= a);
        assert(b.skip(0) =~= b);
    }
}

/// Result of a three-way string comparison.
pub enum StrOrder {
    Less,
    Equal,
    Greater,
}

/// Three-way comparison of two strings in lexicographic code-point order.
pub fn str_compare(a: &str, b: &str) -> (r: StrOrder)
    ensures
        match r {
            StrOrder::Less => lex_lt(a@, b@),
            StrOrder::Equal => a@ == b@,
            StrOrder::Greater => lex_lt(b@, a@),
        },
{
    let alen = a.unicode_len();
    let blen = b.unicode_len();
    let mut i: usize = 0;
    loop
        invariant
            i <= alen,
            i <= blen,
            alen == a@.len(),
            blen == b@.len(),
            forall|j: int| 0 <= j < i ==> a@[j] == b@[j],
        decreases alen - i,
    {
        if i >= alen {
            proof {
                lemma_lex_le_common_prefix(a@, b@, i as int);
            }
            if i >= blen {
                assert(a@ =~= b@);
                return StrOrder::Equal;
            }
            assert(a@.skip(i as int).len() == 0);
            assert(a@.len() != b@.len());
            return StrOrder::Less;
        }
        if i >= blen {
            proof {
                lemma_lex_le_common_prefix(b@, a@, i as int);
            }
            assert(b@.skip(i as int).len() == 0);
            assert(a@.len() != b@.len());
            return StrOrder::Greater;
        }
        let ca = a.get_char(i);
        let cb = b.get_char(i);
        if ca != cb {
            proof {
                lemma_lex_le_common_prefix(a@, b@, i as int);
                lemma_lex_le_common_prefix(b@, a@, i as int);
                assert(a@.skip(i as int).first() == ca);
                assert(b@.skip(i as int).first() == cb);
                assert(a@ != b@);
                lemma_char_cast_distinct(ca, cb);
            }
            if (ca as u32) < (cb as u32) {
                return StrOrder::Less;
            } else {
                return StrOrder::Greater;
            }
        }
        i += 1;
    }
}

/// A decoded query parameter or header, at the specification level.
pub type PairView = (Seq<char>, Seq<char>);

/// Insert a pair into a key-sorted sequence, after every pair whose key is
/// less than or equal to the new pair's key.
pub open spec fn insert_by_key(s: Seq<PairView>, p: PairView) -> Seq<PairView>
    decreases s.len(),
{
    if s.len() == 0 {
        seq![p]
    } else if lex_le(s.last().0, p.0) {
        s.push(p)
    } else {
        insert_by_key(s.drop_last(), p).push(s.last())
    }
}

/// Stable sort of pairs by key in ascending lexicographic order: pairs with
/// equal keys keep their original relative order.
pub open spec fn sort_by_key(s: Seq<PairView>) -> Seq<PairView>
    decreases s.len(),
{
    if s.len() == 0 {
        Seq::empty()
    } else {
        insert_by_key(sort_by_key(s.drop_last()), s.last())
    }
}

/// Keys appear in ascending order.
pub open spec fn sorted_by_key(s: Seq<PairView>) -> bool {
    forall|i: int, j: int| 0 <= i < j < s.len() ==> lex_le(s[i].0, s[j].0)
}

proof fn lemma_insert_by_key_elems(s: Seq<PairView>, p: PairView)
    ensures
        insert_by_key(s, p).len() == s.len() + 1,
        forall|i: int|
            0 <= i < insert_by_key(s, p).len() ==> (insert_by_key(s, p)[i] == p || s.contains(
                insert_by_key(s, p)[i],
            )),
    decreases s.len(),
{
    if s.len() == 0 {
    } else if lex_le(s.last().0, p.0) {
    } else {
        lemma_insert_by_key_elems(s.drop_last(), p);
        assert forall|i: int|
            0 <= i < insert_by_key(s, p).len() implies (insert_by_key(s, p)[i] == p
            || s.contains(insert_by_key(s, p)[i])) by {
            let r = insert_by_key(s.drop_last(), p).push(s.last());
            if i < r.len() - 1 {
                if insert_by_key(s.drop_last(), p)[i] != p {
                    let j = choose|j: int|
                        0 <= j < s.drop_last().len() && s.drop_last()[j] == insert_by_key(
                            s.drop_last(),
                            p,
                        )[i];
                    assert(s[j] == r[i]);
                }
            } else {
                assert(s[s.len() - 1] == s.last());
            }
        }
    }
}

proof fn lemma_insert_by_key_sorted(s: Seq<PairView>, p: PairView)
    requires
        sorted_by_key(s),
    ensures
        sorted_by_key(insert_by_key(s, p)),
    decreases s.len(),
{
    if s.len() == 0 {
    } else if lex_le(s.last().0, p.0) {
        assert forall|i: int, j: int|
            0 <= i < j < s.push(p).len() implies lex_le(s.push(p)[i].0, s.push(p)[j].0) by {
            if j == s.len() {
                if i < s.len() - 1 {
                    lemma_lex_le_transitive(s[i].0, s.last().0, p.0);
                }
            }
        }
    } else {
        lemma_lex_le_total(s.last().0, p.0);
        lemma_insert_by_key_sorted(s.drop_last(), p);
        lemma_insert_by_key_elems(s.drop_last(), p);
        let inner = insert_by_key(s.drop_last(), p);
        let r = inner.push(s.last());
        assert forall|i: int, j: int| 0 <= i < j < r.len() implies lex_le(r[i].0, r[j].0) by {
            if j == r.len() - 1 {
                if inner[i] == p {
                    assert(lex_le(p.0, s.last().0));
                } else {
                    let m = choose|m: int|
                        0 <= m < s.drop_last().len() && s.drop_last()[m] == inner[i];
                    assert(lex_le(s[m].0, s.last().0));
                }
            }
        }
    }
}

proof fn lemma_insert_by_key_multiset(s: Seq<PairView>, p: PairView)
    ensures
        insert_by_key(s, p).to_multiset() == s.to_multiset().insert(p),
    decreases s.len(),
{
    broadcast use vstd::seq_lib::group_to_multiset_ensures;

    if s.len() == 0 {
        assert(seq![p] =~= Seq::empty().push(p));
        assert(Seq::<PairView>::empty().to_multiset() =~= Multiset::empty());
        assert(insert_by_key(s, p).to_multiset() =~= s.to_multiset().insert(p));
    } else if lex_le(s.last().0, p.0) {
        assert(insert_by_key(s, p).to_multiset() =~= s.to_multiset().insert(p));
    } else {
        lemma_insert_by_key_multiset(s.drop_last(), p);
        assert(s.drop_last().push(s.last()) =~= s);
        assert(s.drop_last().to_multiset().insert(s.last()) =~= s.to_multiset());
        assert(insert_by_key(s, p).to_multiset() =~= insert_by_key(
            s.drop_last(),
            p,
        ).to_multiset().insert(s.last()));
        assert(insert_by_key(s, p).to_multiset() =~= s.to_multiset().insert(p));
    }
}

/// The stable by-key sort yields ascending keys and permutes its input.
pub proof fn lemma_sort_by_key_ensures(s: Seq<PairView>)
    ensures
        sorted_by_key(sort_by_key(s)),
        sort_by_key(s).to_multiset() == s.to_multiset(),
        sort_by_key(s).len() == s.len(),
    decreases s.len(),
{
    broadcast use vstd::seq_lib::group_to_multiset_ensures;

    if s.len() == 0 {
    } else {
        lemma_sort_by_key_ensures(s.drop_last());
        lemma_insert_by_key_sorted(sort_by_key(s.drop_last()), s.last());
        lemma_insert_by_key_multiset(sort_by_key(s.drop_last()), s.last());
        lemma_insert_by_key_elems(sort_by_key(s.drop_last()), s.last());
        assert(s.drop_last().push(s.last()) =~= s);
        assert(s.drop_last().to_multiset().insert(s.last()) =~= s.to_multiset());
    }
}

/// The subsequence of pairs carrying one key, in their original order.
pub open spec fn pairs_with_key(s: Seq<PairView>, k: Seq<char>) -> Seq<PairView> {
    s.filter(|p: PairView| p.0 == k)
}

proof fn lemma_filter_push(s: Seq<PairView>, p: PairView, k: Seq<char>)
    ensures
        pairs_with_key(s.push(p), k) == if p.0 == k {
            pairs_with_key(s, k).push(p)
        } else {
            pairs_with_key(s, k)
        },
{
    reveal(Seq::filter);
    assert(s.push(p).drop_last() =~= s);
    assert(s.push(p).last() == p);
    assert(s.push(p).len() > 0);
}

proof fn lemma_insert_by_key_filter(s: Seq<PairView>, p: PairView, k: Seq<char>)
    ensures
        pairs_with_key(insert_by_key(s, p), k) == if p.0 == k {
            pairs_with_key(s, k).push(p)
        } else {
            pairs_with_key(s, k)
        },
    decreases s.len(),
{
    if s.len() == 0 {
        assert(seq![p] =~= Seq::empty().push(p));
        lemma_filter_push(Seq::empty(), p, k);
        assert(pairs_with_key(Seq::empty(), k) =~= Seq::empty()) by {
            reveal(Seq::filter);
        }
        assert(pairs_with_key(s, k) =~= Seq::empty()) by {
            reveal(Seq::filter);
        }
    } else if lex_le(s.last().0, p.0) {
        lemma_filter_push(s, p, k);
    } else {
        // here p's key is strictly below the last key, so the two differ
        lemma_lex_le_total(s.last().0, p.0);
        assert(lex_le(p.0, s.last().0));
        if p.0 == s.last().0 {
            lemma_lex_le_antisymmetric(p.0, s.last().0);
            assert(false);
        }
        lemma_insert_by_key_filter(s.drop_last(), p, k);
        let inner = insert_by_key(s.drop_last(), p);
        lemma_filter_push(inner, s.last(), k);
        lemma_filter_push(s.drop_last(), s.last(), k);
        assert(s.drop_last().push(s.last()) =~= s);
    }
}

/// Stability: sorting by key preserves, for every key, the relative order of
/// the pairs that carry it.
pub proof fn lemma_sort_by_key_stable(s: Seq<PairView>, k: Seq<char>)
    ensures
        pairs_with_key(sort_by_key(s), k) == pairs_with_key(s, k),
    decreases s.len(),
{
    reveal(Seq::filter);
    if s.len() == 0 {
        assert(pairs_with_key(sort_by_key(s), k) =~= pairs_with_key(s, k));
    } else {
        lemma_sort_by_key_stable(s.drop_last(), k);
        lemma_insert_by_key_filter(sort_by_key(s.drop_last()), s.last(), k);
        assert(s.drop_last().push(s.last()) =~= s);
        if s.last().0 == k {
            assert(pairs_with_key(s, k) =~= pairs_with_key(s.drop_last(), k).push(s.last()));
        } else {
            assert(pairs_with_key(s, k) =~= pairs_with_key(s.drop_last(), k));
        }
    }
}

/// The pairs held by a vector, as their views.
pub open spec fn pair_views(v: Seq<(String, String)>) -> Seq<PairView> {
    Seq::new(v.len(), |i: int| (v[i].0@, v[i].1@))
}

/// Stable insertion sort of pairs by key.
pub fn sort_pairs_by_key(v: Vec<(String, String)>) -> (r: Vec<(String, String)>)
    ensures
        pair_views(r@) == sort_by_key(pair_views(v@)),
{
    let mut rem = v;
    let mut out: Vec<(String, String)> = Vec::new();
    let ghost all = pair_views(v@);
    let ghost mut taken: int = 0;
    loop
        invariant
            all == pair_views(v@),
            taken + rem.len() == all.len(),
            0 <= taken,
            pair_views(rem@) =~= all.skip(taken),
            pair_views(out@) == sort_by_key(all.take(taken)),
        decreases rem.len(),
    {
        if rem.len() == 0 {
            proof {
                assert(all.take(taken) =~= all);
            }
            return out;
        }
        let ghost prev = rem@;
        let p = rem.remove(0);
        proof {
            assert forall|i: int| 0 <= i < pair_views(rem@).len() implies pair_views(rem@)[i]
                == all.skip(taken + 1)[i] by {
                assert(rem@[i] == prev[i + 1]);
                assert(pair_views(prev)[i + 1] == all.skip(taken)[i + 1]);
            }
            assert(pair_views(rem@) =~= all.skip(taken + 1));
            assert(all.take(taken + 1).drop_last() =~= all.take(taken));
            assert(pair_views(prev)[0] == all.skip(taken)[0]);
            assert(all.take(taken + 1).last() == all[taken]);
            assert(all.take(taken + 1).last() == (p.0@, p.1@));
        }
        insert_pair_sorted(&mut out, p);
        proof {
            taken = taken + 1;
        }
    }
}

/// Insert one pair into a key-sorted vector, after equal keys.
fn insert_pair_sorted(out: &mut Vec<(String, String)>, p: (String, String))
    ensures
        pair_views(final(out)@) == insert_by_key(pair_views(old(out)@), (p.0@, p.1@)),
{
    let ghost s = pair_views(old(out)@);
    let ghost pv = (p.0@, p.1@);
    let mut j: usize = out.len();
    proof {
        assert(s.len() == out@.len());
        assert(s.take(j as int) =~= s);
        assert(s.skip(j as int) =~= Seq::empty());
        assert(insert_by_key(s, pv) + Seq::empty() =~= insert_by_key(s, pv));
    }
    loop
        invariant
            s == pair_views(out@),
            pv == (p.0@, p.1@),
            s.len() == out@.len(),
            j <= out.len(),
            out@ == old(out)@,
            insert_by_key(s, pv) == insert_by_key(s.take(j as int), pv) + s.skip(j as int),
            forall|m: int| j <= m < s.len() ==> !lex_le(s[m].0, pv.0),
        ensures
            s == pair_views(out@),
            pv == (p.0@, p.1@),
            s.len() == out@.len(),
            j <= out.len(),
            out@ == old(out)@,
            insert_by_key(s, pv) == insert_by_key(s.take(j as int), pv) + s.skip(j as int),
            j == 0 || lex_le(s[j as int - 1].0, pv.0),
        decreases j,
    {
        if j == 0 {
            break;
        }
        proof {
            assert(s[j as int - 1] == (out@[j as int - 1].0@, out@[j as int - 1].1@));
        }
        match str_compare(&out[j - 1].0, &p.0) {
            StrOrder::Less => {
                break;
            },
            StrOrder::Equal => {
                proof {
                    lemma_lex_le_refl(pv.0);
                }
                break;
            },
            StrOrder::Greater => {},
        }
        proof {
            if lex_le(s[j as int - 1].0, pv.0) {
                lemma_lex_le_antisymmetric(s[j as int - 1].0, pv.0);
                assert(false);
            }
            let t = s.take(j as int);
            assert(t.len() == j);
            assert(t.last() == s[j as int - 1]);
            assert(t.drop_last() =~= s.take(j as int - 1));
            assert(insert_by_key(t, pv) == insert_by_key(s.take(j as int - 1), pv).push(
                s[j as int - 1],
            ));
            assert(insert_by_key(s.take(j as int - 1), pv).push(s[j as int - 1]) + s.skip(
                j as int,
            ) =~= insert_by_key(s.take(j as int - 1), pv) + s.skip(j as int - 1));
        }
        j = j - 1;
    }
    proof {
        if j > 0 {
            let t = s.take(j as int);
            assert(t.len() == j);
            assert(t.last() == s[j as int - 1]);
            assert(lex_le(t.last().0, pv.0));
            assert(insert_by_key(t, pv) == t.push(pv));
        } else {
            assert(s.take(0int) =~= Seq::empty());
            assert(insert_by_key(s.take(0int), pv) =~= seq![pv]);
        }
        assert(insert_by_key(s, pv) =~= s.take(j as int).push(pv) + s.skip(j as int));
    }
    out.insert(j, p);
    proof {
        assert(pair_views(out@) =~= s.take(j as int).push(pv) + s.skip(j as int));
    }
}

/// Relies on `String::push`: appends exactly the one character.
#[verifier::external_body]
pub fn push_char(s: &mut String, c: char)
    ensures
        final(s)@ == old(s)@.push(c),
{
    s.push(c);
}

/// Relies on `String::from_utf8`: succeeds exactly on valid UTF-8 and
/// returns the decoded characters.
#[verifier::external_body]
pub fn string_from_utf8(v: Vec<u8>) -> (r: Option<String>)
    ensures
        match r {
            Some(s) => vstd::utf8::valid_utf8(v@) && s@ == vstd::utf8::decode_utf8(v@),
            None => !vstd::utf8::valid_utf8(v@),
        },
{
    match String::from_utf8(v) {
        Ok(s) => Some(s),
        Err(_) => None,
    }
}


/// ASCII lower-casing of one character; other characters are unchanged.
pub open spec fn lower_char(c: char) -> char {
    match c {
        'A' => 'a',
        'B' => 'b',
        'C' => 'c',
        'D' => 'd',
        'E' => 'e',
        'F' => 'f',
        'G' => 'g',
        'H' => 'h',
        'I' => 'i',
        'J' => 'j',
        'K' => 'k',
        'L' => 'l',
        'M' => 'm',
        'N' => 'n',
        'O' => 'o',
        'P' => 'p',
        'Q' => 'q',
        'R' => 'r',
        'S' => 's',
        'T' => 't',
        'U' => 'u',
        'V' => 'v',
        'W' => 'w',
        'X' => 'x',
        'Y' => 'y',
        'Z' => 'z',
        _ => c,
    }
}

/// ASCII lower-casing of a character sequence.
pub open spec fn lower_chars(s: Seq<char>) -> Seq<char> {
    s.map_values(|c: char| lower_char(c))
}

/// ASCII lower-casing of a string.
pub fn ascii_lowercase(s: &str) -> (r: String)
    ensures
        r@ == lower_chars(s@),
{
    let len = s.unicode_len();
    let mut out = String::new();
    let mut i: usize = 0;
    while i < len
        invariant
            i <= len,
            len == s@.len(),
            out@ =~= lower_chars(s@.take(i as int)),
        decreases len - i,
    {
        let c = s.get_char(i);
        let d = match c {
        'A' => 'a',
        'B' => 'b',
        'C' => 'c',
        'D' => 'd',
        'E' => 'e',
        'F' => 'f',
        'G' => 'g',
        'H' => 'h',
        'I' => 'i',
        'J' => 'j',
        'K' => 'k',
        'L' => 'l',
        'M' => 'm',
        'N' => 'n',
        'O' => 'o',
        'P' => 'p',
        'Q' => 'q',
        'R' => 'r',
        'S' => 's',
        'T' => 't',
        'U' => 'u',
        'V' => 'v',
        'W' => 'w',
        'X' => 'x',
        'Y' => 'y',
        'Z' => 'z',
            _ => c,
        };
        push_char(&mut out, d);
        proof {
            assert(lower_chars(s@.take(i as int + 1)) =~= lower_chars(s@.take(i as int)).push(
                lower_char(c),
            ));
        }
        i = i + 1;
    }
    proof {
        assert(s@.take(len as int) =~= s@);
    }
    out
}

/// Whitespace stripped by header canonicalization.
pub open spec fn is_ws(c: char) -> bool {
    c == ' ' || c == '\t'
}

pub open spec fn trim_front(s: Seq<char>) -> Seq<char>
    decreases s.len(),
{
    if s.len() > 0 && is_ws(s.first()) {
        trim_front(s.drop_first())
    } else {
        s
    }
}

pub open spec fn trim_end(s: Seq<char>) -> Seq<char>
    decreases s.len(),
{
    if s.len() > 0 && is_ws(s.last()) {
        trim_end(s.drop_last())
    } else {
        s
    }
}

/// Leading and trailing spaces and tabs removed.
pub open spec fn trim_chars(s: Seq<char>) -> Seq<char> {
    trim_end(trim_front(s))
}

fn is_ws_exec(c: char) -> (r: bool)
    ensures
        r == is_ws(c),
{
    c == ' ' || c == '\t'
}

/// Strip leading and trailing spaces and tabs.
pub fn trim_ws(s: &str) -> (r: String)
    ensures
        r@ == trim_chars(s@),
{
    let len = s.unicode_len();
    let mut start: usize = 0;
    proof {
        assert(s@.skip(0) =~= s@);
    }
    while start < len && is_ws_exec(s.get_char(start))
        invariant
            start <= len,
            len == s@.len(),
            trim_front(s@) == trim_front(s@.skip(start as int)),
        decreases len - start,
    {
        proof {
            assert(s@.skip(start as int).first() == s@[start as int]);
            assert(s@.skip(start as int).drop_first() =~= s@.skip(start as int + 1));
        }
        start = start + 1;
    }
    proof {
        assert(trim_front(s@) == s@.skip(start as int));
    }
    let mut end: usize = len;
    proof {
        assert(s@.subrange(start as int, end as int) =~= s@.skip(start as int));
    }
    while end > start && is_ws_exec(s.get_char(end - 1))
        invariant
            start <= end <= len,
            len == s@.len(),
            trim_front(s@) == s@.skip(start as int),
            trim_end(s@.skip(start as int)) == trim_end(s@.subrange(start as int, end as int)),
        decreases end,
    {
        proof {
            let t = s@.subrange(start as int, end as int);
            assert(t.last() == s@[end - 1]);
            assert(t.drop_last() =~= s@.subrange(start as int, end as int - 1));
        }
        end = end - 1;
    }
    proof {
        let t = s@.subrange(start as int, end as int);
        if t.len() > 0 {
            assert(t.last() == s@[end - 1]);
        }
        assert(trim_end(t) == t);
    }
    let r = s.substring_char(start, end);
    r.to_owned()
}

/// Compare two strings for equality in time depending only on their lengths:
/// every byte is inspected, with no early exit on the first mismatch.
pub fn eq_constant_time(a: &str, b: &str) -> (r: bool)
    ensures
        r == (a@ == b@),
{
    broadcast use vstd::utf8::encode_utf8_decode_utf8;

    let ab = a.as_bytes();
    let bb = b.as_bytes();
    if ab.len() != bb.len() {
        proof {
            assert(a@ != b@);
        }
        return false;
    }
    let n = ab.len();
    let mut diff: u8 = 0;
    let mut i: usize = 0;
    while i < n
        invariant
            i <= n,
            n == ab@.len() == bb@.len(),
            ab@ == a.spec_bytes(),
            bb@ == b.spec_bytes(),
            (diff == 0) <==> (forall|j: int| 0 <= j < i ==> ab@[j] == bb@[j]),
        decreases n - i,
    {
        let x = ab[i];
        let y = bb[i];
        let d = x ^ y;
        proof {
            assert((x ^ y) == 0 <==> x == y) by (bit_vector);
            assert((diff | d) == 0 <==> (diff == 0 && d == 0)) by (bit_vector);
        }
        diff = diff | d;
        i = i + 1;
    }
    if diff == 0 {
        proof {
            assert(a.spec_bytes() =~= b.spec_bytes());
            assert(vstd::utf8::decode_utf8(vstd::utf8::encode_utf8(a@)) == a@);
            assert(vstd::utf8::decode_utf8(vstd::utf8::encode_utf8(b@)) == b@);
        }
        true
    } else {
        proof {
            let j = choose|j: int| 0 <= j < n && ab@[j] != bb@[j];
            if a@ == b@ {
                assert(a.spec_bytes() == b.spec_bytes());
            }
        }
        false
    }
}

} // verus!
