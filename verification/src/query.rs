//! Canonical query strings: percent-decoding, parsing of
//! `application/x-www-form-urlencoded` queries, and the key-sorted parameter
//! set used for routing and signature verification.

use vstd::prelude::*;
use vstd::string::*;
use vstd::utf8::{decode_utf8, valid_utf8};

use crate::text::{
    lemma_le_lt_trans, lemma_lt_le_trans, lemma_sort_by_key_ensures, lemma_sort_by_key_stable,
    lex_lt, pair_views, pairs_with_key, sort_by_key, sorted_by_key, string_from_utf8, PairView,
    StrOrder,
};

verus! {

/// Value of an ASCII hex digit, upper or lower case.
pub open spec fn hex_val(b: u8) -> Option<u8> {
    if 48 <= b && b <= 57 {
        Some((b - 48) as u8)
    } else if 65 <= b && b <= 70 {
        Some((b - 55) as u8)
    } else if 97 <= b && b <= 102 {
        Some((b - 87) as u8)
    } else {
        None
    }
}

fn hex_val_exec(b: u8) -> (r: Option<u8>)
    ensures
        r == hex_val(b),
{
    if 48 <= b && b <= 57 {
        Some(b - 48)
    } else if 65 <= b && b <= 70 {
        Some(b - 55)
    } else if 97 <= b && b <= 102 {
        Some(b - 87)
    } else {
        None
    }
}

/// Percent-decoding of one query component: `%XX` escapes become the escaped
/// byte, `+` becomes a space, everything else is copied. `None` on a `%` not
/// followed by two hex digits.
pub open spec fn pct_decode(s: Seq<u8>) -> Option<Seq<u8>>
    decreases s.len(),
{
    if s.len() == 0 {
        Some(Seq::empty())
    } else if s.first() == 37 {
        if s.len() >= 3 && hex_val(s[1]) is Some && hex_val(s[2]) is Some {
            match pct_decode(s.skip(3)) {
                Some(rest) => Some(
                    seq![(hex_val(s[1])->Some_0 * 16 + hex_val(s[2])->Some_0) as u8] + rest,
                ),
                None => None,
            }
        } else {
            None
        }
    } else if s.first() == 43 {
        match pct_decode(s.drop_first()) {
            Some(rest) => Some(seq![32u8] + rest),
            None => None,
        }
    } else {
        match pct_decode(s.drop_first()) {
            Some(rest) => Some(seq![s.first()] + rest),
            None => None,
        }
    }
}

/// Percent-decode a byte string.
pub fn pct_decode_bytes(s: &[u8]) -> (r: Option<Vec<u8>>)
    ensures
        match r {
            Some(v) => pct_decode(s@) == Some(v@),
            None => pct_decode(s@) is None,
        },
{
    let mut out: Vec<u8> = Vec::new();
    let mut i: usize = 0;
    proof {
        assert(s@.skip(0) =~= s@);
        if pct_decode(s@) is Some {
            assert(Seq::<u8>::empty() + pct_decode(s@)->Some_0 =~= pct_decode(s@)->Some_0);
        }
    }
    loop
        invariant
            i <= s@.len(),
            match pct_decode(s@.skip(i as int)) {
                Some(rest) => pct_decode(s@) == Some(out@ + rest),
                None => pct_decode(s@) is None,
            },
        decreases s@.len() - i,
    {
        if i == s.len() {
            proof {
                assert(s@.skip(i as int) =~= Seq::empty());
                assert(out@ + Seq::<u8>::empty() =~= out@);
            }
            return Some(out);
        }
        let b = s[i];
        proof {
            assert(s@.skip(i as int).first() == b);
        }
        if b == 37 {
            if s.len() - i < 3 {
                assert(s@.skip(i as int).len() < 3);
                return None;
            }
            proof {
                assert(s@.skip(i as int)[1] == s@[i + 1]);
                assert(s@.skip(i as int)[2] == s@[i + 2]);
            }
            let h = match hex_val_exec(s[i + 1]) {
                Some(h) => h,
                None => {
                    return None;
                },
            };
            let l = match hex_val_exec(s[i + 2]) {
                Some(l) => l,
                None => {
                    return None;
                },
            };
            assert(h <= 15 && l <= 15);
            let d = h * 16 + l;
            proof {
                assert(s@.skip(i as int).skip(3) =~= s@.skip(i as int + 3));
                if pct_decode(s@.skip(i as int + 3)) is Some {
                    let rest = pct_decode(s@.skip(i as int + 3))->Some_0;
                    assert(out@ + (seq![d] + rest) =~= out@.push(d) + rest);
                }
            }
            out.push(d);
            i = i + 3;
        } else {
            let d = if b == 43 {
                32
            } else {
                b
            };
            proof {
                assert(s@.skip(i as int).drop_first() =~= s@.skip(i as int + 1));
                if pct_decode(s@.skip(i as int + 1)) is Some {
                    let rest = pct_decode(s@.skip(i as int + 1))->Some_0;
                    assert(out@ + (seq![d] + rest) =~= out@.push(d) + rest);
                }
            }
            out.push(d);
            i = i + 1;
        }
    }
}

/// Index of the first occurrence of a byte, or the length if absent.
pub open spec fn first_idx(s: Seq<u8>, b: u8) -> int
    decreases s.len(),
{
    if s.len() == 0 {
        0
    } else if s.first() == b {
        0
    } else {
        1 + first_idx(s.drop_first(), b)
    }
}

pub proof fn lemma_first_idx(s: Seq<u8>, b: u8)
    ensures
        0 <= first_idx(s, b) <= s.len(),
        first_idx(s, b) < s.len() ==> s[first_idx(s, b)] == b,
        forall|j: int| 0 <= j < first_idx(s, b) ==> s[j] != b,
    decreases s.len(),
{
    if s.len() != 0 && s.first() != b {
        lemma_first_idx(s.drop_first(), b);
        assert(forall|j: int|
            0 <= j < first_idx(s, b) ==> s[j] == if j == 0 {
                s.first()
            } else {
                s.drop_first()[j - 1]
            });
    }
}

proof fn lemma_first_idx_shift(s: Seq<u8>, b: u8, k: int)
    requires
        0 <= k <= s.len(),
        forall|j: int| 0 <= j < k ==> s[j] != b,
    ensures
        first_idx(s, b) == k + first_idx(s.skip(k), b),
    decreases k,
{
    if k > 0 {
        assert(s.first() != b);
        assert(s.drop_first().skip(k - 1) =~= s.skip(k));
        assert(forall|j: int| 0 <= j < k - 1 ==> s.drop_first()[j] == s[j + 1]);
        lemma_first_idx_shift(s.drop_first(), b, k - 1);
    } else {
        assert(s.skip(0) =~= s);
    }
}

/// Find the first occurrence of a byte at or after `from`.
pub fn find_byte(s: &[u8], from: usize, b: u8) -> (r: usize)
    requires
        from <= s@.len(),
    ensures
        from <= r <= s@.len(),
        r - from == first_idx(s@.skip(from as int), b),
        r < s@.len() ==> s@[r as int] == b,
    decreases s@.len() - from,
{
    let mut i: usize = from;
    loop
        invariant
            from <= i <= s@.len(),
            forall|j: int| from <= j < i ==> s@[j] != b,
        decreases s@.len() - i,
    {
        if i == s.len() {
            proof {
                assert(forall|j: int|
                    0 <= j < i - from ==> s@.skip(from as int)[j] == s@[from + j]);
                lemma_first_idx_shift(s@.skip(from as int), b, i - from as int);
                assert(s@.skip(from as int).skip(i - from as int) =~= Seq::empty());
            }
            return i;
        }
        if s[i] == b {
            proof {
                assert(forall|j: int|
                    0 <= j < i - from ==> s@.skip(from as int)[j] == s@[from + j]);
                lemma_first_idx_shift(s@.skip(from as int), b, i - from as int);
                assert(s@.skip(from as int).skip(i - from as int).first() == b);
            }
            return i;
        }
        i = i + 1;
    }
}


/// The segments of a byte string between occurrences of a separator byte,
/// in order. A trailing or leading separator yields an empty segment.
pub open spec fn split_on(s: Seq<u8>, b: u8) -> Seq<Seq<u8>>
    decreases s.len(),
    via split_on_dec
{
    let i = first_idx(s, b);
    if i >= s.len() {
        seq![s]
    } else {
        seq![s.take(i)] + split_on(s.skip(i + 1), b)
    }
}

#[via_fn]
proof fn split_on_dec(s: Seq<u8>, b: u8) {
    lemma_first_idx(s, b);
}

/// The `&`-separated segments of a raw query.
pub open spec fn split_amp(s: Seq<u8>) -> Seq<Seq<u8>> {
    split_on(s, 38)
}

/// Decode one raw component: percent-decoding followed by UTF-8 decoding.
pub open spec fn decode_component(raw: Seq<u8>) -> Option<Seq<char>> {
    match pct_decode(raw) {
        Some(bytes) => if valid_utf8(bytes) {
            Some(decode_utf8(bytes))
        } else {
            None
        },
        None => None,
    }
}

/// Decode one nonempty segment into a key/value pair, splitting at the first
/// `=`; a segment without `=` yields an empty value.
pub open spec fn parse_segment(seg: Seq<u8>) -> Option<PairView> {
    let j = first_idx(seg, 61);
    let kraw = seg.take(j);
    let vraw = if j < seg.len() {
        seg.skip(j + 1)
    } else {
        Seq::empty()
    };
    match (decode_component(kraw), decode_component(vraw)) {
        (Some(k), Some(v)) => Some((k, v)),
        _ => None,
    }
}

/// Decode every segment, failing if any fails.
pub open spec fn parse_segments(segs: Seq<Seq<u8>>) -> Option<Seq<PairView>>
    decreases segs.len(),
{
    if segs.len() == 0 {
        Some(Seq::empty())
    } else {
        match (parse_segment(segs.first()), parse_segments(segs.drop_first())) {
            (Some(p), Some(rest)) => Some(seq![p] + rest),
            _ => None,
        }
    }
}

/// Empty segments between consecutive separators are skipped.
pub open spec fn nonempty_segments(s: Seq<Seq<u8>>) -> Seq<Seq<u8>> {
    s.filter(|seg: Seq<u8>| seg.len() != 0)
}

/// The decoded parameter list of a raw query string, in source order.
pub open spec fn parse_query(s: Seq<u8>) -> Option<Seq<PairView>> {
    parse_segments(nonempty_segments(split_amp(s)))
}

proof fn lemma_filter_singleton(seg: Seq<u8>)
    ensures
        nonempty_segments(seq![seg]) == if seg.len() != 0 {
            seq![seg]
        } else {
            Seq::<Seq<u8>>::empty()
        },
{
    reveal(Seq::filter);
    assert(seq![seg].drop_last() =~= Seq::<Seq<u8>>::empty());
    assert(Seq::<Seq<u8>>::empty().filter(|g: Seq<u8>| g.len() != 0) =~= Seq::<Seq<u8>>::empty());
    if seg.len() != 0 {
        assert(nonempty_segments(seq![seg]) =~= seq![seg]);
    }
}

proof fn lemma_nonempty_cons(seg: Seq<u8>, rest: Seq<Seq<u8>>)
    ensures
        nonempty_segments(seq![seg] + rest) == if seg.len() != 0 {
            seq![seg] + nonempty_segments(rest)
        } else {
            nonempty_segments(rest)
        },
{
    Seq::filter_distributes_over_add(seq![seg], rest, |g: Seq<u8>| g.len() != 0);
    lemma_filter_singleton(seg);
    if seg.len() == 0 {
        assert(Seq::<Seq<u8>>::empty() + nonempty_segments(rest) =~= nonempty_segments(rest));
    }
}

proof fn lemma_parse_segments_cons(seg: Seq<u8>, rest: Seq<Seq<u8>>)
    ensures
        parse_segments(seq![seg] + rest) == match (parse_segment(seg), parse_segments(rest)) {
            (Some(p), Some(ps)) => Some(seq![p] + ps),
            _ => None,
        },
{
    let s = seq![seg] + rest;
    assert(s.len() > 0);
    assert(s.first() == seg);
    assert(s.drop_first() =~= rest);
}

/// One step of query parsing: with `j` the position of the first `&` at or
/// after `pos`, the parse of the suffix at `pos` is the parse of the segment
/// before `j` prepended to the parse of the suffix after `j`.
proof fn lemma_parse_query_step(b: Seq<u8>, pos: int, j: int)
    requires
        0 <= pos <= j <= b.len(),
        first_idx(b.skip(pos), 38) == j - pos,
    ensures
        ({
            let seg = b.subrange(pos, j);
            let rest = if j < b.len() {
                parse_query(b.skip(j + 1))
            } else {
                Some(Seq::<PairView>::empty())
            };
            parse_query(b.skip(pos)) == if seg.len() == 0 {
                rest
            } else {
                match (parse_segment(seg), rest) {
                    (Some(p), Some(ps)) => Some(seq![p] + ps),
                    _ => None,
                }
            }
        }),
{
    let suffix = b.skip(pos);
    let seg = b.subrange(pos, j);
    assert(seg =~= suffix.take(j - pos));
    if j < b.len() {
        assert(suffix.skip(j - pos + 1) =~= b.skip(j + 1));
        assert(split_amp(suffix) == seq![seg] + split_amp(b.skip(j + 1)));
        lemma_nonempty_cons(seg, split_amp(b.skip(j + 1)));
        if seg.len() != 0 {
            lemma_parse_segments_cons(seg, nonempty_segments(split_amp(b.skip(j + 1))));
        }
    } else {
        assert(seg =~= suffix);
        assert(split_amp(suffix) == seq![seg]);
        lemma_filter_singleton(seg);
        if seg.len() != 0 {
            lemma_parse_segments_cons(seg, Seq::empty());
            assert(seq![seg] + Seq::<Seq<u8>>::empty() =~= seq![seg]);
            assert(parse_segments(Seq::<Seq<u8>>::empty()) == Some(Seq::<PairView>::empty()));
            if parse_segment(seg) is Some {
                assert(seq![parse_segment(seg)->Some_0] + Seq::<PairView>::empty()
                    =~= seq![parse_segment(seg)->Some_0]);
            }
        } else {
            assert(parse_segments(nonempty_segments(seq![seg])) == Some(
                Seq::<PairView>::empty(),
            ));
        }
    }
}

/// Decode one nonempty raw segment into its key/value pair.
fn parse_one_segment(seg: &[u8]) -> (r: Option<(String, String)>)
    ensures
        match r {
            Some(p) => parse_segment(seg@) == Some((p.0@, p.1@)),
            None => parse_segment(seg@) is None,
        },
{
    let e = find_byte(seg, 0, 61);
    proof {
        assert(seg@.skip(0) =~= seg@);
        assert(first_idx(seg@, 61) == e);
    }
    let kraw: &[u8] = &seg[0..e];
    let vraw: &[u8] = if e < seg.len() {
        &seg[e + 1..seg.len()]
    } else {
        &seg[0..0]
    };
    proof {
        assert(kraw@ =~= seg@.take(e as int));
        if e < seg@.len() {
            assert(vraw@ =~= seg@.skip(e as int + 1));
        } else {
            assert(vraw@ =~= Seq::<u8>::empty());
        }
    }
    let kb = match pct_decode_bytes(kraw) {
        Some(v) => v,
        None => {
            return None;
        },
    };
    let vb = match pct_decode_bytes(vraw) {
        Some(v) => v,
        None => {
            return None;
        },
    };
    let ks = match string_from_utf8(kb) {
        Some(s) => s,
        None => {
            return None;
        },
    };
    let vs = match string_from_utf8(vb) {
        Some(s) => s,
        None => {
            return None;
        },
    };
    Some((ks, vs))
}

/// Failure to decode a raw query string that is not valid URL-encoded form
/// data.
#[derive(Debug, Clone, Copy, PartialEq, Eq, Structural)]
pub struct QueryDecodeError;

/// Immutable, key-sorted set of decoded query parameters.
#[derive(Debug)]
pub struct OrderedQs {
    qs: Vec<(String, String)>,
}

impl View for OrderedQs {
    type V = Seq<PairView>;

    closed spec fn view(&self) -> Seq<PairView> {
        pair_views(self.qs@)
    }
}

impl OrderedQs {
    /// Always sorted ascending by key.
    #[verifier::type_invariant]
    spec fn wf(self) -> bool {
        sorted_by_key(self@)
    }

    /// Constructs the set from already-decoded pairs, sorting them by key.
    pub fn from_vec_unchecked(v: Vec<(String, String)>) -> (r: Self)
        ensures
            r@ == sort_by_key(pair_views(v@)),
            sorted_by_key(r@),
            r@.to_multiset() == pair_views(v@).to_multiset(),
    {
        proof {
            lemma_sort_by_key_ensures(pair_views(v@));
        }
        let sorted = crate::text::sort_pairs_by_key(v);
        OrderedQs { qs: sorted }
    }

    /// Parses a raw query string: split on `&`, split each nonempty segment
    /// at its first `=`, percent-decode both sides, then sort by key.
    pub fn from_query(query: &str) -> (r: Result<Self, QueryDecodeError>)
        ensures
            match r {
                Ok(qs) => {
                    &&& parse_query(query.spec_bytes()) is Some
                    &&& qs@ == sort_by_key(parse_query(query.spec_bytes())->Some_0)
                    &&& sorted_by_key(qs@)
                    &&& qs@.to_multiset() == parse_query(query.spec_bytes())->Some_0.to_multiset()
                },
                Err(_) => parse_query(query.spec_bytes()) is None,
            },
    {
        let bytes: &[u8] = query.as_bytes();
        let ghost b = bytes@;
        let mut pairs: Vec<(String, String)> = Vec::new();
        let mut pos: usize = 0;
        proof {
            assert(b.skip(0) =~= b);
            if parse_query(b) is Some {
                assert(Seq::<PairView>::empty() + parse_query(b)->Some_0 =~= parse_query(
                    b,
                )->Some_0);
            }
        }
        loop
            invariant_except_break
                match parse_query(b.skip(pos as int)) {
                    Some(rest) => parse_query(b) == Some(pair_views(pairs@) + rest),
                    None => parse_query(b) is None,
                },
            invariant
                b == bytes@,
                b == query.spec_bytes(),
                pos <= b.len(),
            ensures
                parse_query(b) == Some(pair_views(pairs@)),
            decreases b.len() - pos,
        {
            let j = find_byte(bytes, pos, 38);
            proof {
                lemma_parse_query_step(b, pos as int, j as int);
            }
            let seg: &[u8] = &bytes[pos..j];
            proof {
                assert(seg@ =~= b.subrange(pos as int, j as int));
            }
            let ghost rest: Option<Seq<PairView>> = if j < b.len() {
                parse_query(b.skip(j as int + 1))
            } else {
                Some(Seq::<PairView>::empty())
            };
            if seg.len() > 0 {
                match parse_one_segment(seg) {
                    Some(p) => {
                        proof {
                            let pv = (p.0@, p.1@);
                            assert(pair_views(pairs@.push(p)) =~= pair_views(pairs@).push(pv));
                            if rest is Some {
                                assert(pair_views(pairs@) + (seq![pv] + rest->Some_0)
                                    =~= pair_views(pairs@).push(pv) + rest->Some_0);
                            }
                        }
                        pairs.push(p);
                    },
                    None => {
                        return Err(QueryDecodeError);
                    },
                }
            }
            if j == bytes.len() {
                proof {
                    if parse_query(b) is Some {
                        assert(pair_views(pairs@) + Seq::<PairView>::empty() =~= pair_views(
                            pairs@,
                        ));
                    }
                }
                break;
            }
            pos = j + 1;
        }
        proof {
            lemma_sort_by_key_ensures(pair_views(pairs@));
        }
        let sorted = crate::text::sort_pairs_by_key(pairs);
        Ok(OrderedQs { qs: sorted })
    }

    /// Looks a key up by binary search over the sorted pairs. With duplicate
    /// keys, which duplicate is returned is unspecified, but it is always one
    /// of the values supplied for the key.
    pub fn get(&self, name: &str) -> (r: Option<&str>)
        ensures
            match r {
                Some(v) => self@.contains((name@, v@)),
                None => forall|i: int| 0 <= i < self@.len() ==> self@[i].0 != name@,
            },
    {
        proof {
            use_type_invariant(self);
        }
        let mut lo: usize = 0;
        let mut hi: usize = self.qs.len();
        loop
            invariant
                self@ == pair_views(self.qs@),
                sorted_by_key(self@),
                lo <= hi <= self@.len(),
                self@.len() == self.qs@.len(),
                forall|i: int| 0 <= i < lo ==> lex_lt(self@[i].0, name@),
                forall|i: int| hi <= i < self@.len() ==> lex_lt(name@, self@[i].0),
            decreases hi - lo,
        {
            if lo == hi {
                return None;
            }
            let mid = lo + (hi - lo) / 2;
            proof {
                assert(self@[mid as int] == (self.qs@[mid as int].0@, self.qs@[mid as int].1@));
            }
            match crate::text::str_compare(&self.qs[mid].0, name) {
                StrOrder::Equal => {
                    let v: &str = self.qs[mid].1.as_str();
                    proof {
                        assert(self@[mid as int] == (name@, v@));
                    }
                    return Some(v);
                },
                StrOrder::Less => {
                    proof {
                        assert forall|i: int| 0 <= i <= mid implies lex_lt(self@[i].0, name@) by {
                            if i < mid {
                                lemma_le_lt_trans(self@[i].0, self@[mid as int].0, name@);
                            }
                        }
                    }
                    lo = mid + 1;
                },
                StrOrder::Greater => {
                    proof {
                        assert forall|i: int|
                            mid <= i < self@.len() implies lex_lt(name@, self@[i].0) by {
                            if i > mid {
                                lemma_lt_le_trans(name@, self@[mid as int].0, self@[i].0);
                            }
                        }
                    }
                    hi = mid;
                },
            }
        }
    }

    /// The sorted pairs, for iteration.
    pub fn as_slice(&self) -> (r: &[(String, String)])
        ensures
            pair_views(r@) == self@,
    {
        self.qs.as_slice()
    }
}

/// Every pair of the sorted set was supplied in the decoded query: `get`
/// can only return a value that was supplied for the key it was asked for,
/// even when the key is duplicated.
pub proof fn lemma_get_returns_supplied_value(ps: Seq<PairView>, p: PairView)
    requires
        sort_by_key(ps).contains(p),
    ensures
        ps.contains(p),
{
    broadcast use vstd::seq_lib::group_to_multiset_ensures;

    lemma_sort_by_key_ensures(ps);
    assert(sort_by_key(ps).to_multiset().count(p) > 0);
}

/// A key that occurs exactly once among the decoded pairs keeps exactly the
/// value supplied for it: every pair of the sorted set that carries the key
/// is the one pair that was supplied, so `get` can only return that value.
pub proof fn lemma_get_on_unique_key(ps: Seq<PairView>, k: Seq<char>, v: Seq<char>, p: PairView)
    requires
        pairs_with_key(ps, k) == seq![(k, v)],
        sort_by_key(ps).contains(p),
        p.0 == k,
    ensures
        p == (k, v),
{
    lemma_sort_by_key_stable(ps, k);
    let s = sort_by_key(ps);
    let i = choose|i: int| 0 <= i < s.len() && s[i] == p;
    s.lemma_filter_contains(|q: PairView| q.0 == k, i);
    assert(pairs_with_key(s, k).contains(p));
}


/// Characters that canonical percent-encoding leaves unescaped.
pub open spec fn is_unreserved(b: u8) -> bool {
    (48 <= b && b <= 57) || (65 <= b && b <= 90) || (97 <= b && b <= 122) || b == 45 || b == 46
        || b == 95 || b == 126
}

/// Upper-case hex digit for a nibble; nibbles above 15 are clamped to `F`.
pub open spec fn hex_upper(n: u8) -> char {
    match n {
        0 => '0',
        1 => '1',
        2 => '2',
        3 => '3',
        4 => '4',
        5 => '5',
        6 => '6',
        7 => '7',
        8 => '8',
        9 => '9',
        10 => 'A',
        11 => 'B',
        12 => 'C',
        13 => 'D',
        14 => 'E',
        15 => 'F',
        _ => 'F',
    }
}

fn hex_upper_exec(n: u8) -> (r: char)
    ensures
        r == hex_upper(n),
{
    match n {
        0 => '0',
        1 => '1',
        2 => '2',
        3 => '3',
        4 => '4',
        5 => '5',
        6 => '6',
        7 => '7',
        8 => '8',
        9 => '9',
        10 => 'A',
        11 => 'B',
        12 => 'C',
        13 => 'D',
        14 => 'E',
        15 => 'F',
        _ => 'F',
    }
}

/// Canonical percent-encoding of one byte.
pub open spec fn enc_byte(b: u8) -> Seq<char> {
    if is_unreserved(b) {
        seq![b as char]
    } else {
        seq!['%', hex_upper(b / 16), hex_upper(b % 16)]
    }
}

/// Canonical percent-encoding of a byte string.
pub open spec fn pct_encode(s: Seq<u8>) -> Seq<char>
    decreases s.len(),
{
    if s.len() == 0 {
        Seq::empty()
    } else {
        pct_encode(s.drop_last()) + enc_byte(s.last())
    }
}

/// Append the canonical percent-encoding of `bytes` to `out`.
fn pct_encode_append(out: &mut String, bytes: &[u8])
    ensures
        final(out)@ == old(out)@ + pct_encode(bytes@),
{
    let n = bytes.len();
    let mut i: usize = 0;
    proof {
        assert(bytes@.take(0) =~= Seq::<u8>::empty());
        assert(old(out)@ + Seq::<char>::empty() =~= old(out)@);
    }
    while i < n
        invariant
            i <= n,
            n == bytes@.len(),
            out@ == old(out)@ + pct_encode(bytes@.take(i as int)),
        decreases n - i,
    {
        let b = bytes[i];
        if 48 <= b && b <= 57 || 65 <= b && b <= 90 || 97 <= b && b <= 122 || b == 45 || b == 46
            || b == 95 || b == 126 {
            crate::text::push_char(out, b as char);
        } else {
            crate::text::push_char(out, '%');
            crate::text::push_char(out, hex_upper_exec(b / 16));
            crate::text::push_char(out, hex_upper_exec(b % 16));
        }
        proof {
            assert(bytes@.take(i as int + 1).drop_last() =~= bytes@.take(i as int));
            assert(bytes@.take(i as int + 1).last() == b);
            assert(out@ =~= old(out)@ + pct_encode(bytes@.take(i as int + 1)));
        }
        i = i + 1;
    }
    proof {
        assert(bytes@.take(n as int) =~= bytes@);
    }
}

/// Rendering of one sorted pair: the key verbatim, `=`, then the
/// percent-encoded value.
pub open spec fn render_pair(p: PairView) -> Seq<char> {
    p.0 + seq!['='] + pct_encode(vstd::utf8::encode_utf8(p.1))
}

/// The canonical query string: rendered pairs joined by `&` in sorted order.
/// This exact string, not the raw query, feeds signature computation.
pub open spec fn canonical_query_string(s: Seq<PairView>) -> Seq<char>
    decreases s.len(),
{
    if s.len() == 0 {
        Seq::empty()
    } else if s.len() == 1 {
        render_pair(s.last())
    } else {
        canonical_query_string(s.drop_last()) + seq!['&'] + render_pair(s.last())
    }
}

impl OrderedQs {
    /// Render the canonical query string of this parameter set.
    pub fn to_canonical_string(&self) -> (r: String)
        ensures
            r@ == canonical_query_string(self@),
    {
        let n = self.qs.len();
        let mut out = String::new();
        let mut i: usize = 0;
        proof {
            assert(self@.take(0) =~= Seq::<PairView>::empty());
        }
        while i < n
            invariant
                i <= n,
                n == self.qs@.len(),
                self@ == pair_views(self.qs@),
                self@.len() == n,
                out@ == canonical_query_string(self@.take(i as int)),
            decreases n - i,
        {
            let ghost pre = out@;
            if i > 0 {
                crate::text::push_char(&mut out, '&');
            }
            out.append(self.qs[i].0.as_str());
            crate::text::push_char(&mut out, '=');
            pct_encode_append(&mut out, self.qs[i].1.as_str().as_bytes());
            proof {
                let t = self@.take(i as int + 1);
                assert(t.drop_last() =~= self@.take(i as int));
                assert(t.last() == self@[i as int]);
                assert(self@[i as int] == (self.qs@[i as int].0@, self.qs@[i as int].1@));
                if i == 0 {
                    assert(out@ =~= render_pair(self@[0]));
                } else {
                    assert(out@ =~= canonical_query_string(self@.take(i as int)) + seq!['&']
                        + render_pair(self@[i as int]));
                }
            }
            i = i + 1;
        }
        proof {
            assert(self@.take(n as int) =~= self@);
        }
        out
    }
}

} // verus!
