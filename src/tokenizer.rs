//! Turns a path string into its segments.
use vstd::prelude::*;
use vstd::string::StrSliceExecFns;

use crate::error::{ErrorKind, Fault};

verus! {

/// One segment of a path.
#[derive(Debug, Clone, PartialEq, Eq)]
pub enum Token {
    /// A table key.
    Identifier { ident: String },
    /// An array position.
    Index { idx: i64 },
}

/// The mathematical content of a `Token`.
pub enum Segment {
    Identifier(Seq<char>),
    Index(i64),
}

impl View for Token {
    type V = Segment;

    open spec fn view(&self) -> Segment {
        match self {
            Token::Identifier { ident } => Segment::Identifier(ident@),
            Token::Index { idx } => Segment::Index(*idx),
        }
    }
}

pub open spec fn segments_view(ts: Seq<Token>) -> Seq<Segment> {
    ts.map_values(|t: Token| t@)
}

impl Token {
    /// The key of an identifier segment.
    pub fn identifier(&self) -> (r: &String)
        requires
            self is Identifier,
        ensures
            *r == self->ident,
    {
        match self {
            Token::Identifier { ident } => ident,
            Token::Index { .. } => vstd::pervasive::unreached(),
        }
    }

    /// The position of an index segment.
    pub fn idx(&self) -> (r: i64)
        requires
            self is Index,
        ensures
            r == self->idx,
    {
        match self {
            Token::Index { idx } => *idx,
            Token::Identifier { .. } => vstd::pervasive::unreached(),
        }
    }
}

/// The pieces of `q` between the occurrences of `sep`, in order; there is always one more piece
/// than there are separators.
pub open spec fn split_path(q: Seq<char>, sep: char) -> Seq<Seq<char>>
    decreases q.len(),
{
    if q.len() == 0 {
        seq![Seq::empty()]
    } else {
        let rest = split_path(q.drop_first(), sep);
        if q[0] == sep {
            seq![Seq::<char>::empty()] + rest
        } else {
            rest.update(0, seq![q[0]] + rest[0])
        }
    }
}

pub open spec fn is_digit(c: char) -> bool {
    '0' <= c <= '9'
}

pub open spec fn all_digits(d: Seq<char>) -> bool {
    forall|i: int| 0 <= i < d.len() ==> is_digit(#[trigger] d[i])
}

/// The number that a string of decimal digits writes.
pub open spec fn digits_value(d: Seq<char>) -> int
    decreases d.len(),
{
    if d.len() == 0 {
        0
    } else {
        digits_value(d.drop_last()) * 10 + (d.last() as int - '0' as int)
    }
}

/// The integer that `inner` writes as `-?[0-9]+`, if it does and the integer fits in an `i64`.
pub open spec fn index_of(inner: Seq<char>) -> Option<i64> {
    let neg = inner.len() > 0 && inner[0] == '-';
    let digits = if neg {
        inner.drop_first()
    } else {
        inner
    };
    let v = if neg {
        -digits_value(digits)
    } else {
        digits_value(digits)
    };
    if digits.len() > 0 && all_digits(digits) && i64::MIN <= v <= i64::MAX {
        Some(v as i64)
    } else {
        None
    }
}

pub open spec fn bracketed(s: Seq<char>) -> bool {
    s.len() > 0 && s[0] == '[' && s.last() == ']'
}

/// What one piece of a path stands for.
pub open spec fn segment_of(s: Seq<char>) -> Result<Segment, Fault> {
    if s.len() == 0 {
        Err(Fault::EmptyIdentifier)
    } else if bracketed(s) {
        match index_of(s.subrange(1, s.len() - 1)) {
            Some(n) => Ok(Segment::Index(n)),
            None => Err(Fault::ArrayAccessWithoutIndex),
        }
    } else {
        Ok(Segment::Identifier(s))
    }
}

/// The segments of a list of pieces; the first piece that fails gives the error.
pub open spec fn segments_of(ps: Seq<Seq<char>>) -> Result<Seq<Segment>, Fault>
    decreases ps.len(),
{
    if ps.len() == 0 {
        Ok(Seq::empty())
    } else {
        match segment_of(ps[0]) {
            Err(e) => Err(e),
            Ok(t) => match segments_of(ps.drop_first()) {
                Err(e) => Err(e),
                Ok(rest) => Ok(seq![t] + rest),
            },
        }
    }
}

/// What `tokenize_with_seperator(q, sep)` returns.
pub open spec fn parse_path(q: Seq<char>, sep: char) -> Result<Seq<Segment>, Fault> {
    if q.len() == 0 {
        Err(Fault::EmptyQueryError)
    } else {
        segments_of(split_path(q, sep))
    }
}

pub open spec fn prepend(ts: Seq<Segment>, r: Result<Seq<Segment>, Fault>) -> Result<Seq<Segment>, Fault> {
    match r {
        Ok(rest) => Ok(ts + rest),
        Err(e) => Err(e),
    }
}

pub proof fn lemma_split_nonempty(q: Seq<char>, sep: char)
    ensures
        split_path(q, sep).len() >= 1,
    decreases q.len(),
{
    if q.len() > 0 {
        lemma_split_nonempty(q.drop_first(), sep);
    }
}

/// A piece free of separators joins the first piece of what follows it.
pub proof fn lemma_split_prefix(a: Seq<char>, r: Seq<char>, sep: char)
    requires
        forall|i: int| 0 <= i < a.len() ==> a[i] != sep,
    ensures
        split_path(a + r, sep) == split_path(r, sep).update(0, a + split_path(r, sep)[0]),
    decreases a.len(),
{
    lemma_split_nonempty(r, sep);
    if a.len() == 0 {
        assert(a + r =~= r);
        assert(a + split_path(r, sep)[0] =~= split_path(r, sep)[0]);
        assert(split_path(r, sep).update(0, split_path(r, sep)[0]) =~= split_path(r, sep));
    } else {
        let a1 = a.drop_first();
        lemma_split_prefix(a1, r, sep);
        assert((a + r).drop_first() =~= a1 + r);
        assert((a + r)[0] == a[0]);
        lemma_split_nonempty(a1 + r, sep);
        assert(seq![a[0]] + (a1 + split_path(r, sep)[0]) =~= a + split_path(r, sep)[0]);
        assert(split_path(a + r, sep) =~= split_path(r, sep).update(0, a + split_path(r, sep)[0]));
    }
}

/// A string free of separators is one piece.
pub proof fn lemma_split_whole(a: Seq<char>, sep: char)
    requires
        forall|i: int| 0 <= i < a.len() ==> a[i] != sep,
    ensures
        split_path(a, sep) == seq![a],
{
    lemma_split_prefix(a, Seq::empty(), sep);
    assert(a + Seq::<char>::empty() =~= a);
    assert(split_path(Seq::<char>::empty(), sep) =~= seq![Seq::<char>::empty()]);
    assert(split_path(a, sep) =~= seq![a]);
}

/// A piece free of separators, then a separator, splits off as the first piece.
pub proof fn lemma_split_at_separator(a: Seq<char>, r: Seq<char>, sep: char)
    requires
        forall|i: int| 0 <= i < a.len() ==> a[i] != sep,
    ensures
        split_path(a + seq![sep] + r, sep) == seq![a] + split_path(r, sep),
{
    let sr = seq![sep] + r;
    assert(a + seq![sep] + r =~= a + sr);
    lemma_split_prefix(a, sr, sep);
    assert(sr.drop_first() =~= r);
    assert(split_path(sr, sep) == seq![Seq::<char>::empty()] + split_path(r, sep));
    assert(a + Seq::<char>::empty() =~= a);
    assert(split_path(a + sr, sep) =~= seq![a] + split_path(r, sep));
}

/// A list of pieces that all stand for segments gives one segment for each.
pub proof fn lemma_segments_len(ps: Seq<Seq<char>>)
    ensures
        segments_of(ps) is Ok ==> segments_of(ps)->Ok_0.len() == ps.len(),
    decreases ps.len(),
{
    if ps.len() > 0 {
        lemma_segments_len(ps.drop_first());
    }
}

/// The pieces joined, with `sep` between each two.
pub open spec fn join_path(pieces: Seq<Seq<char>>, sep: char) -> Seq<char>
    decreases pieces.len(),
{
    if pieces.len() <= 1 {
        if pieces.len() == 0 {
            Seq::empty()
        } else {
            pieces[0]
        }
    } else {
        pieces[0] + seq![sep] + join_path(pieces.drop_first(), sep)
    }
}

/// A piece that reads as an identifier: not empty, free of the separator, not bracketed.
pub open spec fn plain_identifier(p: Seq<char>, sep: char) -> bool {
    &&& p.len() > 0
    &&& !bracketed(p)
    &&& forall|k: int| 0 <= k < p.len() ==> p[k] != sep
}

/// Identifiers joined by a separator read back as those identifiers, one segment for each, in
/// order.
pub proof fn lemma_tokenize_identifiers(pieces: Seq<Seq<char>>, sep: char)
    requires
        pieces.len() > 0,
        forall|i: int| 0 <= i < pieces.len() ==> plain_identifier(#[trigger] pieces[i], sep),
    ensures
        parse_path(join_path(pieces, sep), sep)
            == Ok::<Seq<Segment>, Fault>(pieces.map_values(|p: Seq<char>| Segment::Identifier(p))),
    decreases pieces.len(),
{
    lemma_split_join(pieces, sep);
    lemma_join_nonempty(pieces, sep);
    lemma_segments_identifiers(pieces, sep);
}

proof fn lemma_join_nonempty(pieces: Seq<Seq<char>>, sep: char)
    requires
        pieces.len() > 0,
        plain_identifier(pieces[0], sep),
    ensures
        join_path(pieces, sep).len() > 0,
{
    if pieces.len() > 1 {
        assert((pieces[0] + seq![sep] + join_path(pieces.drop_first(), sep)).len() >= pieces[0].len());
    }
}

proof fn lemma_split_join(pieces: Seq<Seq<char>>, sep: char)
    requires
        pieces.len() > 0,
        forall|i: int| 0 <= i < pieces.len() ==> plain_identifier(#[trigger] pieces[i], sep),
    ensures
        split_path(join_path(pieces, sep), sep) == pieces,
    decreases pieces.len(),
{
    assert(plain_identifier(pieces[0], sep));
    if pieces.len() == 1 {
        lemma_split_whole(pieces[0], sep);
        assert(pieces =~= seq![pieces[0]]);
    } else {
        let rest = pieces.drop_first();
        assert forall|i: int| 0 <= i < rest.len() implies plain_identifier(#[trigger] rest[i], sep) by {
            assert(rest[i] == pieces[i + 1]);
        }
        lemma_split_join(rest, sep);
        lemma_split_at_separator(pieces[0], join_path(rest, sep), sep);
        assert(seq![pieces[0]] + rest =~= pieces);
    }
}

proof fn lemma_segments_identifiers(pieces: Seq<Seq<char>>, sep: char)
    requires
        forall|i: int| 0 <= i < pieces.len() ==> plain_identifier(#[trigger] pieces[i], sep),
    ensures
        segments_of(pieces) == Ok::<Seq<Segment>, Fault>(pieces.map_values(|p: Seq<char>| Segment::Identifier(p))),
    decreases pieces.len(),
{
    if pieces.len() > 0 {
        let rest = pieces.drop_first();
        assert(plain_identifier(pieces[0], sep));
        assert forall|i: int| 0 <= i < rest.len() implies plain_identifier(#[trigger] rest[i], sep) by {
            assert(rest[i] == pieces[i + 1]);
        }
        lemma_segments_identifiers(rest, sep);
        assert(seq![Segment::Identifier(pieces[0])] + rest.map_values(|p: Seq<char>| Segment::Identifier(p))
            =~= pieces.map_values(|p: Seq<char>| Segment::Identifier(p)));
    } else {
        assert(pieces.map_values(|p: Seq<char>| Segment::Identifier(p)) =~= Seq::<Segment>::empty());
    }
}

proof fn lemma_digits_value_nonneg(d: Seq<char>)
    requires
        all_digits(d),
    ensures
        digits_value(d) >= 0,
    decreases d.len(),
{
    if d.len() > 0 {
        assert(is_digit(d[d.len() - 1]));
        lemma_digits_value_nonneg(d.drop_last());
    }
}

/// A string of digits writes at least what any of its prefixes writes.
proof fn lemma_digits_value_prefix(d: Seq<char>, k: int)
    requires
        all_digits(d),
        0 <= k <= d.len(),
    ensures
        digits_value(d.subrange(0, k)) <= digits_value(d),
    decreases d.len() - k,
{
    if k < d.len() {
        let p = d.subrange(0, k + 1);
        assert(p.drop_last() =~= d.subrange(0, k));
        assert(all_digits(p));
        assert(is_digit(p[k]));
        lemma_digits_value_nonneg(p.drop_last());
        lemma_digits_value_prefix(d, k + 1);
    } else {
        assert(d.subrange(0, k) =~= d);
    }
}

/// The integer written between positions `lo` and `hi` of `s`, as `index_of` says.
fn parse_index(s: &str, lo: usize, hi: usize) -> (r: Option<i64>)
    requires
        lo <= hi <= s@.len(),
    ensures
        r == index_of(s@.subrange(lo as int, hi as int)),
{
    let ghost inner = s@.subrange(lo as int, hi as int);
    let neg = lo < hi && s.get_char(lo) == '-';
    let start: usize = if neg {
        lo + 1
    } else {
        lo
    };
    let ghost digits = s@.subrange(start as int, hi as int);
    assert(digits =~= (if neg {
        inner.drop_first()
    } else {
        inner
    }));
    if start == hi {
        return None;
    }
    let limit: u128 = 0x8000_0000_0000_0000;
    let mut acc: u128 = 0;
    let mut i: usize = start;
    while i < hi
        invariant
            lo <= start <= i <= hi <= s@.len(),
            limit == 0x8000_0000_0000_0000u128,
            inner == s@.subrange(lo as int, hi as int),
            neg == (inner.len() > 0 && inner[0] == '-'),
            start == (if neg {
                lo + 1
            } else {
                lo as int
            }),
            digits == s@.subrange(start as int, hi as int),
            digits == (if neg {
                inner.drop_first()
            } else {
                inner
            }),
            all_digits(s@.subrange(start as int, i as int)),
            acc == digits_value(s@.subrange(start as int, i as int)),
            acc <= limit,
        decreases hi - i,
    {
        let c = s.get_char(i);
        if c < '0' || c > '9' {
            assert(digits[i - start] == c);
            assert(!is_digit(digits[i - start]));
            return None;
        }
        let d = (c as u32 - '0' as u32) as u128;
        assert(d <= 9);
        assert(acc * 10 + d <= limit * 10 + 9) by (nonlinear_arith)
            requires
                acc <= limit,
                d <= 9,
        ;
        let next = acc * 10 + d;
        proof {
            let p = s@.subrange(start as int, i as int + 1);
            assert(p.drop_last() =~= s@.subrange(start as int, i as int));
            assert(p.last() == c);
            assert(next == digits_value(p));
            assert(all_digits(p)) by {
                assert forall|j: int| 0 <= j < p.len() implies is_digit(#[trigger] p[j]) by {
                    if j < p.len() - 1 {
                        assert(p[j] == s@.subrange(start as int, i as int)[j]);
                    }
                }
            }
        }
        if next > limit {
            proof {
                let p = s@.subrange(start as int, i as int + 1);
                if all_digits(digits) {
                    assert(p =~= digits.subrange(0, i - start + 1));
                    lemma_digits_value_prefix(digits, i - start + 1);
                }
            }
            return None;
        }
        acc = next;
        i = i + 1;
    }
    assert(s@.subrange(start as int, i as int) =~= digits);
    if neg {
        let v: i128 = -(acc as i128);
        Some(v as i64)
    } else if acc < limit {
        Some(acc as i64)
    } else {
        None
    }
}

/// The segment that the whole of `s` stands for, as `segment_of` says.
fn make_token(s: &str) -> (r: Result<Token, ErrorKind>)
    ensures
        match r {
            Ok(t) => segment_of(s@) == Ok::<Segment, Fault>(t@),
            Err(e) => segment_of(s@) == Err::<Segment, Fault>(e@),
        },
{
    let n = s.unicode_len();
    if n == 0 {
        return Err(ErrorKind::EmptyIdentifier);
    }
    if s.get_char(0) == '[' && s.get_char(n - 1) == ']' {
        match parse_index(s, 1, n - 1) {
            Some(idx) => Ok(Token::Index { idx }),
            None => Err(ErrorKind::ArrayAccessWithoutIndex),
        }
    } else {
        Ok(Token::Identifier { ident: s.to_owned() })
    }
}

/// Splits `query` at each `seperator` and turns each piece into a segment.
///
/// Fails with `EmptyQueryError` on the empty string; otherwise with the error of the first piece
/// that is empty (`EmptyIdentifier`) or bracketed without an integer (`ArrayAccessWithoutIndex`).
pub fn tokenize_with_seperator(query: &str, seperator: char) -> (r: Result<Vec<Token>, ErrorKind>)
    ensures
        match r {
            Ok(ts) => parse_path(query@, seperator) == Ok::<Seq<Segment>, Fault>(segments_view(ts@)),
            Err(e) => parse_path(query@, seperator) == Err::<Seq<Segment>, Fault>(e@),
        },
{
    let ghost q = query@;
    let n = query.unicode_len();
    if n == 0 {
        return Err(ErrorKind::EmptyQueryError);
    }
    let mut tokens: Vec<Token> = Vec::new();
    let mut start: usize = 0;
    let mut i: usize = 0;
    proof {
        assert(q.subrange(0, n as int) =~= q);
        assert(segments_view(tokens@) =~= Seq::<Segment>::empty());
        match segments_of(split_path(q, seperator)) {
            Ok(rest) => {
                assert(Seq::<Segment>::empty() + rest =~= rest);
            },
            Err(_) => {},
        }
    }
    while i < n
        invariant
            n == q.len(),
            q == query@,
            start <= i <= n,
            forall|k: int| start <= k < i ==> q[k] != seperator,
            segments_of(split_path(q, seperator)) == prepend(
                segments_view(tokens@),
                segments_of(split_path(q.subrange(start as int, n as int), seperator)),
            ),
        decreases n - i,
    {
        if query.get_char(i) == seperator {
            let piece = query.substring_char(start, i);
            let ghost a = q.subrange(start as int, i as int);
            let ghost r = q.subrange(i as int + 1, n as int);
            proof {
                assert(q.subrange(start as int, n as int) =~= a + seq![seperator] + r);
                lemma_split_at_separator(a, r, seperator);
                assert((seq![a] + split_path(r, seperator)).drop_first() =~= split_path(r, seperator));
            }
            match make_token(piece) {
                Ok(t) => {
                    proof {
                        assert(segments_view(tokens@.push(t)) =~= segments_view(tokens@) + seq![t@]);
                        assert(segments_view(tokens@) + (seq![t@] + Seq::<Segment>::empty()) =~= segments_view(tokens@) + seq![t@]);
                        match segments_of(split_path(r, seperator)) {
                            Ok(rest) => {
                                assert(segments_view(tokens@) + (seq![t@] + rest) =~= segments_view(tokens@.push(t)) + rest);
                            },
                            Err(_) => {},
                        }
                    }
                    tokens.push(t);
                },
                Err(e) => {
                    return Err(e);
                },
            }
            start = i + 1;
        }
        i = i + 1;
    }
    let piece = query.substring_char(start, n);
    proof {
        assert(segments_of(Seq::<Seq<char>>::empty()) == Ok::<Seq<Segment>, Fault>(Seq::empty()));
        lemma_split_whole(q.subrange(start as int, n as int), seperator);
        assert(seq![q.subrange(start as int, n as int)].drop_first() =~= Seq::<Seq<char>>::empty());
    }
    match make_token(piece) {
        Ok(t) => {
            proof {
                assert(segments_view(tokens@.push(t)) =~= segments_view(tokens@) + (seq![t@] + Seq::<Segment>::empty()));
            }
            tokens.push(t);
            Ok(tokens)
        },
        Err(e) => Err(e),
    }
}

} // verus!
