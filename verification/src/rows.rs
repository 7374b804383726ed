//! The list of rows whose raw values the command line prints: decimal
//! numbers separated by commas, each read as `usize::from_str` reads it.
use vstd::prelude::*;
use vstd::string::StringSliceAdditionalSpecFns;

verus! {

/// Why a number could not be read, as `core::num::IntErrorKind` tells it.
#[derive(Copy, Clone, Debug, PartialEq, Eq, Structural)]
pub enum RowsError {
    /// An empty number.
    Empty,
    /// A character that is not a decimal digit (or a lone sign).
    InvalidDigit,
    /// A number above `usize::MAX`.
    PosOverflow,
}

impl RowsError {
    /// The message `usize::from_str` gives for the error.
    pub fn message(&self) -> (s: &'static str)
        ensures
            s@ == match self {
                RowsError::Empty => "cannot parse integer from empty string"@,
                RowsError::InvalidDigit => "invalid digit found in string"@,
                RowsError::PosOverflow => "number too large to fit in target type"@,
            },
    {
        match self {
            RowsError::Empty => "cannot parse integer from empty string",
            RowsError::InvalidDigit => "invalid digit found in string",
            RowsError::PosOverflow => "number too large to fit in target type",
        }
    }
}

/// The value of the decimal digits `ds` read from the left onto `acc`, or the
/// first error met: a byte that is not a digit, or a value past `usize::MAX`.
pub open spec fn digits_value(ds: Seq<u8>, acc: nat) -> Result<nat, RowsError>
    decreases ds.len(),
{
    if ds.len() == 0 {
        Ok(acc)
    } else if !(48 <= ds[0] <= 57) {
        Err(RowsError::InvalidDigit)
    } else if acc * 10 + (ds[0] - 48) > usize::MAX {
        Err(RowsError::PosOverflow)
    } else {
        digits_value(ds.drop_first(), (acc * 10 + (ds[0] - 48)) as nat)
    }
}

/// A number as `usize::from_str` reads it: not empty, an optional leading
/// `+` followed by at least one digit, digits only, at most `usize::MAX`.
pub open spec fn number_value(s: Seq<u8>) -> Result<nat, RowsError> {
    if s.len() == 0 {
        Err(RowsError::Empty)
    } else if s.len() == 1 && (s[0] == 43 || s[0] == 45) {
        Err(RowsError::InvalidDigit)
    } else if s[0] == 43 {
        digits_value(s.drop_first(), 0)
    } else {
        digits_value(s, 0)
    }
}

/// The pieces of `s` between commas (`"1,,2"` has an empty middle piece).
pub open spec fn comma_pieces(s: Seq<u8>) -> Seq<Seq<u8>>
    decreases s.len(),
{
    if s.len() == 0 {
        seq![Seq::empty()]
    } else {
        let rest = comma_pieces(s.drop_last());
        if s.last() == 44 {
            rest.push(Seq::empty())
        } else {
            rest.update(rest.len() - 1, rest.last().push(s.last()))
        }
    }
}

/// The numbers of the pieces, or the error of the first piece that is not one.
pub open spec fn pieces_values(ps: Seq<Seq<u8>>) -> Result<Seq<usize>, RowsError>
    decreases ps.len(),
{
    if ps.len() == 0 {
        Ok(Seq::empty())
    } else {
        match pieces_values(ps.drop_last()) {
            Err(e) => Err(e),
            Ok(vs) => match number_value(ps.last()) {
                Err(e) => Err(e),
                Ok(v) => Ok(vs.push(v as usize)),
            },
        }
    }
}

proof fn lemma_comma_pieces_nonempty(s: Seq<u8>)
    ensures
        comma_pieces(s).len() >= 1,
    decreases s.len(),
{
    if s.len() > 0 {
        lemma_comma_pieces_nonempty(s.drop_last());
    }
}

/// The pieces before the last one of a prefix are the first pieces of the whole.
proof fn lemma_comma_pieces_prefix(s: Seq<u8>, j: int)
    requires
        0 <= j <= s.len(),
    ensures
        comma_pieces(s).len() >= comma_pieces(s.take(j)).len(),
        comma_pieces(s).take(comma_pieces(s.take(j)).len() - 1) == comma_pieces(s.take(j)).drop_last(),
    decreases s.len(),
{
    lemma_comma_pieces_nonempty(s.take(j));
    if j == s.len() {
        assert(s.take(j) =~= s);
        assert(comma_pieces(s).take(comma_pieces(s).len() - 1) =~= comma_pieces(s).drop_last());
    } else {
        let t = s.drop_last();
        assert(t.take(j) =~= s.take(j));
        lemma_comma_pieces_prefix(t, j);
        lemma_comma_pieces_nonempty(t);
        let old = comma_pieces(t);
        let k = comma_pieces(s.take(j)).len() - 1;
        if s.last() == 44 {
            assert(comma_pieces(s).take(k) =~= old.take(k));
        } else {
            assert(comma_pieces(s).take(k) =~= old.take(k));
        }
    }
}

/// A piece that is not a number makes the whole list fail, whatever follows.
proof fn lemma_pieces_values_err_extends(ps: Seq<Seq<u8>>, k: int)
    requires
        0 <= k <= ps.len(),
        pieces_values(ps.take(k)) is Err,
    ensures
        pieces_values(ps) == pieces_values(ps.take(k)),
    decreases ps.len(),
{
    if k == ps.len() {
        assert(ps.take(k) =~= ps);
    } else {
        assert(ps.drop_last().take(k) =~= ps.take(k));
        lemma_pieces_values_err_extends(ps.drop_last(), k);
    }
}

proof fn lemma_digits_bound(ds: Seq<u8>, acc: nat)
    ensures
        digits_value(ds, acc) matches Ok(v) ==> v <= usize::MAX || (ds.len() == 0 && v == acc),
    decreases ds.len(),
{
    if ds.len() > 0 && 48 <= ds[0] <= 57 && acc * 10 + (ds[0] - 48) <= usize::MAX {
        lemma_digits_bound(ds.drop_first(), (acc * 10 + (ds[0] - 48)) as nat);
    }
}

/// Reads one number from `s[start..end]`.
fn parse_number(s: &[u8], start: usize, end: usize) -> (r: Result<usize, RowsError>)
    requires
        start <= end <= s@.len(),
    ensures
        r == match number_value(s@.subrange(start as int, end as int)) {
            Ok(v) => Ok::<usize, RowsError>(v as usize),
            Err(e) => Err::<usize, RowsError>(e),
        },
        r matches Ok(v) ==> number_value(s@.subrange(start as int, end as int)) == Ok::<nat, RowsError>(v as nat),
{
    let ghost piece = s@.subrange(start as int, end as int);
    if start == end {
        return Err(RowsError::Empty);
    }
    if end - start == 1 && (s[start] == 43 || s[start] == 45) {
        return Err(RowsError::InvalidDigit);
    }
    let mut i = if s[start] == 43 { start + 1 } else { start };
    let ghost ds0 = s@.subrange(i as int, end as int);
    assert(number_value(piece) == digits_value(ds0, 0)) by {
        if s[start as int] == 43 {
            assert(ds0 =~= piece.drop_first());
        } else {
            assert(ds0 =~= piece);
        }
    }
    let mut acc: usize = 0;
    while i < end
        invariant
            start <= i <= end <= s@.len(),
            number_value(piece) == digits_value(ds0, 0),
            piece == s@.subrange(start as int, end as int),
            digits_value(ds0, 0) == digits_value(s@.subrange(i as int, end as int), acc as nat),
        decreases end - i,
    {
        let ghost rest = s@.subrange(i as int, end as int);
        let c = s[i];
        assert(rest[0] == c);
        if c < 48 || c > 57 {
            return Err(RowsError::InvalidDigit);
        }
        let dg = (c - 48) as usize;
        if acc > (usize::MAX - dg) / 10 {
            assert(acc * 10 + dg > usize::MAX) by (nonlinear_arith)
                requires acc > (usize::MAX - dg) / 10, dg <= 9;
            return Err(RowsError::PosOverflow);
        }
        assert(acc * 10 + dg <= usize::MAX) by (nonlinear_arith)
            requires acc <= (usize::MAX - dg) / 10, dg <= 9;
        acc = acc * 10 + dg;
        assert(rest.drop_first() =~= s@.subrange(i + 1, end as int));
        i = i + 1;
    }
    assert(s@.subrange(i as int, end as int).len() == 0);
    Ok(acc)
}

/// Reads a comma-separated list of row numbers, such as `"1,2,3"`; the first
/// piece that is not a number gives the error.
pub fn parse_rows(s: &str) -> (r: Result<Vec<usize>, RowsError>)
    ensures
        match r {
            Ok(v) => pieces_values(comma_pieces(s.spec_bytes())) == Ok::<Seq<usize>, RowsError>(v@),
            Err(e) => pieces_values(comma_pieces(s.spec_bytes())) == Err::<Seq<usize>, RowsError>(e),
        },
{
    let b = s.as_bytes();
    let ghost bs = b@;
    let mut out: Vec<usize> = Vec::new();
    let mut start: usize = 0;
    let mut i: usize = 0;
    proof { lemma_comma_pieces_nonempty(bs.take(0)); }
    while i < b.len()
        invariant
            bs == b@,
            bs == s.spec_bytes(),
            start <= i <= b@.len(),
            comma_pieces(bs.take(i as int)).last() == bs.subrange(start as int, i as int),
            comma_pieces(bs.take(i as int)).len() >= 1,
            pieces_values(comma_pieces(bs.take(i as int)).drop_last()) == Ok::<Seq<usize>, RowsError>(out@),
        decreases b@.len() - i,
    {
        let ghost ps = comma_pieces(bs.take(i as int));
        assert(bs.take(i + 1).drop_last() =~= bs.take(i as int));
        if b[i] == 44 {
            let n = parse_number(b, start, i);
            match n {
                Err(e) => {
                    proof {
                        assert(ps.drop_last().push(ps.last()) =~= ps);
                        assert(pieces_values(ps) == Err::<Seq<usize>, RowsError>(e));
                        let ps2 = comma_pieces(bs.take(i + 1));
                        assert(ps2 == ps.push(Seq::empty()));
                        assert(ps2.drop_last() =~= ps);
                        lemma_comma_pieces_prefix(bs, i + 1);
                        lemma_pieces_values_err_extends(comma_pieces(bs), ps.len() as int);
                    }
                    return Err(e);
                },
                Ok(v) => {
                    proof {
                        assert(ps.drop_last().push(ps.last()) =~= ps);
                        let ps2 = comma_pieces(bs.take(i + 1));
                        assert(ps2 == ps.push(Seq::empty()));
                        assert(ps2.drop_last() =~= ps);
                    }
                    out.push(v);
                    start = i + 1;
                },
            }
        } else {
            proof {
                let ps2 = comma_pieces(bs.take(i + 1));
                assert(ps2.drop_last() =~= ps.drop_last());
                assert(bs.subrange(start as int, i + 1) =~= bs.subrange(start as int, i as int).push(bs[i as int]));
            }
        }
        i = i + 1;
    }
    let ghost ps = comma_pieces(bs.take(i as int));
    assert(bs.take(i as int) =~= bs);
    let n = parse_number(b, start, i);
    proof {
        assert(ps.drop_last().push(ps.last()) =~= ps);
    }
    match n {
        Err(e) => Err(e),
        Ok(v) => {
            out.push(v);
            Ok(out)
        },
    }
}

} // verus!
