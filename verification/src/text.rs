//! Byte-level text utilities: trimming, line and field splitting, and
//! integer parsing with the standard library's error taxonomy. The
//! adapters' parsers are built on these.

use vstd::prelude::*;

verus! {

/// The ASCII whitespace bytes that trimming removes: space, tab, line
/// feed, carriage return, vertical tab and form feed.
pub open spec fn spec_is_ws(b: u8) -> bool {
    b == 32 || b == 9 || b == 10 || b == 13 || b == 11 || b == 12
}

fn is_ws(b: u8) -> (r: bool)
    ensures
        r == spec_is_ws(b),
{
    b == 32 || b == 9 || b == 10 || b == 13 || b == 11 || b == 12
}

/// The sequence without leading whitespace.
pub open spec fn spec_trim_start(bs: Seq<u8>) -> Seq<u8>
    decreases bs.len(),
{
    if bs.len() == 0 {
        bs
    } else if spec_is_ws(bs[0]) {
        spec_trim_start(bs.drop_first())
    } else {
        bs
    }
}

/// The sequence without trailing whitespace.
pub open spec fn spec_trim_end(bs: Seq<u8>) -> Seq<u8>
    decreases bs.len(),
{
    if bs.len() == 0 {
        bs
    } else if spec_is_ws(bs.last()) {
        spec_trim_end(bs.drop_last())
    } else {
        bs
    }
}

/// The sequence without leading or trailing whitespace.
pub open spec fn spec_trim(bs: Seq<u8>) -> Seq<u8> {
    spec_trim_end(spec_trim_start(bs))
}

/// Trims ASCII whitespace from both ends.
pub fn trim_bytes(bs: &[u8]) -> (r: Vec<u8>)
    ensures
        r@ == spec_trim(bs@),
{
    let n = bs.len();
    let mut start: usize = 0;
    proof {
        assert(bs@.skip(0) =~= bs@);
    }
    while start < n && is_ws(bs[start])
        invariant
            start <= n,
            n == bs@.len(),
            spec_trim_start(bs@) == spec_trim_start(bs@.skip(start as int)),
        decreases n - start,
    {
        proof {
            assert(bs@.skip(start as int)[0] == bs@[start as int]);
            assert(bs@.skip(start as int).drop_first() =~= bs@.skip(start + 1));
        }
        start = start + 1;
    }
    proof {
        if start < n {
            assert(bs@.skip(start as int)[0] == bs@[start as int]);
        }
        assert(spec_trim_start(bs@) == bs@.skip(start as int));
    }
    let mut end: usize = n;
    while end > start && is_ws(bs[end - 1])
        invariant
            start <= end <= n,
            n == bs@.len(),
            spec_trim_start(bs@) == bs@.skip(start as int),
            spec_trim_end(bs@.skip(start as int)) == spec_trim_end(
                bs@.subrange(start as int, end as int),
            ),
        decreases end,
    {
        proof {
            let cur = bs@.subrange(start as int, end as int);
            assert(cur.last() == bs@[end - 1]);
            assert(cur.drop_last() =~= bs@.subrange(start as int, end - 1));
        }
        end = end - 1;
    }
    proof {
        let cur = bs@.subrange(start as int, end as int);
        if end > start {
            assert(cur.last() == bs@[end - 1]);
        }
        assert(spec_trim_end(cur) == cur);
        assert(bs@.skip(start as int) =~= bs@.subrange(start as int, n as int));
    }
    let mut r: Vec<u8> = Vec::new();
    let mut i: usize = start;
    while i < end
        invariant
            start <= i <= end <= n,
            n == bs@.len(),
            r@ =~= bs@.subrange(start as int, i as int),
        decreases end - i,
    {
        r.push(bs[i]);
        i = i + 1;
    }
    proof {
        assert(r@ =~= bs@.subrange(start as int, end as int));
    }
    r
}

/// Whether two byte slices hold the same bytes.
pub fn bytes_eq(a: &[u8], b: &[u8]) -> (r: bool)
    ensures
        r == (a@ == b@),
{
    if a.len() != b.len() {
        proof {
            assert(a@.len() != b@.len());
        }
        return false;
    }
    let n = a.len();
    let mut i: usize = 0;
    while i < n
        invariant
            i <= n,
            n == a@.len(),
            n == b@.len(),
            forall|j: int| 0 <= j < i ==> a@[j] == b@[j],
        decreases n - i,
    {
        if a[i] != b[i] {
            return false;
        }
        i = i + 1;
    }
    proof {
        assert(a@ =~= b@);
    }
    true
}

/// The lines of a text, split at line feeds, each without a trailing
/// carriage return; a trailing final line feed produces no empty last
/// line.
pub open spec fn spec_lines(bs: Seq<u8>) -> Seq<Seq<u8>>
    decreases bs.len() via spec_lines_decreases
{
    if bs.len() == 0 {
        Seq::empty()
    } else {
        let i = spec_find(bs, 10, 0);
        match i {
            Some(i) => seq![spec_strip_cr(bs.take(i))] + spec_lines(bs.skip(i + 1)),
            None => seq![spec_strip_cr(bs)],
        }
    }
}

#[via_fn]
proof fn spec_lines_decreases(bs: Seq<u8>) {
    if bs.len() > 0 {
        lemma_find_bounds(bs, 10, 0);
    }
}

/// What a found position satisfies: it is in range and holds the byte.
pub proof fn lemma_find_bounds(bs: Seq<u8>, b: u8, from: int)
    requires
        0 <= from,
    ensures
        match spec_find(bs, b, from) {
            Some(i) => from <= i < bs.len() && bs[i] == b,
            None => true,
        },
    decreases bs.len() - from,
{
    if from < bs.len() && bs[from] != b {
        lemma_find_bounds(bs, b, from + 1);
    }
}

/// A line without its trailing carriage return, if it has one.
pub open spec fn spec_strip_cr(bs: Seq<u8>) -> Seq<u8> {
    if bs.len() > 0 && bs.last() == 13 {
        bs.drop_last()
    } else {
        bs
    }
}

/// The first position of `b` at or after `from`, if any.
pub open spec fn spec_find(bs: Seq<u8>, b: u8, from: int) -> Option<int>
    decreases bs.len() - from,
{
    if from < 0 || from >= bs.len() {
        None
    } else if bs[from] == b {
        Some(from)
    } else {
        spec_find(bs, b, from + 1)
    }
}

/// Finds the first position of `b` at or after `from`.
fn find_byte(bs: &[u8], b: u8, from: usize) -> (r: Option<usize>)
    ensures
        match r {
            Some(i) => from <= i < bs@.len() && spec_find(bs@, b, from as int) == Some(i as int),
            None => spec_find(bs@, b, from as int) is None,
        },
{
    let n = bs.len();
    if from >= n {
        return None;
    }
    let mut i: usize = from;
    while i < n && bs[i] != b
        invariant
            from <= i <= n,
            n == bs@.len(),
            spec_find(bs@, b, from as int) == spec_find(bs@, b, i as int),
        decreases n - i,
    {
        i = i + 1;
    }
    if i < n {
        Some(i)
    } else {
        None
    }
}

/// Splits a text into its lines, as `spec_lines` says.
pub fn split_lines(bs: &[u8]) -> (r: Vec<Vec<u8>>)
    ensures
        r@.map_values(|l: Vec<u8>| l@) == spec_lines(bs@),
    decreases bs@.len(),
{
    let mut r: Vec<Vec<u8>> = Vec::new();
    let mut pos: usize = 0;
    let n = bs.len();
    proof {
        assert(bs@.skip(0) =~= bs@);
        assert(r@.map_values(|l: Vec<u8>| l@) =~= Seq::<Seq<u8>>::empty());
    }
    while pos < n
        invariant
            pos <= n,
            n == bs@.len(),
            spec_lines(bs@) =~= r@.map_values(|l: Vec<u8>| l@) + spec_lines(bs@.skip(pos as int)),
        decreases n - pos,
    {
        let ghost rest = bs@.skip(pos as int);
        let found = find_byte(bs, 10, pos);
        let (line_end, next_pos): (usize, usize) = match found {
            Some(i) => (i, i + 1),
            None => (n, n),
        };
        proof {
            lemma_find_skip(bs@, 10, pos as int);
            match found {
                Some(i) => {
                    assert(spec_find(rest, 10, 0) == Some(i - pos));
                    assert(rest.take(i - pos) =~= bs@.subrange(pos as int, i as int));
                    assert(rest.skip(i - pos + 1) =~= bs@.skip(i + 1));
                },
                None => {
                    assert(spec_find(rest, 10, 0) is None);
                },
            }
        }
        let mut line: Vec<u8> = Vec::new();
        let mut i: usize = pos;
        let stripped_end: usize = if line_end > pos && bs[line_end - 1] == 13 {
            line_end - 1
        } else {
            line_end
        };
        while i < stripped_end
            invariant
                pos <= i <= stripped_end <= n,
                n == bs@.len(),
                line@ =~= bs@.subrange(pos as int, i as int),
            decreases stripped_end - i,
        {
            line.push(bs[i]);
            i = i + 1;
        }
        proof {
            let full = bs@.subrange(pos as int, line_end as int);
            assert(line@ =~= bs@.subrange(pos as int, stripped_end as int));
            if stripped_end < line_end {
                assert(full.last() == bs@[line_end - 1]);
                assert(full.drop_last() =~= bs@.subrange(pos as int, stripped_end as int));
                assert(line@ == spec_strip_cr(full));
            } else {
                if full.len() > 0 {
                    assert(full.last() == bs@[line_end - 1]);
                }
                assert(line@ == spec_strip_cr(full));
            }
            match found {
                Some(i2) => {
                    assert(rest.take(i2 - pos) =~= full);
                },
                None => {
                    assert(rest =~= full);
                },
            }
        }
        r.push(line);
        pos = next_pos;
        proof {
            if found is None {
                assert(bs@.skip(n as int) =~= Seq::<u8>::empty());
            }
        }
    }
    proof {
        assert(bs@.skip(n as int) =~= Seq::<u8>::empty());
        assert(r@.map_values(|l: Vec<u8>| l@) =~= spec_lines(bs@));
    }
    r
}

/// Finding within a suffix shifts the position.
proof fn lemma_find_skip(bs: Seq<u8>, b: u8, pos: int)
    requires
        0 <= pos <= bs.len(),
    ensures
        match spec_find(bs, b, pos) {
            Some(i) => spec_find(bs.skip(pos), b, 0) == Some(i - pos),
            None => spec_find(bs.skip(pos), b, 0) is None,
        },
{
    lemma_find_shift(bs, b, pos, pos);
}

proof fn lemma_find_shift(bs: Seq<u8>, b: u8, pos: int, from: int)
    requires
        0 <= pos <= from <= bs.len(),
    ensures
        match spec_find(bs, b, from) {
            Some(i) => spec_find(bs.skip(pos), b, from - pos) == Some(i - pos),
            None => spec_find(bs.skip(pos), b, from - pos) is None,
        },
    decreases bs.len() - from,
{
    if from < bs.len() {
        assert(bs.skip(pos)[from - pos] == bs[from]);
        if bs[from] != b {
            lemma_find_shift(bs, b, pos, from + 1);
        }
    }
}

/// Splits at the first occurrence of `sep`, the separator going to neither
/// side.
pub fn split_once_byte(bs: &[u8], sep: u8) -> (r: Option<(Vec<u8>, Vec<u8>)>)
    ensures
        match r {
            Some(pair) => match spec_find(bs@, sep, 0) {
                Some(i) => pair.0@ == bs@.take(i) && pair.1@ == bs@.skip(i + 1),
                None => false,
            },
            None => spec_find(bs@, sep, 0) is None,
        },
{
    match find_byte(bs, sep, 0) {
        None => None,
        Some(i) => {
            proof {
                assert(i < bs@.len());
            }
            let n = bs.len();
            let mut left: Vec<u8> = Vec::new();
            let mut j: usize = 0;
            while j < i
                invariant
                    j <= i < n,
                    n == bs@.len(),
                    left@ =~= bs@.take(j as int),
                decreases i - j,
            {
                left.push(bs[j]);
                j = j + 1;
            }
            let mut right: Vec<u8> = Vec::new();
            let mut k: usize = i + 1;
            while k < n
                invariant
                    i < k <= n,
                    n == bs@.len(),
                    right@ =~= bs@.subrange(i + 1, k as int),
                decreases n - k,
            {
                right.push(bs[k]);
                k = k + 1;
            }
            proof {
                assert(left@ =~= bs@.take(i as int));
                assert(right@ =~= bs@.skip(i + 1));
            }
            Some((left, right))
        },
    }
}

/// The standard library's integer-parse failure kinds, with the matching
/// messages.
#[derive(Debug, Clone, Copy, PartialEq, Eq, Structural)]
pub enum ParseIntErrorKind {
    Empty,
    InvalidDigit,
    PosOverflow,
    NegOverflow,
}

impl ParseIntErrorKind {
    /// The standard library's wording for this failure.
    pub fn message(&self) -> (m: &'static str)
        ensures
            self is Empty ==> m@ == "cannot parse integer from empty string"@,
            self is InvalidDigit ==> m@ == "invalid digit found in string"@,
            self is PosOverflow ==> m@ == "number too large to fit in target type"@,
            self is NegOverflow ==> m@ == "number too small to fit in target type"@,
    {
        match self {
            ParseIntErrorKind::Empty => "cannot parse integer from empty string",
            ParseIntErrorKind::InvalidDigit => "invalid digit found in string",
            ParseIntErrorKind::PosOverflow => "number too large to fit in target type",
            ParseIntErrorKind::NegOverflow => "number too small to fit in target type",
        }
    }
}

pub open spec fn spec_is_digit(b: u8) -> bool {
    48 <= b <= 57
}

/// Parsing an unsigned digit string left to right with a cap: digits
/// accumulate until one is invalid or the value first exceeds `cap`.
pub open spec fn spec_parse_digits(ds: Seq<u8>, acc: int, cap: int) -> Result<int, ParseIntErrorKind>
    decreases ds.len(),
{
    if ds.len() == 0 {
        Ok(acc)
    } else if !spec_is_digit(ds[0]) {
        Err(ParseIntErrorKind::InvalidDigit)
    } else {
        let v = acc * 10 + (ds[0] - 48);
        if v > cap {
            Err(ParseIntErrorKind::PosOverflow)
        } else {
            spec_parse_digits(ds.drop_first(), v, cap)
        }
    }
}

/// Parsing a whole integer literal as the standard library does: an
/// optional sign, then at least one digit, accumulated left to right with
/// the overflow detected where it occurs.
pub open spec fn spec_parse_int(bs: Seq<u8>, pos_cap: int, neg_cap: int) -> Result<
    int,
    ParseIntErrorKind,
> {
    if bs.len() == 0 {
        Err(ParseIntErrorKind::Empty)
    } else {
        let negative = bs[0] == 45;
        let ds = if bs[0] == 45 || bs[0] == 43 {
            bs.drop_first()
        } else {
            bs
        };
        if ds.len() == 0 {
            Err(ParseIntErrorKind::InvalidDigit)
        } else {
            match spec_parse_digits(ds, 0, if negative { neg_cap } else { pos_cap }) {
                Ok(v) => Ok(if negative { -v } else { v }),
                Err(ParseIntErrorKind::PosOverflow) => Err(
                    if negative {
                        ParseIntErrorKind::NegOverflow
                    } else {
                        ParseIntErrorKind::PosOverflow
                    },
                ),
                Err(e) => Err(e),
            }
        }
    }
}

/// Parses digits with a cap, as `spec_parse_digits` says.
fn parse_digits(ds: &[u8], cap: u64) -> (r: Result<u64, ParseIntErrorKind>)
    requires
        cap <= 1_000_000_000_000_000_000,
    ensures
        match r {
            Ok(v) => v <= cap && spec_parse_digits(ds@, 0, cap as int) == Ok::<
                int,
                ParseIntErrorKind,
            >(v as int),
            Err(e) => spec_parse_digits(ds@, 0, cap as int) == Err::<int, ParseIntErrorKind>(e),
        },
{
    let mut acc: u64 = 0;
    let n = ds.len();
    let mut i: usize = 0;
    proof {
        assert(ds@.skip(0) =~= ds@);
    }
    while i < n
        invariant
            i <= n,
            n == ds@.len(),
            acc <= cap,
            cap <= 1_000_000_000_000_000_000,
            spec_parse_digits(ds@, 0, cap as int) == spec_parse_digits(
                ds@.skip(i as int),
                acc as int,
                cap as int,
            ),
        decreases n - i,
    {
        let b = ds[i];
        proof {
            assert(ds@.skip(i as int)[0] == ds@[i as int]);
            assert(ds@.skip(i as int).drop_first() =~= ds@.skip(i + 1));
        }
        if !(48 <= b && b <= 57) {
            return Err(ParseIntErrorKind::InvalidDigit);
        }
        let v: u64 = acc * 10 + ((b - 48) as u64);
        if v > cap {
            return Err(ParseIntErrorKind::PosOverflow);
        }
        acc = v;
        i = i + 1;
    }
    proof {
        assert(ds@.skip(n as int) =~= Seq::<u8>::empty());
    }
    Ok(acc)
}

/// Parses a signed integer literal with the given magnitude caps, as
/// `spec_parse_int` says.
fn parse_int_capped(bs: &[u8], pos_cap: u64, neg_cap: u64) -> (r: Result<
    (bool, u64),
    ParseIntErrorKind,
>)
    requires
        pos_cap <= 1_000_000_000_000_000_000,
        neg_cap <= 1_000_000_000_000_000_000,
    ensures
        match r {
            Ok(p) => {
                let v: int = if p.0 {
                    -(p.1 as int)
                } else {
                    p.1 as int
                };
                &&& spec_parse_int(bs@, pos_cap as int, neg_cap as int) == Ok::<
                    int,
                    ParseIntErrorKind,
                >(v)
                &&& (p.0 ==> p.1 <= neg_cap)
                &&& (!p.0 ==> p.1 <= pos_cap)
            },
            Err(e) => spec_parse_int(bs@, pos_cap as int, neg_cap as int) == Err::<
                int,
                ParseIntErrorKind,
            >(e),
        },
{
    let n = bs.len();
    if n == 0 {
        return Err(ParseIntErrorKind::Empty);
    }
    let negative = bs[0] == 45;
    let has_sign = bs[0] == 45 || bs[0] == 43;
    let ghost ds = if has_sign {
        bs@.drop_first()
    } else {
        bs@
    };
    let start: usize = if has_sign {
        1
    } else {
        0
    };
    if n - start == 0 {
        return Err(ParseIntErrorKind::InvalidDigit);
    }
    let cap: u64 = if negative {
        neg_cap
    } else {
        pos_cap
    };
    let mut digits: Vec<u8> = Vec::new();
    let mut i: usize = start;
    while i < n
        invariant
            start <= i <= n,
            n == bs@.len(),
            digits@ =~= bs@.subrange(start as int, i as int),
        decreases n - i,
    {
        digits.push(bs[i]);
        i = i + 1;
    }
    proof {
        assert(digits@ =~= ds);
    }
    match parse_digits(digits.as_slice(), cap) {
        Ok(v) => Ok((negative, v)),
        Err(ParseIntErrorKind::PosOverflow) => Err(
            if negative {
                ParseIntErrorKind::NegOverflow
            } else {
                ParseIntErrorKind::PosOverflow
            },
        ),
        Err(e) => Err(e),
    }
}

/// Parses an `i32` literal as the standard library's `str::parse` does.
pub fn parse_i32_bytes(bs: &[u8]) -> (r: Result<i32, ParseIntErrorKind>)
    ensures
        match r {
            Ok(v) => spec_parse_int(bs@, 0x7fff_ffff, 0x8000_0000) == Ok::<int, ParseIntErrorKind>(
                v as int,
            ),
            Err(e) => spec_parse_int(bs@, 0x7fff_ffff, 0x8000_0000) == Err::<
                int,
                ParseIntErrorKind,
            >(e),
        },
{
    match parse_int_capped(bs, 0x7fff_ffff, 0x8000_0000) {
        Ok((negative, mag)) => {
            if negative {
                Ok((-(mag as i64)) as i32)
            } else {
                Ok(mag as i32)
            }
        },
        Err(e) => Err(e),
    }
}

/// Parsing an unsigned integer literal as the standard library does: an
/// optional plus sign, then at least one digit; a minus sign is an invalid
/// digit.
pub open spec fn spec_parse_uint(bs: Seq<u8>, cap: int) -> Result<int, ParseIntErrorKind> {
    if bs.len() == 0 {
        Err(ParseIntErrorKind::Empty)
    } else if bs[0] == 45 {
        Err(ParseIntErrorKind::InvalidDigit)
    } else {
        let ds = if bs[0] == 43 {
            bs.drop_first()
        } else {
            bs
        };
        if ds.len() == 0 {
            Err(ParseIntErrorKind::InvalidDigit)
        } else {
            spec_parse_digits(ds, 0, cap)
        }
    }
}

/// Parses an unsigned literal against a cap, as `spec_parse_uint` says.
pub fn parse_uint_bytes(bs: &[u8], cap: u64) -> (r: Result<u64, ParseIntErrorKind>)
    requires
        cap <= 1_000_000_000_000_000_000,
    ensures
        match r {
            Ok(v) => v <= cap && spec_parse_uint(bs@, cap as int) == Ok::<int, ParseIntErrorKind>(
                v as int,
            ),
            Err(e) => spec_parse_uint(bs@, cap as int) == Err::<int, ParseIntErrorKind>(e),
        },
{
    let n = bs.len();
    if n == 0 {
        return Err(ParseIntErrorKind::Empty);
    }
    if bs[0] == 45 {
        return Err(ParseIntErrorKind::InvalidDigit);
    }
    let start: usize = if bs[0] == 43 {
        1
    } else {
        0
    };
    if n - start == 0 {
        return Err(ParseIntErrorKind::InvalidDigit);
    }
    let mut digits: Vec<u8> = Vec::new();
    let mut i: usize = start;
    while i < n
        invariant
            start <= i <= n,
            n == bs@.len(),
            digits@ =~= bs@.subrange(start as int, i as int),
        decreases n - i,
    {
        digits.push(bs[i]);
        i = i + 1;
    }
    proof {
        if start == 1 {
            assert(digits@ =~= bs@.drop_first());
        } else {
            assert(digits@ =~= bs@);
        }
    }
    parse_digits(digits.as_slice(), cap)
}

} // verus!
