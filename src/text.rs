use vstd::prelude::*;
use crate::decimal::{
    all_digits, component_of, decimal, lemma_decimal_value, lemma_scan_digits_ok, parse_component,
    push_decimal,
};
use crate::error::VersionError;
use crate::version::Version;

verus! {

/// The pieces of `s` between dots, as splitting on `.` gives them: one more
/// than there are dots, empty ones included.
pub open spec fn split_dots(s: Seq<char>) -> Seq<Seq<char>>
    decreases s.len(),
{
    if s.len() == 0 {
        seq![Seq::empty()]
    } else {
        let rest = split_dots(s.drop_last());
        if s.last() == '.' {
            rest.push(Seq::empty())
        } else {
            rest.update(rest.len() - 1, rest.last().push(s.last()))
        }
    }
}

/// The textual form of a version: its three numbers in base ten, joined by
/// dots.
pub open spec fn text_of(v: (u16, u16, u16)) -> Seq<char> {
    decimal(v.0 as nat) + seq!['.'] + decimal(v.1 as nat) + seq!['.'] + decimal(v.2 as nat)
}

/// What reading `s` as a version gives. A text that does not split into
/// exactly three pieces on `.` is `InvalidFormat`; otherwise the first of
/// major, minor and patch that is not a 16-bit number gives its error.
pub open spec fn parse_text(s: Seq<char>) -> Result<(u16, u16, u16), VersionError> {
    let parts = split_dots(s);
    if parts.len() != 3 {
        Err(VersionError::InvalidFormat)
    } else {
        match component_of(parts[0]) {
            Err(e) => Err(VersionError::ParseIntError(e)),
            Ok(major) => match component_of(parts[1]) {
                Err(e) => Err(VersionError::ParseIntError(e)),
                Ok(minor) => match component_of(parts[2]) {
                    Err(e) => Err(VersionError::ParseIntError(e)),
                    Ok(patch) => Ok((major, minor, patch)),
                },
            },
        }
    }
}

/// The model of a parse result: the triple of a version read, or the error.
pub open spec fn result_view(r: Result<Version, VersionError>) -> Result<(u16, u16, u16), VersionError> {
    match r {
        Ok(v) => Ok(v@),
        Err(e) => Err(e),
    }
}

/// Whether `s` holds no dot.
pub open spec fn dot_free(s: Seq<char>) -> bool {
    forall|i: int| 0 <= i < s.len() ==> #[trigger] s[i] != '.'
}

/// Adding text without dots extends the last piece.
proof fn lemma_split_extend(x: Seq<char>, y: Seq<char>)
    requires
        dot_free(y),
    ensures
        split_dots(x + y) == split_dots(x).update(
            split_dots(x).len() - 1,
            split_dots(x).last() + y,
        ),
        split_dots(x + y).len() == split_dots(x).len(),
    decreases y.len(),
{
    lemma_split_len(x);
    let sx = split_dots(x);
    if y.len() == 0 {
        assert(x + y =~= x);
        assert(sx.last() + y =~= sx.last());
        assert(sx.update(sx.len() - 1, sx.last() + y) =~= sx);
    } else {
        let y0 = y.drop_last();
        assert(dot_free(y0)) by {
            assert forall|i: int| 0 <= i < y0.len() implies #[trigger] y0[i] != '.' by {
                assert(y0[i] == y[i]);
            }
        }
        lemma_split_extend(x, y0);
        assert((x + y).drop_last() =~= x + y0);
        assert((x + y).last() == y.last());
        assert(y.last() != '.') by {
            assert(y[y.len() - 1] != '.');
        }
        assert((sx.last() + y0).push(y.last()) =~= sx.last() + y);
        assert(split_dots(x + y) =~= sx.update(sx.len() - 1, sx.last() + y));
    }
}

/// Splitting always gives at least one piece.
proof fn lemma_split_len(s: Seq<char>)
    ensures
        split_dots(s).len() >= 1,
    decreases s.len(),
{
    if s.len() > 0 {
        lemma_split_len(s.drop_last());
    }
}

/// A dot followed by text without dots starts one more piece.
proof fn lemma_split_dot_then(x: Seq<char>, y: Seq<char>)
    requires
        dot_free(y),
    ensures
        split_dots(x.push('.') + y) == split_dots(x).push(y),
{
    lemma_split_len(x);
    assert(x.push('.').drop_last() =~= x);
    lemma_split_extend(x.push('.'), y);
    let sx = split_dots(x);
    assert(Seq::<char>::empty() + y =~= y);
    assert(sx.push(Seq::empty()).update(sx.len() as int, y) =~= sx.push(y));
}

/// Text without dots is a single piece.
proof fn lemma_split_single(y: Seq<char>)
    requires
        dot_free(y),
    ensures
        split_dots(y) == seq![y],
{
    let e = Seq::<char>::empty();
    lemma_split_extend(e, y);
    assert(e + y =~= y);
    assert(seq![e].update(0, e + y) =~= seq![y]);
}

/// The decimal form of a number holds no dot.
proof fn lemma_decimal_dot_free(n: nat)
    ensures
        dot_free(decimal(n)),
{
    lemma_decimal_value(n);
    let d = decimal(n);
    assert forall|i: int| 0 <= i < d.len() implies #[trigger] d[i] != '.' by {
        assert(all_digits(d));
    }
}

/// Reading the textual form of a version gives that version back, for every
/// major, minor and patch number.
pub proof fn lemma_parse_text_of(v: (u16, u16, u16))
    ensures
        parse_text(text_of(v)) == Ok::<(u16, u16, u16), VersionError>(v),
{
    let a = decimal(v.0 as nat);
    let b = decimal(v.1 as nat);
    let c = decimal(v.2 as nat);
    lemma_decimal_dot_free(v.0 as nat);
    lemma_decimal_dot_free(v.1 as nat);
    lemma_decimal_dot_free(v.2 as nat);
    lemma_decimal_value(v.0 as nat);
    lemma_decimal_value(v.1 as nat);
    lemma_decimal_value(v.2 as nat);
    lemma_scan_digits_ok(a);
    lemma_scan_digits_ok(b);
    lemma_scan_digits_ok(c);
    lemma_split_single(a);
    lemma_split_dot_then(a, b);
    lemma_split_dot_then(a.push('.') + b, c);
    assert(text_of(v) =~= (a.push('.') + b).push('.') + c);
    let parts = split_dots(text_of(v));
    assert(parts =~= seq![a, b, c]);
    assert(component_of(a) == Ok::<u16, crate::error::IntErrorKind>(v.0));
    assert(component_of(b) == Ok::<u16, crate::error::IntErrorKind>(v.1));
    assert(component_of(c) == Ok::<u16, crate::error::IntErrorKind>(v.2));
}

impl Version {
    /// The textual form `major.minor.patch`: each number in base ten,
    /// without leading zeros or surrounding space.
    pub fn to_string(&self) -> (r: String)
        ensures
            r@ == text_of(self@),
    {
        proof {
            reveal_strlit(".");
        }
        let mut r = String::new();
        push_decimal(&mut r, self.major());
        r.append(".");
        push_decimal(&mut r, self.minor());
        r.append(".");
        push_decimal(&mut r, self.patch());
        assert(r@ =~= text_of(self@));
        r
    }

    /// Reads a version from `s`: exactly three dot-separated base-ten
    /// numbers, each at most 65535, with no sign, space or other suffix.
    /// Fails with `InvalidFormat` when `s` does not split into three pieces
    /// on `.`, and otherwise with `ParseIntError` for the first of major,
    /// minor and patch that is not such a number.
    pub fn parse(s: &str) -> (r: Result<Version, VersionError>)
        ensures
            result_view(r) == parse_text(s@),
    {
        let n = s.unicode_len();
        let mut dots: usize = 0;
        let mut first: usize = 0;
        let mut second: usize = 0;
        let mut i: usize = 0;
        assert(s@.subrange(0, 0) =~= Seq::<char>::empty());
        while i < n
            invariant
                n == s@.len(),
                0 <= i <= n,
                dots <= i,
                split_dots(s@.subrange(0, i as int)).len() == dots + 1,
                dots == 0 ==> split_dots(s@.subrange(0, i as int)) == seq![s@.subrange(0, i as int)],
                dots == 1 ==> first < i && split_dots(s@.subrange(0, i as int)) == seq![
                    s@.subrange(0, first as int),
                    s@.subrange(first + 1, i as int),
                ],
                dots == 2 ==> first < second < i && split_dots(s@.subrange(0, i as int)) == seq![
                    s@.subrange(0, first as int),
                    s@.subrange(first + 1, second as int),
                    s@.subrange(second + 1, i as int),
                ],
            decreases n - i,
        {
            let c = s.get_char(i);
            let ghost before = s@.subrange(0, i as int);
            let ghost after = s@.subrange(0, i + 1);
            let ghost parts = split_dots(before);
            assert(after.drop_last() =~= before);
            assert(after.last() == c);
            if c == '.' {
                assert(split_dots(after) == parts.push(Seq::empty()));
                assert(s@.subrange(i + 1, i + 1) =~= Seq::<char>::empty());
                if dots == 0 {
                    first = i;
                    assert(split_dots(after) =~= seq![
                        s@.subrange(0, first as int),
                        s@.subrange(first + 1, i + 1),
                    ]);
                } else if dots == 1 {
                    second = i;
                    assert(split_dots(after) =~= seq![
                        s@.subrange(0, first as int),
                        s@.subrange(first + 1, second as int),
                        s@.subrange(second + 1, i + 1),
                    ]);
                }
                dots = dots + 1;
            } else {
                assert(split_dots(after) == parts.update(parts.len() - 1, parts.last().push(c)));
                if dots == 0 {
                    assert(before.push(c) =~= after);
                    assert(parts.update(0, before.push(c)) =~= seq![after]);
                } else if dots == 1 {
                    assert(s@.subrange(first + 1, i as int).push(c) =~= s@.subrange(first + 1, i + 1));
                    assert(split_dots(after) =~= seq![
                        s@.subrange(0, first as int),
                        s@.subrange(first + 1, i + 1),
                    ]);
                } else if dots == 2 {
                    assert(s@.subrange(second + 1, i as int).push(c) =~= s@.subrange(second + 1, i + 1));
                    assert(split_dots(after) =~= seq![
                        s@.subrange(0, first as int),
                        s@.subrange(first + 1, second as int),
                        s@.subrange(second + 1, i + 1),
                    ]);
                }
            }
            i = i + 1;
        }
        assert(s@.subrange(0, n as int) =~= s@);
        if dots != 2 {
            return Err(VersionError::InvalidFormat);
        }
        let major = match parse_component(s, 0, first) {
            Ok(x) => x,
            Err(e) => {
                return Err(VersionError::ParseIntError(e));
            },
        };
        let minor = match parse_component(s, first + 1, second) {
            Ok(x) => x,
            Err(e) => {
                return Err(VersionError::ParseIntError(e));
            },
        };
        let patch = match parse_component(s, second + 1, n) {
            Ok(x) => x,
            Err(e) => {
                return Err(VersionError::ParseIntError(e));
            },
        };
        Ok(Version::new(major, minor, patch))
    }
}

impl std::str::FromStr for Version {
    type Err = VersionError;

    /// Reads a version as [`Version::parse`] does.
    fn from_str(s: &str) -> (r: Result<Self, Self::Err>)
        ensures
            result_view(r) == parse_text(s@),
    {
        Version::parse(s)
    }
}

} // verus!
