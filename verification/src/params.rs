use vstd::prelude::*;
use vstd::slice::{slice_subrange, slice_to_vec};

use crate::error::ParserFailures;

verus! {

/// Whether a byte is an ASCII decimal digit.
pub open spec fn is_digit(b: u8) -> bool {
    48 <= b <= 57
}

/// Whether every byte of `s` is an ASCII decimal digit.
pub open spec fn all_digits(s: Seq<u8>) -> bool {
    forall|i: int| 0 <= i < s.len() ==> #[trigger] is_digit(s[i])
}

/// The number that a string of decimal digits denotes.
pub open spec fn digits_value(s: Seq<u8>) -> nat
    decreases s.len(),
{
    if s.len() == 0 {
        0
    } else {
        digits_value(s.drop_last()) * 10 + (s.last() - 48) as nat
    }
}

/// The value of an unsigned decimal literal: an optional `+` followed by one
/// or more digits. `None` for any other text.
pub open spec fn unsigned_literal(s: Seq<u8>) -> Option<nat> {
    let d = if s.len() > 0 && s[0] == 43u8 {
        s.drop_first()
    } else {
        s
    };
    if d.len() > 0 && all_digits(d) {
        Some(digits_value(d))
    } else {
        None
    }
}

/// The value of a signed decimal literal: an optional `+` or `-` followed by
/// one or more digits. `None` for any other text.
pub open spec fn signed_literal(s: Seq<u8>) -> Option<int> {
    if s.len() > 0 && s[0] == 45u8 {
        let d = s.drop_first();
        if d.len() > 0 && all_digits(d) {
            Some(-(digits_value(d) as int))
        } else {
            None
        }
    } else {
        match unsigned_literal(s) {
            Some(v) => Some(v as int),
            None => None,
        }
    }
}

/// The value of an unsigned literal when it is at most `limit`.
pub open spec fn bounded_unsigned(s: Seq<u8>, limit: nat) -> Option<nat> {
    match unsigned_literal(s) {
        Some(v) => if v <= limit {
            Some(v)
        } else {
            None
        },
        None => None,
    }
}

/// A longer string of digits never denotes a smaller number.
pub proof fn lemma_digits_value_monotone(s: Seq<u8>, i: int, j: int)
    requires
        0 <= i <= j <= s.len(),
        all_digits(s),
    ensures
        digits_value(s.take(i)) <= digits_value(s.take(j)),
    decreases j - i,
{
    if i < j {
        lemma_digits_value_monotone(s, i, j - 1);
        assert(s.take(j).drop_last() =~= s.take(j - 1));
        assert(is_digit(s[j - 1]));
    }
}

/// Reads a run of decimal digits whose value must not exceed `limit`.
fn parse_digits(d: &[u8], limit: usize) -> (r: Option<usize>)
    ensures
        r == (if d@.len() > 0 && all_digits(d@) && digits_value(d@) <= limit {
            Some(digits_value(d@) as usize)
        } else {
            None::<usize>
        }),
{
    if d.len() == 0 {
        return None;
    }
    let mut acc: usize = 0;
    let mut i: usize = 0;
    while i < d.len()
        invariant
            i <= d@.len(),
            d@.len() > 0,
            all_digits(d@.take(i as int)),
            acc == digits_value(d@.take(i as int)),
            acc <= limit,
        decreases d@.len() - i,
    {
        let b = d[i];
        if b < 48 || b > 57 {
            assert(!is_digit(d@[i as int]));
            return None;
        }
        let digit = (b - 48) as usize;
        assert(d@.take(i + 1).drop_last() =~= d@.take(i as int));
        if digit > limit || acc > (limit - digit) / 10 {
            proof {
                assert(digits_value(d@.take(i + 1)) == acc * 10 + digit);
                assert(acc * 10 + digit > limit) by (nonlinear_arith)
                    requires
                        digit > limit || acc > (limit - digit) / 10,
                        digit <= 9,
                ;
                if all_digits(d@) {
                    lemma_digits_value_monotone(d@, i + 1, d@.len() as int);
                    assert(d@.take(d@.len() as int) =~= d@);
                }
            }
            return None;
        }
        assert(acc * 10 + digit <= limit) by (nonlinear_arith)
            requires
                acc <= (limit - digit) / 10,
                digit <= limit,
        ;
        acc = acc * 10 + digit;
        i += 1;
        assert(all_digits(d@.take(i as int))) by {
            assert forall|k: int| 0 <= k < i implies #[trigger] is_digit(d@.take(i as int)[k]) by {
                if k < i - 1 {
                    assert(d@.take(i as int)[k] == d@.take(i - 1)[k]);
                }
            }
        }
    }
    assert(d@.take(d@.len() as int) =~= d@);
    Some(acc)
}

/// Reads an unsigned decimal literal whose value must not exceed `limit`.
pub fn parse_unsigned(s: &[u8], limit: usize) -> (r: Option<usize>)
    ensures
        r == (match bounded_unsigned(s@, limit as nat) {
            Some(v) => Some(v as usize),
            None => None::<usize>,
        }),
{
    if s.len() > 0 && s[0] == 43u8 {
        let d = slice_subrange(s, 1, s.len());
        assert(d@ =~= s@.drop_first());
        parse_digits(d, limit)
    } else {
        parse_digits(s, limit)
    }
}

/// A type that a parameter of a control sequence can be read as.
pub trait FromParam: Sized {
    /// The value that the parameter text `s` denotes, if any.
    spec fn param_value(s: Seq<u8>) -> Option<Self>;

    /// Reads the parameter text `s`.
    fn from_param(s: &[u8]) -> (r: Option<Self>)
        ensures
            r == Self::param_value(s@),
    ;
}

impl FromParam for usize {
    open spec fn param_value(s: Seq<u8>) -> Option<usize> {
        match bounded_unsigned(s, usize::MAX as nat) {
            Some(v) => Some(v as usize),
            None => None,
        }
    }

    fn from_param(s: &[u8]) -> (r: Option<usize>) {
        parse_unsigned(s, usize::MAX)
    }
}

impl FromParam for u8 {
    open spec fn param_value(s: Seq<u8>) -> Option<u8> {
        match bounded_unsigned(s, 255) {
            Some(v) => Some(v as u8),
            None => None,
        }
    }

    fn from_param(s: &[u8]) -> (r: Option<u8>) {
        match parse_unsigned(s, 255) {
            Some(v) => Some(v as u8),
            None => None,
        }
    }
}

/// The value of a signed literal that fits in an `i32`.
pub open spec fn i32_literal(s: Seq<u8>) -> Option<i32> {
    match signed_literal(s) {
        Some(v) => if i32::MIN <= v <= i32::MAX {
            Some(v as i32)
        } else {
            None
        },
        None => None,
    }
}

impl FromParam for i32 {
    open spec fn param_value(s: Seq<u8>) -> Option<i32> {
        i32_literal(s)
    }

    fn from_param(s: &[u8]) -> (r: Option<i32>) {
        if s.len() > 0 && s[0] == 45u8 {
            let d = slice_subrange(s, 1, s.len());
            assert(d@ =~= s@.drop_first());
            match parse_digits(d, 2147483648) {
                Some(v) => Some((0 - v as i64) as i32),
                None => None,
            }
        } else {
            match parse_unsigned(s, 2147483647) {
                Some(v) => Some(v as i32),
                None => None,
            }
        }
    }
}

impl FromParam for bool {
    open spec fn param_value(s: Seq<u8>) -> Option<bool> {
        if s == seq![116u8, 114u8, 117u8, 101u8] {
            Some(true)
        } else if s == seq![102u8, 97u8, 108u8, 115u8, 101u8] {
            Some(false)
        } else {
            None
        }
    }

    fn from_param(s: &[u8]) -> (r: Option<bool>) {
        if s.len() == 4 && s[0] == 116u8 && s[1] == 114u8 && s[2] == 117u8 && s[3] == 101u8 {
            assert(s@ =~= seq![116u8, 114u8, 117u8, 101u8]);
            Some(true)
        } else if s.len() == 5 && s[0] == 102u8 && s[1] == 97u8 && s[2] == 108u8 && s[3] == 115u8
            && s[4] == 101u8 {
            assert(s@ =~= seq![102u8, 97u8, 108u8, 115u8, 101u8]);
            Some(false)
        } else {
            proof {
                if s@ == seq![116u8, 114u8, 117u8, 101u8] {
                    assert(s@[0] == 116u8 && s@[1] == 114u8 && s@[2] == 117u8 && s@[3] == 101u8);
                }
                if s@ == seq![102u8, 97u8, 108u8, 115u8, 101u8] {
                    assert(s@[0] == 102u8 && s@[1] == 97u8 && s@[2] == 108u8 && s@[3] == 115u8
                        && s@[4] == 101u8);
                }
            }
            None
        }
    }
}

/// Reads a parameter of a control sequence as a `T`. Empty text is an
/// absent parameter; text that does not denote a `T` is an error. Bytes
/// that are not UTF-8 denote no `T`, so they are an error too (the
/// parameter bytes of a control sequence are always ASCII, and the payload
/// of an operating system command comes from the terminal's raw output, so
/// this function takes any bytes rather than stopping on them).
pub fn parse_param_as<T: FromParam>(param_bytes: &[u8]) -> (r: Result<Option<T>, ParserFailures>)
    ensures
        param_bytes@.len() == 0 ==> r == Ok::<Option<T>, ParserFailures>(None),
        param_bytes@.len() > 0 ==> match T::param_value(param_bytes@) {
            Some(v) => r == Ok::<Option<T>, ParserFailures>(Some(v)),
            None => r matches Err(ParserFailures::InvalidParameter(b)) && b@ == param_bytes@,
        },
{
    if param_bytes.len() == 0 {
        return Ok(None);
    }
    match T::from_param(param_bytes) {
        Some(v) => Ok(Some(v)),
        None => Err(ParserFailures::InvalidParameter(slice_to_vec(param_bytes))),
    }
}

/// What a parameter field reads as: `Some(None)` when it is empty,
/// `Some(Some(v))` when it denotes `v`, `None` when it denotes no `T`.
pub open spec fn param_field<T: FromParam>(s: Seq<u8>) -> Option<Option<T>> {
    if s.len() == 0 {
        Some(None)
    } else {
        match T::param_value(s) {
            Some(v) => Some(Some(v)),
            None => None,
        }
    }
}

/// The fields of `s` between semicolons, as `split(|b| *b == b';')` yields
/// them: text without a semicolon is one field, and every semicolon starts a
/// new one.
pub open spec fn split_fields(s: Seq<u8>) -> Seq<Seq<u8>>
    decreases s.len(),
{
    if s.len() == 0 {
        seq![Seq::<u8>::empty()]
    } else if s.last() == 59u8 {
        split_fields(s.drop_last()).push(Seq::<u8>::empty())
    } else {
        let f = split_fields(s.drop_last());
        f.update(f.len() - 1, f.last().push(s.last()))
    }
}

/// There is always at least one field.
pub proof fn lemma_split_fields_nonempty(s: Seq<u8>)
    ensures
        split_fields(s).len() >= 1,
    decreases s.len(),
{
    if s.len() > 0 {
        lemma_split_fields_nonempty(s.drop_last());
    }
}

/// Fields that a semicolon has closed stay as they are when more text follows.
pub proof fn lemma_split_fields_prefix(s: Seq<u8>, i: int, n: int)
    requires
        0 <= i <= n <= s.len(),
    ensures
        split_fields(s.take(n)).len() >= split_fields(s.take(i)).len(),
        forall|j: int|
            0 <= j < split_fields(s.take(i)).len() - 1 ==> split_fields(s.take(n))[j] == split_fields(
                s.take(i),
            )[j],
    decreases n - i,
{
    lemma_split_fields_nonempty(s.take(i));
    if i < n {
        lemma_split_fields_prefix(s, i, n - 1);
        assert(s.take(n).drop_last() =~= s.take(n - 1));
        lemma_split_fields_nonempty(s.take(n - 1));
    }
}

/// Whether every field of `fields` reads as a `usize` (or is empty).
pub open spec fn usize_field(f: Seq<u8>) -> Option<Option<usize>> {
    if f.len() == 0 {
        Some(None)
    } else {
        match <usize as FromParam>::param_value(f) {
            Some(v) => Some(Some(v)),
            None => None,
        }
    }
}

/// Whether the field `f` fails to read as a `usize`.
pub open spec fn usize_field_fails(f: Seq<u8>) -> bool {
    usize_field(f) is None
}

/// The semicolon-separated fields of `params` read as optional `usize`s, or
/// `None` when some field is not a number.
pub open spec fn usize_fields(params: Seq<u8>) -> Option<Seq<Option<usize>>> {
    let f = split_fields(params);
    if forall|i: int| 0 <= i < f.len() ==> !usize_field_fails(#[trigger] f[i]) {
        Some(Seq::new(f.len(), |i: int| usize_field(f[i]).unwrap()))
    } else {
        None
    }
}

/// Splits parameters at semicolons and reads each field as an optional
/// `usize`. Fails with the first field that is not a number.
pub fn split_params_into_semicolon_delimited_usize(params: &[u8]) -> (r: Result<Vec<Option<usize>>, ParserFailures>)
    ensures
        (forall|i: int| 0 <= i < split_fields(params@).len() ==> !usize_field_fails(#[trigger] split_fields(params@)[i]))
            ==> (r matches Ok(v) && v@.len() == split_fields(params@).len() && forall|i: int|
            0 <= i < v@.len() ==> Some(#[trigger] v@[i]) == usize_field(split_fields(params@)[i])),
        (exists|i: int| 0 <= i < split_fields(params@).len() && usize_field_fails(#[trigger] split_fields(params@)[i]))
            ==> (r matches Err(ParserFailures::InvalidParameter(b)) && exists|k: int| 0 <= k < split_fields(params@).len()
            && usize_field_fails(#[trigger] split_fields(params@)[k]) && b@ == split_fields(params@)[k] && forall|j: int|
            0 <= j < k ==> !usize_field_fails(#[trigger] split_fields(params@)[j])),
        match usize_fields(params@) {
            Some(fields) => r matches Ok(v) && v@ == fields,
            None => r is Err,
        },
{
    let mut out: Vec<Option<usize>> = Vec::new();
    let mut start: usize = 0;
    let mut i: usize = 0;
    proof {
        assert(params@.take(0) =~= Seq::<u8>::empty());
        assert(params@.subrange(0, 0) =~= Seq::<u8>::empty());
    }
    while i < params.len()
        invariant
            start <= i <= params@.len(),
            split_fields(params@.take(i as int)).len() == out@.len() + 1,
            forall|j: int| 0 <= j < out@.len() ==> Some(#[trigger] out@[j]) == usize_field(split_fields(params@.take(i as int))[j]),
            split_fields(params@.take(i as int)).last() == params@.subrange(start as int, i as int),
        decreases params@.len() - i,
    {
        assert(params@.take(i + 1).drop_last() =~= params@.take(i as int));
        if params[i] == 59u8 {
            let field = slice_subrange(params, start, i);
            let ghost k = out@.len() as int;
            let ghost fi = split_fields(params@.take(i as int));
            proof {
                lemma_split_fields_prefix(params@, i + 1, params@.len() as int);
                assert(params@.take(params@.len() as int) =~= params@);
                assert(split_fields(params@.take(i + 1)) == fi.push(Seq::<u8>::empty()));
                assert(split_fields(params@)[k] == fi[k]);
                assert forall|j: int| 0 <= j < k implies split_fields(params@)[j] == fi[j] by {
                    assert(split_fields(params@.take(i + 1))[j] == fi[j]);
                }
            }
            match parse_param_as::<usize>(field) {
                Ok(v) => {
                    out.push(v);
                },
                Err(e) => {
                    proof {
                        assert(field@ == fi[k]);
                        assert(usize_field_fails(split_fields(params@)[k]));
                        assert forall|j: int| 0 <= j < k implies !usize_field_fails(
                            #[trigger] split_fields(params@)[j],
                        ) by {
                            assert(Some(out@[j]) == usize_field(fi[j]));
                        }
                    }
                    return Err(e);
                },
            }
            start = i + 1;
        }
        i += 1;
    }
    let field = slice_subrange(params, start, params.len());
    proof {
        assert(params@.take(params@.len() as int) =~= params@);
    }
    let ghost f = split_fields(params@);
    let ghost k = out@.len() as int;
    match parse_param_as::<usize>(field) {
        Ok(v) => {
            out.push(v);
            proof {
                assert forall|j: int| 0 <= j < f.len() implies !usize_field_fails(#[trigger] f[j]) by {
                    assert(Some(out@[j]) == usize_field(f[j]));
                }
            }
        },
        Err(e) => {
            proof {
                assert(field@ == f[k]);
                assert(usize_field_fails(f[k]));
                assert forall|j: int| 0 <= j < k implies !usize_field_fails(#[trigger] f[j]) by {
                    assert(Some(out@[j]) == usize_field(f[j]));
                }
            }
            return Err(e);
        },
    }
    assert(out@ =~= Seq::new(f.len(), |i: int| usize_field(f[i]).unwrap()));
    Ok(out)
}

/// The parameter at position `idx`, if there is one and it is present.
pub fn extract_param(idx: usize, params: &[Option<usize>]) -> (r: Option<usize>)
    ensures
        r == (if idx < params@.len() {
            params@[idx as int]
        } else {
            None
        }),
{
    if idx < params.len() {
        params[idx]
    } else {
        None
    }
}

/// The fields of `params` between semicolons, each as its own vector.
pub fn split_fields_exec(params: &[u8]) -> (r: Vec<Vec<u8>>)
    ensures
        r@.len() == split_fields(params@).len(),
        forall|j: int| 0 <= j < r@.len() ==> (#[trigger] r@[j])@ == split_fields(params@)[j],
{
    let mut out: Vec<Vec<u8>> = Vec::new();
    let mut start: usize = 0;
    let mut i: usize = 0;
    proof {
        assert(params@.take(0) =~= Seq::<u8>::empty());
        assert(params@.subrange(0, 0) =~= Seq::<u8>::empty());
    }
    while i < params.len()
        invariant
            start <= i <= params@.len(),
            split_fields(params@.take(i as int)).len() == out@.len() + 1,
            forall|j: int|
                0 <= j < out@.len() ==> (#[trigger] out@[j])@ == split_fields(params@.take(i as int))[j],
            split_fields(params@.take(i as int)).last() == params@.subrange(start as int, i as int),
        decreases params@.len() - i,
    {
        assert(params@.take(i + 1).drop_last() =~= params@.take(i as int));
        if params[i] == 59u8 {
            out.push(slice_to_vec(slice_subrange(params, start, i)));
            start = i + 1;
            assert(params@.subrange(start as int, i + 1) =~= Seq::<u8>::empty());
        } else {
            assert(params@.subrange(start as int, i + 1) =~= params@.subrange(start as int, i as int).push(params@[i as int]));
        }
        i += 1;
    }
    out.push(slice_to_vec(slice_subrange(params, start, params.len())));
    assert(params@.take(params@.len() as int) =~= params@);
    out
}

} // verus!
