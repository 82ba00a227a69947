use vstd::prelude::*;

verus! {

/// The decimal digit `d` as text.
pub open spec fn digit_text(d: nat) -> Seq<char> {
    if d == 0 {
        "0"@
    } else if d == 1 {
        "1"@
    } else if d == 2 {
        "2"@
    } else if d == 3 {
        "3"@
    } else if d == 4 {
        "4"@
    } else if d == 5 {
        "5"@
    } else if d == 6 {
        "6"@
    } else if d == 7 {
        "7"@
    } else if d == 8 {
        "8"@
    } else {
        "9"@
    }
}

/// `n` in decimal, without leading zeros.
pub open spec fn decimal_text(n: nat) -> Seq<char>
    decreases n,
{
    if n < 10 {
        digit_text(n)
    } else {
        decimal_text(n / 10) + digit_text(n % 10)
    }
}

/// `v` in decimal, with a leading `-` when it is negative.
pub open spec fn signed_text(v: int) -> Seq<char> {
    if v < 0 {
        "-"@ + decimal_text((-v) as nat)
    } else {
        decimal_text(v as nat)
    }
}

/// An optional number as `{:?}` writes it: `None` or `Some(n)`.
pub open spec fn option_text(o: Option<int>) -> Seq<char> {
    match o {
        Some(v) => "Some("@ + signed_text(v) + ")"@,
        None => "None"@,
    }
}

fn append_digit(s: &mut String, d: u64)
    requires
        d < 10,
    ensures
        final(s)@ == old(s)@ + digit_text(d as nat),
{
    if d == 0 {
        s.append("0");
    } else if d == 1 {
        s.append("1");
    } else if d == 2 {
        s.append("2");
    } else if d == 3 {
        s.append("3");
    } else if d == 4 {
        s.append("4");
    } else if d == 5 {
        s.append("5");
    } else if d == 6 {
        s.append("6");
    } else if d == 7 {
        s.append("7");
    } else if d == 8 {
        s.append("8");
    } else {
        s.append("9");
    }
}

/// Appends `n` in decimal.
pub fn append_decimal(s: &mut String, n: u64)
    ensures
        final(s)@ == old(s)@ + decimal_text(n as nat),
    decreases n,
{
    if n >= 10 {
        append_decimal(s, n / 10);
        append_digit(s, n % 10);
        assert(final(s)@ =~= old(s)@ + decimal_text(n as nat));
    } else {
        append_digit(s, n);
    }
}

/// Appends `v` in decimal, with a leading `-` when it is negative.
pub fn append_signed(s: &mut String, v: i64)
    ensures
        final(s)@ == old(s)@ + signed_text(v as int),
{
    if v < 0 {
        s.append("-");
        let m: u64 = if v == i64::MIN {
            9223372036854775808u64
        } else {
            (-v) as u64
        };
        append_decimal(s, m);
        assert(final(s)@ =~= old(s)@ + signed_text(v as int));
    } else {
        append_decimal(s, v as u64);
    }
}

/// Appends an optional number as `{:?}` writes it.
pub fn append_option(s: &mut String, o: Option<i64>)
    ensures
        final(s)@ == old(s)@ + option_text(
            match o {
                Some(v) => Some(v as int),
                None => None,
            },
        ),
{
    match o {
        Some(v) => {
            s.append("Some(");
            append_signed(s, v);
            s.append(")");
            assert(final(s)@ =~= old(s)@ + ("Some("@ + signed_text(v as int) + ")"@));
        },
        None => {
            s.append("None");
        },
    }
}

/// What `{:?}` writes for a string: the string in double quotes, with
/// quotes, backslashes and control characters escaped.
pub uninterp spec fn debug_str_text(s: Seq<char>) -> Seq<char>;

/// Calls `format!("{:?}", s)` on a string slice. The contract names the
/// result only; which characters `Debug` escapes, and how, is left to the
/// standard library.
#[verifier::external_body]
pub(crate) fn debug_str(s: &str) -> (r: String)
    ensures
        r@ == debug_str_text(s@),
{
    format!("{s:?}")
}

} // verus!
