//! Fixed-precision decimal text of the double-precision value of pi, used as
//! the salt of token identifiers.
use vstd::prelude::*;

verus! {

/// Number of fractional decimal digits in the exact expansion of the
/// double-precision value closest to pi.
pub const PI_FRACTION_LEN: usize = 48;

/// The fractional digits of the exact decimal expansion of the
/// double-precision value closest to pi
/// (3.141592653589793115997963468544185161590576171875).
pub open spec fn pi_fraction() -> Seq<u8> {
    seq![
        1u8, 4, 1, 5, 9, 2, 6, 5, 3, 5, 8, 9, 7, 9, 3, 1, 1, 5, 9, 9, 7, 9, 6, 3,
        4, 6, 8, 5, 4, 4, 1, 8, 5, 1, 6, 1, 5, 9, 0, 5, 7, 6, 1, 7, 1, 8, 7, 5,
    ]
}

/// The character of a decimal digit.
pub open spec fn digit_char(d: nat) -> char {
    seq!['0', '1', '2', '3', '4', '5', '6', '7', '8', '9'][d as int]
}

/// The characters of a sequence of decimal digits.
pub open spec fn digit_chars(ds: Seq<u8>) -> Seq<char> {
    ds.map_values(|d: u8| digit_char(d as nat))
}

/// Adds one in the last place of a sequence of decimal digits, carrying
/// leftwards (a carry out of the first digit is dropped).
pub open spec fn bump(ds: Seq<u8>) -> Seq<u8>
    decreases ds.len(),
{
    if ds.len() == 0 {
        ds
    } else if ds.last() == 9 {
        bump(ds.drop_last()).push(0)
    } else {
        ds.drop_last().push((ds.last() + 1) as u8)
    }
}

/// The first `d` fractional digits of pi's double-precision value, rounded to
/// nearest, then padded with zeros past the exact expansion. The digit after
/// the cut decides: an exact tie happens only when cutting before the final
/// `5`, where the digit kept is an odd `7`, so rounding half up and rounding
/// half to even agree.
pub open spec fn rounded_fraction(d: nat) -> Seq<u8> {
    if d < pi_fraction().len() {
        if pi_fraction()[d as int] >= 5 {
            bump(pi_fraction().take(d as int))
        } else {
            pi_fraction().take(d as int)
        }
    } else {
        pi_fraction() + Seq::new((d - pi_fraction().len()) as nat, |i: int| 0u8)
    }
}

/// The text of pi's double-precision value with exactly `d` fractional digits:
/// `"3"` when `d` is zero, `"3."` followed by the rounded digits otherwise.
pub open spec fn pi_text(d: nat) -> Seq<char> {
    if d == 0 {
        seq!['3']
    } else {
        seq!['3', '.'] + digit_chars(rounded_fraction(d))
    }
}

/// The one-character text of a decimal digit.
pub fn digit_str(d: u8) -> (r: &'static str)
    requires
        d < 10,
    ensures
        r@ == seq![digit_char(d as nat)],
{
    let all = "0123456789";
    proof {
        reveal_strlit("0123456789");
    }
    let r = all.substring_char(d as usize, d as usize + 1);
    assert(r@ =~= seq![digit_char(d as nat)]);
    r
}

/// Adds one in the last place of `ds`, in place.
fn bump_in_place(ds: &mut Vec<u8>)
    requires
        forall|i: int| 0 <= i < old(ds)@.len() ==> old(ds)@[i] < 10,
    ensures
        final(ds)@ == bump(old(ds)@),
        forall|i: int| 0 <= i < final(ds)@.len() ==> final(ds)@[i] < 10,
{
    let ghost orig = ds@;
    let mut i: usize = ds.len();
    assert(orig.take(i as int) =~= orig);
    assert(ds@.skip(i as int) =~= Seq::<u8>::empty());
    assert(orig + Seq::<u8>::empty() =~= orig);
    while i > 0 && ds[i - 1] == 9
        invariant
            i <= ds@.len() == orig.len(),
            ds@.take(i as int) == orig.take(i as int),
            bump(orig) == bump(orig.take(i as int)) + ds@.skip(i as int),
            forall|j: int| 0 <= j < ds@.len() ==> ds@[j] < 10,
        decreases i,
    {
        let ghost before = ds@;
        assert(orig.take(i as int).drop_last() =~= orig.take(i - 1));
        ds.set(i - 1, 0);
        assert(ds@.skip(i - 1) =~= seq![0u8] + before.skip(i as int));
        assert(ds@.take(i - 1) =~= before.take(i - 1));
        assert(before.take(i - 1) =~= before.take(i as int).take(i - 1));
        assert(bump(orig.take(i - 1)).push(0) + before.skip(i as int) =~= bump(orig.take(i - 1))
            + ds@.skip(i - 1));
        i = i - 1;
    }
    if i > 0 {
        let ghost before = ds@;
        assert(before.take(i - 1) =~= before.take(i as int).take(i - 1));
        assert(orig.take(i as int).drop_last() =~= orig.take(i - 1));
        assert(orig[i - 1] == orig.take(i as int).last());
        let v = ds[i - 1];
        ds.set(i - 1, v + 1);
        assert(ds@ =~= orig.take(i - 1).push((v + 1) as u8) + before.skip(i as int));
    } else {
        assert(ds@.skip(0) =~= ds@);
        assert(orig.take(0) =~= Seq::<u8>::empty());
    }
}

/// The text of the double-precision value of pi with `digits` fractional
/// digits, rounded to nearest (`"3"` when `digits` is zero).
pub fn generate_pi_digits(digits: usize) -> (r: String)
    ensures
        r@ == pi_text(digits as nat),
{
    let fraction: [u8; 48] = [
        1, 4, 1, 5, 9, 2, 6, 5, 3, 5, 8, 9, 7, 9, 3, 1, 1, 5, 9, 9, 7, 9, 6, 3,
        4, 6, 8, 5, 4, 4, 1, 8, 5, 1, 6, 1, 5, 9, 0, 5, 7, 6, 1, 7, 1, 8, 7, 5,
    ];
    assert(fraction@ =~= pi_fraction());
    let mut out = String::from_str("3");
    proof {
        reveal_strlit("3");
    }
    if digits == 0 {
        assert(out@ =~= seq!['3']);
        return out;
    }
    let mut ds: Vec<u8> = Vec::new();
    let mut i: usize = 0;
    while i < digits
        invariant
            i <= digits,
            ds@.len() == i,
            fraction@ == pi_fraction(),
            forall|j: int| 0 <= j < i ==> ds@[j] == (if j < 48 { pi_fraction()[j] } else { 0u8 }),
        decreases digits - i,
    {
        if i < PI_FRACTION_LEN {
            ds.push(fraction[i]);
        } else {
            ds.push(0);
        }
        i = i + 1;
    }
    if digits < PI_FRACTION_LEN {
        assert(ds@ =~= pi_fraction().take(digits as int));
        if fraction[digits] >= 5 {
            bump_in_place(&mut ds);
        }
    } else {
        assert(ds@ =~= pi_fraction() + Seq::new((digits - 48) as nat, |i: int| 0u8));
    }
    assert(ds@ == rounded_fraction(digits as nat));
    out.append(".");
    proof {
        reveal_strlit(".");
    }
    let mut k: usize = 0;
    while k < ds.len()
        invariant
            k <= ds@.len(),
            ds@ == rounded_fraction(digits as nat),
            forall|j: int| 0 <= j < ds@.len() ==> ds@[j] < 10,
            out@ == seq!['3', '.'] + digit_chars(ds@.take(k as int)),
        decreases ds@.len() - k,
    {
        out.append(digit_str(ds[k]));
        assert(ds@.take(k + 1) =~= ds@.take(k as int).push(ds@[k as int]));
        assert(digit_chars(ds@.take(k + 1)) =~= digit_chars(ds@.take(k as int)).push(
            digit_char(ds@[k as int] as nat),
        ));
        k = k + 1;
    }
    assert(ds@.take(k as int) =~= ds@);
    out
}

} // verus!
