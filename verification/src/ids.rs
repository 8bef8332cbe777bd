use vstd::prelude::*;

verus! {

/// A stable, densely-allocated integer handle naming one object for its
/// whole lifetime. Ids are allocated as a monotonically increasing sequence
/// and are never reused within a running world.
#[derive(Debug, PartialEq, Eq, Structural, Clone, Copy, Hash)]
pub struct Id(pub usize);

/// Decimal digit sequence of a natural number, most significant first.
pub open spec fn dec_digits(n: nat) -> Seq<char>
    decreases n,
{
    let d = digit_char((n % 10) as int);
    if n < 10 {
        seq![d]
    } else {
        dec_digits(n / 10).push(d)
    }
}

/// The character for one decimal digit value.
pub open spec fn digit_char(d: int) -> char {
    if d == 0 { '0' }
    else if d == 1 { '1' }
    else if d == 2 { '2' }
    else if d == 3 { '3' }
    else if d == 4 { '4' }
    else if d == 5 { '5' }
    else if d == 6 { '6' }
    else if d == 7 { '7' }
    else { if d == 8 { '8' } else { '9' } }
}

/// Appends the decimal digits of `n` to `out`.
pub fn push_decimal(out: &mut Vec<char>, n: usize)
    ensures
        final(out)@ == old(out)@ + dec_digits(n as nat),
    decreases n,
{
    if n >= 10 {
        push_decimal(out, n / 10);
    }
    let d = n % 10;
    let c = if d == 0 { '0' }
        else if d == 1 { '1' }
        else if d == 2 { '2' }
        else if d == 3 { '3' }
        else if d == 4 { '4' }
        else if d == 5 { '5' }
        else if d == 6 { '6' }
        else if d == 7 { '7' }
        else if d == 8 { '8' }
        else { '9' };
    out.push(c);
    proof {
        if n < 10 {
            assert(old(out)@ + dec_digits(n as nat) =~= out@);
        } else {
            assert(old(out)@ + dec_digits(n as nat) =~= out@);
        }
    }
}

impl Id {
    /// The numeric value of the handle.
    pub open spec fn idx(self) -> nat {
        self.0 as nat
    }

    /// The textual form of the handle: a hash sign followed by the decimal
    /// value.
    pub open spec fn text_view(self) -> Seq<char> {
        seq!['#'] + dec_digits(self.idx())
    }

    /// Renders the handle in its textual form.
    pub fn text(&self) -> (r: String)
        ensures
            r@ == self.text_view(),
    {
        let mut chars: Vec<char> = Vec::new();
        chars.push('#');
        push_decimal(&mut chars, self.0);
        proof {
            assert(seq!['#'] + dec_digits(self.idx()) =~= chars@);
        }
        crate::strings::string_from_chars(chars)
    }
}

} // verus!
