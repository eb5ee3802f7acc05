use vstd::prelude::*;
use crate::standing::NUM_PLAYERS;
use crate::strategy::Strategy;

verus! {

/// The strategy of panel player `j`.
pub open spec fn panel_strategy(j: int) -> Strategy {
    if j == 0 {
        Strategy::TrustingTitForTat
    } else if j == 1 {
        Strategy::SuspiciousTitForTat
    } else if j == 2 {
        Strategy::Naive
    } else if j == 3 {
        Strategy::Evil
    } else if j == 4 {
        Strategy::Random
    } else if j == 5 {
        Strategy::Xor
    } else if j == 6 {
        Strategy::OppositeTitForTat
    } else if j == 7 {
        Strategy::Xnor
    } else if j == 8 {
        Strategy::Nand
    } else {
        Strategy::Bernoulli
    }
}

/// The display name of panel player `j`.
pub open spec fn panel_name(j: int) -> Seq<char> {
    if j == 0 {
        "trusting\nt4t"@
    } else if j == 1 {
        "suspicious\nt4t"@
    } else if j == 2 {
        "naive"@
    } else if j == 3 {
        "evil"@
    } else if j == 4 {
        "random"@
    } else if j == 5 {
        "xor"@
    } else if j == 6 {
        "opposite\nt4t"@
    } else if j == 7 {
        "xnor"@
    } else if j == 8 {
        "nand"@
    } else {
        "Bernoulli"@
    }
}

/// The decimal digit `d`.
pub open spec fn digit_char(d: nat) -> char {
    if d == 0 {
        '0'
    } else if d == 1 {
        '1'
    } else if d == 2 {
        '2'
    } else if d == 3 {
        '3'
    } else if d == 4 {
        '4'
    } else if d == 5 {
        '5'
    } else if d == 6 {
        '6'
    } else if d == 7 {
        '7'
    } else if d == 8 {
        '8'
    } else {
        '9'
    }
}

/// `n` written in decimal, without leading zeros.
pub open spec fn decimal(n: nat) -> Seq<char>
    decreases n,
{
    if n < 10 {
        seq![digit_char(n)]
    } else {
        decimal(n / 10).push(digit_char(n % 10))
    }
}

/// Relies on `ToString` for `u8`, that is its `Display`: the number in
/// decimal.
#[verifier::external_body]
pub(crate) fn decimal_name(n: u8) -> (r: String)
    ensures
        r@ == decimal(n as nat),
{
    n.to_string()
}

/// The name and strategy of panel player `j`.
pub(crate) fn panel_entry(j: usize) -> (r: (&'static str, Strategy))
    requires
        j < NUM_PLAYERS,
    ensures
        r.0@ == panel_name(j as int),
        r.1 == panel_strategy(j as int),
{
    if j == 0 {
        ("trusting\nt4t", Strategy::TrustingTitForTat)
    } else if j == 1 {
        ("suspicious\nt4t", Strategy::SuspiciousTitForTat)
    } else if j == 2 {
        ("naive", Strategy::Naive)
    } else if j == 3 {
        ("evil", Strategy::Evil)
    } else if j == 4 {
        ("random", Strategy::Random)
    } else if j == 5 {
        ("xor", Strategy::Xor)
    } else if j == 6 {
        ("opposite\nt4t", Strategy::OppositeTitForTat)
    } else if j == 7 {
        ("xnor", Strategy::Xnor)
    } else if j == 8 {
        ("nand", Strategy::Nand)
    } else {
        ("Bernoulli", Strategy::Bernoulli)
    }
}

} // verus!
