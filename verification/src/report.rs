//! Numbers as they are shown in a report: decimal digits, in groups of
//! three that are set apart by commas.

use vstd::prelude::*;
use vstd::string::*;

verus! {

/// The character for the digit `d`.
pub open spec fn digit_char(d: nat) -> char {
    ('0' as nat + d) as char
}

/// `n` in decimal, without leading zeros.
pub open spec fn decimal(n: nat) -> Seq<char>
    decreases n,
{
    if n < 10 {
        seq![digit_char(n)]
    } else {
        decimal(n / 10).push(digit_char(n % 10))
    }
}

/// The three digits of `m`, which is below 1000, leading zeros included.
pub open spec fn group_of_three(m: nat) -> Seq<char> {
    seq![digit_char(m / 100), digit_char(m / 10 % 10), digit_char(m % 10)]
}

/// `n` in decimal, with a comma before every group of three digits but the
/// first: `1234567` gives `1,234,567`.
pub open spec fn grouped(n: nat) -> Seq<char>
    decreases n,
{
    if n < 1000 {
        decimal(n)
    } else {
        grouped(n / 1000) + seq![','] + group_of_three(n % 1000)
    }
}

/// The groups of three digits that were split off `n`, last group first:
/// each was the tail of a number of four digits or more.
spec fn holds_groups(n: nat, groups: Seq<u64>) -> bool {
    &&& forall|k: nat| k < groups.len() ==> #[trigger] without_groups(n, k) >= 1000
    &&& forall|k: int|
        0 <= k < groups.len() ==> (#[trigger] groups[k]) == without_groups(n, k as nat) % 1000
}

/// `n` without its last `groups` groups of three digits.
spec fn without_groups(n: nat, groups: nat) -> nat
    decreases groups,
{
    if groups == 0 {
        n
    } else {
        without_groups(n, (groups - 1) as nat) / 1000
    }
}

fn digit_str(d: u64) -> (s: &'static str)
    requires
        d < 10,
    ensures
        s@ == seq![digit_char(d as nat)],
{
    proof {
        reveal_strlit("0");
        reveal_strlit("1");
        reveal_strlit("2");
        reveal_strlit("3");
        reveal_strlit("4");
        reveal_strlit("5");
        reveal_strlit("6");
        reveal_strlit("7");
        reveal_strlit("8");
        reveal_strlit("9");
    }
    let s = match d {
        0 => "0",
        1 => "1",
        2 => "2",
        3 => "3",
        4 => "4",
        5 => "5",
        6 => "6",
        7 => "7",
        8 => "8",
        _ => "9",
    };
    assert(s@ =~= seq![digit_char(d as nat)]);
    s
}

fn append_decimal(out: &mut String, n: u64)
    requires
        n < 1000,
    ensures
        final(out)@ == old(out)@ + decimal(n as nat),
{
    proof {
        reveal_with_fuel(decimal, 3);
    }
    if n >= 100 {
        out.append(digit_str(n / 100));
    }
    if n >= 10 {
        out.append(digit_str(n / 10 % 10));
    }
    out.append(digit_str(n % 10));
    assert(final(out)@ =~= old(out)@ + decimal(n as nat));
}

fn append_group(out: &mut String, m: u64)
    requires
        m < 1000,
    ensures
        final(out)@ == old(out)@ + group_of_three(m as nat),
{
    out.append(digit_str(m / 100));
    out.append(digit_str(m / 10 % 10));
    out.append(digit_str(m % 10));
    assert(final(out)@ =~= old(out)@ + group_of_three(m as nat));
}

/// Writes `n` in decimal, in groups of three digits set apart by commas.
pub fn size_to_string(n: u64) -> (text: String)
    ensures
        text@ == grouped(n as nat),
{
    let mut groups: Vec<u64> = Vec::new();
    let mut rest = n;
    while rest >= 1000
        invariant
            rest == without_groups(n as nat, groups@.len()),
            holds_groups(n as nat, groups@),
        decreases rest,
    {
        let ghost split = groups@;
        groups.push(rest % 1000);
        rest = rest / 1000;
        assert forall|k: int| 0 <= k < groups@.len() implies (#[trigger] groups@[k])
            == without_groups(n as nat, k as nat) % 1000 by {
            if k < split.len() {
                assert(groups@[k] == split[k]);
            }
        }
    }
    let mut text = String::new();
    append_decimal(&mut text, rest);
    let mut left = groups.len();
    assert(text@ =~= grouped(without_groups(n as nat, left as nat)));
    while left > 0
        invariant
            left <= groups@.len(),
            text@ == grouped(without_groups(n as nat, left as nat)),
            holds_groups(n as nat, groups@),
        decreases left,
    {
        left = left - 1;
        proof {
            reveal_strlit(",");
            assert(groups@[left as int] == without_groups(n as nat, left as nat) % 1000);
            assert(without_groups(n as nat, (left + 1) as nat) == without_groups(
                n as nat,
                left as nat,
            ) / 1000);
        }
        text.append(",");
        append_group(&mut text, groups[left]);
        assert(text@ =~= grouped(without_groups(n as nat, left as nat)));
    }
    text
}

} // verus!
