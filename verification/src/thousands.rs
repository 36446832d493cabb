//! Decimal rendering of byte and nanosecond counts, grouped by thousands.

use vstd::prelude::*;

verus! {

/// `String::push` appends exactly the given character and leaves the
/// characters already in the string as they were.
pub assume_specification[ String::push ](s: &mut String, ch: char)
    ensures
        final(s)@ == old(s)@.push(ch),
;

/// The largest power of one thousand that gets a group of its own.
pub const TOP_GROUP: u128 = 1_000_000_000;

/// The character of the decimal digit `d`.
pub open spec fn digit_char(d: nat) -> char {
    (48 + d) as char
}

/// `n` in decimal notation, without leading zeros; `"0"` for zero.
pub open spec fn decimal(n: nat) -> Seq<char>
    decreases n,
{
    if n < 10 {
        seq![digit_char(n)]
    } else {
        decimal(n / 10).push(digit_char(n % 10))
    }
}

/// The last three decimal digits of `n`, zeros included.
pub open spec fn triple(n: nat) -> Seq<char> {
    seq![digit_char(n / 100 % 10), digit_char(n / 10 % 10), digit_char(n % 10)]
}

/// The groups of `n` from the one that counts multiples of `base` down to the
/// units, three digits each, with `sep` between neighbours. `base` is a power
/// of one thousand; zero stands for "no group left".
pub open spec fn lower_groups(n: nat, sep: char, base: nat) -> Seq<char>
    decreases base,
{
    if base == 0 {
        Seq::empty()
    } else if base == 1 {
        triple(n % 1000)
    } else {
        (triple(n / base % 1000) + seq![sep]) + lower_groups(n, sep, base / 1000)
    }
}

/// The weight of the leading group of `n`: the largest of 1, 10^3, 10^6 and
/// 10^9 that `n` reaches, so that everything from 10^9 up stays in one group.
pub open spec fn leading_base(n: nat) -> nat {
    if n >= 1_000_000_000 {
        1_000_000_000
    } else if n >= 1_000_000 {
        1_000_000
    } else if n >= 1_000 {
        1_000
    } else {
        1
    }
}

/// `n` with its digits grouped by thousands: the leading group as it is,
/// every lower group as three digits, `sep` between groups.
pub open spec fn thousands_sep(n: nat, sep: char) -> Seq<char> {
    let lead = leading_base(n);
    if lead == 1 {
        decimal(n)
    } else {
        (decimal(n / lead) + seq![sep]) + lower_groups(n, sep, lead / 1000)
    }
}

/// Below the leading group, the group that counts multiples of `base` is read
/// off the remainder that the higher groups left behind.
proof fn lemma_group_of_remainder(n: nat, base: nat)
    requires
        base > 0,
    ensures
        (n % (base * 1000)) / base == n / base % 1000,
        (n % (base * 1000)) % base == n % base,
{
    let group = (n as int / base as int) % 1000;
    let below = n as int % base as int;
    vstd::arithmetic::div_mod::lemma_mod_breakdown(n as int, base as int, 1000);
    assert(base * group == group * base) by (nonlinear_arith);
    vstd::arithmetic::div_mod::lemma_fundamental_div_mod_converse(
        n as int % (base as int * 1000),
        base as int,
        group,
        below,
    );
}

/// The first group weight that `n` reaches, going down from the top, is the
/// weight of its leading group.
proof fn lemma_first_group_leads(n: nat, base: nat)
    requires
        base == 1_000_000_000 || base == 1_000_000 || base == 1_000 || base == 1,
        base < 1_000_000_000 ==> n < base * 1000,
        base == 1 || n / base != 0,
    ensures
        leading_base(n) == base,
{
    if base == 1_000_000_000 {
        assert(n / 1_000_000_000 != 0 ==> n >= 1_000_000_000);
    } else if base == 1_000_000 {
        assert(n / 1_000_000 != 0 ==> n >= 1_000_000);
    } else if base == 1_000 {
        assert(n / 1_000 != 0 ==> n >= 1_000);
    }
}

fn digit(d: u128) -> (c: char)
    requires
        d < 10,
    ensures
        c == digit_char(d as nat),
{
    (48u8 + d as u8) as char
}

/// Appends `n` in decimal notation.
pub fn push_decimal(out: &mut String, n: u128)
    ensures
        final(out)@ == old(out)@ + decimal(n as nat),
    decreases n,
{
    if n >= 10 {
        push_decimal(out, n / 10);
    }
    out.push(digit(n % 10));
    assert(out@ =~= old(out)@ + decimal(n as nat));
}

fn push_triple(out: &mut String, n: u128)
    requires
        n < 1000,
    ensures
        final(out)@ == old(out)@ + triple(n as nat),
{
    out.push(digit(n / 100));
    out.push(digit(n / 10 % 10));
    out.push(digit(n % 10));
    assert(out@ =~= old(out)@ + triple(n as nat));
}

/// Format a number with thousands separators.
pub fn fmt_thousands_sep(n: usize, sep: char) -> (output: String)
    ensures
        output@ == thousands_sep(n as nat, sep),
{
    fmt_thousands_sep_wide(n as u128, sep)
}

/// Format a number of any width with thousands separators.
pub fn fmt_thousands_sep_wide(n: u128, sep: char) -> (output: String)
    ensures
        output@ == thousands_sep(n as nat, sep),
{
    let mut output = String::new();
    let mut trailing = false;
    let mut rest: u128 = n;
    let mut base: u128 = TOP_GROUP;
    while base != 0
        invariant
            base == 1_000_000_000 || base == 1_000_000 || base == 1_000 || base == 1 || base == 0,
            base == 0 ==> trailing,
            trailing ==> base < 1_000_000_000,
            !trailing ==> output@ == Seq::<char>::empty() && rest == n,
            !trailing && base < 1_000_000_000 ==> n < base * 1000,
            trailing ==> thousands_sep(n as nat, sep) == output@ + lower_groups(
                n as nat,
                sep,
                base as nat,
            ),
            trailing && base != 0 ==> rest == (n as int) % (base * 1000),
        decreases base,
    {
        let group = rest / base;
        proof {
            if trailing {
                lemma_group_of_remainder(n as nat, base as nat);
            }
        }
        if base == 1 || trailing || group != 0 {
            let ghost before = output@;
            if !trailing {
                push_decimal(&mut output, group);
            } else {
                assert(group == n / base % 1000);
                push_triple(&mut output, group);
            }
            if base != 1 {
                output.push(sep);
            }
            proof {
                let next = (base / 1000) as nat;
                if trailing {
                    assert(lower_groups(n as nat, sep, base as nat) =~= if base == 1 {
                        triple((n % 1000) as nat)
                    } else {
                        (triple((n / base % 1000) as nat) + seq![sep]) + lower_groups(
                            n as nat,
                            sep,
                            next,
                        )
                    });
                    assert(before + lower_groups(n as nat, sep, base as nat) =~= output@
                        + lower_groups(n as nat, sep, next));
                } else {
                    lemma_first_group_leads(n as nat, base as nat);
                    assert(thousands_sep(n as nat, sep) =~= output@ + lower_groups(
                        n as nat,
                        sep,
                        next,
                    ));
                }
            }
            trailing = true;
        }
        rest = rest % base;
        base = base / 1000;
    }
    assert(output@ + lower_groups(n as nat, sep, 0) =~= output@);
    output
}

/// Whether `c` is a decimal digit.
pub open spec fn is_digit(c: char) -> bool {
    48 <= c as int <= 57
}

/// The test that every character but `sep` passes.
pub open spec fn other_than(sep: char) -> spec_fn(char) -> bool {
    |c: char| c != sep
}

/// `text` with every occurrence of `sep` taken out.
pub open spec fn without(text: Seq<char>, sep: char) -> Seq<char> {
    text.filter(other_than(sep))
}

/// Taking a character out of a text that does not hold it changes nothing.
proof fn lemma_without_absent(text: Seq<char>, sep: char)
    requires
        forall|i: int| 0 <= i < text.len() ==> text[i] != sep,
    ensures
        without(text, sep) == text,
    decreases text.len(),
{
    reveal(Seq::filter);
    if text.len() > 0 {
        lemma_without_absent(text.drop_last(), sep);
        assert(text.drop_last().push(text.last()) =~= text);
    }
}

/// The characters of the ten digits are digits.
proof fn lemma_digit_char_is_digit(d: nat)
    requires
        d < 10,
    ensures
        is_digit(digit_char(d)),
        digit_char(d) as int == 48 + d,
{
}

/// Decimal notation consists of digits.
proof fn lemma_decimal_is_digits(n: nat)
    ensures
        forall|i: int| 0 <= i < decimal(n).len() ==> is_digit(#[trigger] decimal(n)[i]),
    decreases n,
{
    lemma_digit_char_is_digit(n % 10);
    if n >= 10 {
        lemma_decimal_is_digits(n / 10);
        let shorter = decimal(n / 10);
        assert forall|i: int| 0 <= i < decimal(n).len() implies is_digit(
            #[trigger] decimal(n)[i],
        ) by {
            if i < shorter.len() {
                assert(decimal(n)[i] == shorter[i]);
            }
        }
    }
}

/// Three digits are digits.
proof fn lemma_triple_is_digits(n: nat)
    ensures
        forall|i: int| 0 <= i < triple(n).len() ==> is_digit(#[trigger] triple(n)[i]),
{
    lemma_digit_char_is_digit(n / 100 % 10);
    lemma_digit_char_is_digit(n / 10 % 10);
    lemma_digit_char_is_digit(n % 10);
}

/// From a thousand on, a number's decimal notation is that of its thousands
/// followed by its last three digits.
proof fn lemma_decimal_splits(n: nat)
    requires
        n >= 1000,
    ensures
        decimal(n) == decimal(n / 1000) + triple(n % 1000),
{
    let tens = n / 10;
    let hundreds = n / 100;
    assert(tens / 10 == hundreds);
    assert(hundreds / 10 == n / 1000);
    assert(decimal(n) == decimal(tens).push(digit_char(n % 10)));
    assert(decimal(tens) == decimal(hundreds).push(digit_char(tens % 10)));
    assert(decimal(hundreds) == decimal(n / 1000).push(digit_char(hundreds % 10)));
    let last = n % 1000;
    assert(last / 100 % 10 == hundreds % 10);
    assert(last / 10 % 10 == tens % 10);
    assert(last % 10 == n % 10);
    assert(decimal(n) =~= decimal(n / 1000) + triple(last));
}

/// The digits of the groups of `n` from the one that counts multiples of
/// `base` down to the units.
pub open spec fn lower_digits(n: nat, base: nat) -> Seq<char>
    decreases base,
{
    if base == 0 {
        Seq::empty()
    } else if base == 1 {
        triple(n % 1000)
    } else {
        triple(n / base % 1000) + lower_digits(n, base / 1000)
    }
}

/// A text in two parts with a separator between them is, without separators,
/// the two parts without separators.
proof fn lemma_without_joint(front: Seq<char>, back: Seq<char>, sep: char)
    ensures
        without((front + seq![sep]) + back, sep) == without(front, sep) + without(back, sep),
{
    let keep = other_than(sep);
    assert(seq![sep].filter(keep) =~= Seq::<char>::empty()) by {
        reveal_with_fuel(Seq::filter, 2);
    }
    Seq::filter_distributes_over_add(front, seq![sep], keep);
    Seq::filter_distributes_over_add(front + seq![sep], back, keep);
    assert(without(front, sep) + Seq::<char>::empty() =~= without(front, sep));
}

/// Without separators, the lower groups are their digits.
proof fn lemma_lower_groups_are_digits(n: nat, sep: char, base: nat)
    requires
        !is_digit(sep),
        base == 1_000_000 || base == 1_000 || base == 1,
    ensures
        without(lower_groups(n, sep, base), sep) == lower_digits(n, base),
    decreases base,
{
    if base == 1 {
        lemma_triple_is_digits(n % 1000);
        lemma_without_absent(triple(n % 1000), sep);
    } else {
        let group = triple(n / base % 1000);
        lemma_triple_is_digits(n / base % 1000);
        lemma_without_absent(group, sep);
        lemma_lower_groups_are_digits(n, sep, base / 1000);
        lemma_without_joint(group, lower_groups(n, sep, base / 1000), sep);
    }
}

/// A number that reaches a thousand times `base` is written as what it holds
/// of that, followed by the digits of its lower groups.
proof fn lemma_decimal_by_groups(n: nat, base: nat)
    requires
        base == 1_000_000 || base == 1_000 || base == 1,
        n >= base * 1000,
    ensures
        decimal(n) == decimal(n / (base * 1000)) + lower_digits(n, base),
    decreases base,
{
    lemma_decimal_splits(n);
    if base == 1 {
    } else {
        let lower = base / 1000;
        lemma_decimal_by_groups(n, lower);
        lemma_decimal_splits(n / base);
        if base == 1_000 {
            assert(n / 1_000 / 1000 == n / 1_000_000);
        } else {
            assert(n / 1_000_000 / 1000 == n / 1_000_000_000);
        }
        assert(n / (lower * 1000) == n / base);
        assert(n / base / 1000 == n / (base * 1000));
        assert(decimal(n) =~= decimal(n / (base * 1000)) + (triple(n / base % 1000) + lower_digits(
            n,
            lower,
        )));
    }
}

/// Grouping changes no digit: with the separators taken out, the grouped
/// notation of a number is its decimal notation. The separator must be no
/// digit itself.
pub proof fn lemma_grouping_keeps_digits(n: nat, sep: char)
    requires
        !is_digit(sep),
    ensures
        without(thousands_sep(n, sep), sep) == decimal(n),
{
    let lead = leading_base(n);
    let head = decimal(n / lead);
    lemma_decimal_is_digits(n / lead);
    lemma_without_absent(head, sep);
    if lead > 1 {
        let base = lead / 1000;
        lemma_lower_groups_are_digits(n, sep, base);
        lemma_without_joint(head, lower_groups(n, sep, base), sep);
        lemma_decimal_by_groups(n, base);
        assert(base * 1000 == lead);
    }
}

} // verus!
