//! What holds of numbers in decimal, and of times written with them.

use crate::decimal::{decimal, digit, iso8601_text, padded, UtcTime};
use vstd::prelude::*;

verus! {

/// Whether a text is digits alone.
pub open spec fn all_digits(t: Seq<char>) -> bool {
    forall|i: int| 0 <= i < t.len() ==> '0' <= #[trigger] t[i] && t[i] <= '9'
}

/// The number that digits stand for.
pub open spec fn value(t: Seq<char>) -> int
    decreases t.len(),
{
    if t.len() == 0 {
        0
    } else {
        10 * value(t.drop_last()) + (t.last() as int - 48)
    }
}

/// A power of ten.
pub open spec fn ten_to(n: nat) -> int
    decreases n,
{
    if n == 0 {
        1
    } else {
        10 * ten_to((n - 1) as nat)
    }
}

proof fn lemma_digit(n: nat)
    requires
        n < 10,
    ensures
        digit(n).len() == 1,
        digit(n)[0] as int == 48 + n,
        all_digits(digit(n)),
        value(digit(n)) == n,
{
    reveal_strlit("0");
    reveal_strlit("1");
    reveal_strlit("2");
    reveal_strlit("3");
    reveal_strlit("4");
    reveal_strlit("5");
    reveal_strlit("6");
    reveal_strlit("7");
    reveal_strlit("8");
    reveal_strlit("9");
    reveal_with_fuel(value, 2);
    assert(digit(n).drop_last() =~= Seq::<char>::empty());
}

proof fn lemma_one_more(t: Seq<char>, n: nat)
    requires
        all_digits(t),
        n < 10,
    ensures
        all_digits(t + digit(n)),
        value(t + digit(n)) == 10 * value(t) + n,
        (t + digit(n)).len() == t.len() + 1,
{
    lemma_digit(n);
    assert((t + digit(n)).drop_last() =~= t);
    assert((t + digit(n)).last() == digit(n)[0]);
}

/// A number in decimal is digits alone that stand for it, with no zero in front.
pub proof fn law_decimal(n: nat)
    ensures
        all_digits(decimal(n)),
        value(decimal(n)) == n,
        decimal(n).len() > 0,
        n > 0 ==> decimal(n)[0] != '0',
    decreases n,
{
    if n < 10 {
        lemma_digit(n);
    } else {
        law_decimal(n / 10);
        lemma_one_more(decimal(n / 10), n % 10);
        assert(decimal(n)[0] == decimal(n / 10)[0]);
    }
}

proof fn lemma_ten_to(n: nat)
    ensures
        ten_to(n) >= 1,
    decreases n,
{
    if n > 0 {
        lemma_ten_to((n - 1) as nat);
    }
}

/// A number with zeros in front is digits alone that stand for it, as many as are asked
/// for where that is enough.
pub proof fn law_padded(n: nat, width: nat)
    ensures
        all_digits(padded(n, width)),
        value(padded(n, width)) == n,
        width > 0 && n < ten_to(width) ==> padded(n, width).len() == width,
    decreases width,
{
    if width <= 1 {
        law_decimal(n);
        reveal_with_fuel(ten_to, 2);
        if width == 1 && n < ten_to(width) {
            lemma_digit(n);
        }
    } else {
        law_padded(n / 10, (width - 1) as nat);
        lemma_one_more(padded(n / 10, (width - 1) as nat), n % 10);
        lemma_ten_to((width - 1) as nat);
    }
}

/// A time is written with its year in four digits and the rest in two each, in order, with
/// the signs of ISO 8601 between them.
pub proof fn law_iso8601(t: UtcTime)
    requires
        t.year < 10000,
        t.month < 100,
        t.day < 100,
        t.hour < 100,
        t.minute < 100,
        t.second < 100,
    ensures
        ({
            let s = iso8601_text(t);
            &&& s.len() == 20
            &&& value(s.subrange(0, 4)) == t.year && s[4] == '-'
            &&& value(s.subrange(5, 7)) == t.month && s[7] == '-'
            &&& value(s.subrange(8, 10)) == t.day && s[10] == 'T'
            &&& value(s.subrange(11, 13)) == t.hour && s[13] == ':'
            &&& value(s.subrange(14, 16)) == t.minute && s[16] == ':'
            &&& value(s.subrange(17, 19)) == t.second && s[19] == 'Z'
        }),
{
    reveal_strlit("-");
    reveal_strlit("T");
    reveal_strlit(":");
    reveal_strlit("Z");
    reveal_with_fuel(ten_to, 5);
    law_padded(t.year as nat, 4);
    law_padded(t.month as nat, 2);
    law_padded(t.day as nat, 2);
    law_padded(t.hour as nat, 2);
    law_padded(t.minute as nat, 2);
    law_padded(t.second as nat, 2);
    let s = iso8601_text(t);
    assert(s.subrange(0, 4) =~= padded(t.year as nat, 4));
    assert(s.subrange(5, 7) =~= padded(t.month as nat, 2));
    assert(s.subrange(8, 10) =~= padded(t.day as nat, 2));
    assert(s.subrange(11, 13) =~= padded(t.hour as nat, 2));
    assert(s.subrange(14, 16) =~= padded(t.minute as nat, 2));
    assert(s.subrange(17, 19) =~= padded(t.second as nat, 2));
}

} // verus!
