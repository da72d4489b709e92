//! What one line of a session log says, and what it costs.

use vstd::arithmetic::power::{lemma_pow_increases, pow};
use vstd::prelude::*;

use crate::numbers::{decimal_digits, digits_value, law_decimal_shows};
use crate::text::{
    chars_of, contains, law_occurs_between, law_occurs_in_part, matches_at, occurs, occurs_at,
};

verus! {

/// The tokens that one answer of the model used.
#[derive(Clone, Copy, Debug, PartialEq, Eq, Structural)]
pub struct Usage {
    pub input_tokens: u64,
    pub output_tokens: u64,
    pub cache_creation_input_tokens: u64,
    pub cache_read_input_tokens: u64,
}

/// The answer of the model that a line holds.
#[derive(Debug)]
pub struct ApiMessage {
    pub id: Option<String>,
    pub model: Option<String>,
    pub usage: Option<Usage>,
}

/// One line of a session log.
#[derive(Debug)]
pub struct Message {
    /// Who wrote the message.
    pub kind: String,
    pub message: Option<ApiMessage>,
}

/// Prices in cents per million tokens.
#[derive(Clone, Copy, Debug, PartialEq, Eq, Structural)]
pub struct Pricing {
    pub input: u64,
    pub output: u64,
    pub cache_write: u64,
    pub cache_read: u64,
}

/// `c` is a decimal digit.
pub open spec fn is_digit(c: char) -> bool {
    '0' <= c && c <= '9'
}

/// The number of digits that stand in `s` from the index `i` on.
pub open spec fn digits_at(s: Seq<char>, i: int) -> nat
    decreases s.len() - i,
{
    if 0 <= i < s.len() && is_digit(s[i]) {
        1 + digits_at(s, i + 1)
    } else {
        0
    }
}

/// The version that stands in `s` at the index `i` is `least` or a later one. A
/// version has fewer digits than a date, which has eight.
pub open spec fn version_at(s: Seq<char>, i: int, least: int) -> bool {
    0 < digits_at(s, i) < 8 && digits_value(s.subrange(i, i + digits_at(s, i))) >= least
}

/// At the index `i` of `model` stands an Opus of version 4.5 or later: `opus-` and
/// a version from 5 on, or `opus-4-` and a minor version from 5 on.
pub open spec fn recent_opus_at(model: Seq<char>, i: int) -> bool {
    ||| occurs_at(model, "opus-"@, i) && version_at(model, i + "opus-"@.len(), 5)
    ||| occurs_at(model, "opus-4-"@, i) && version_at(model, i + "opus-4-"@.len(), 5)
}

/// `model` is an Opus of version 4.5 or later. After `opus-4-5` and `opus-4-6` more
/// digits may follow.
pub open spec fn recent_opus(model: Seq<char>) -> bool {
    ||| occurs(model, "opus-4-5"@)
    ||| occurs(model, "opus-4-6"@)
    ||| exists|i: int| recent_opus_at(model, i)
}

fn version_from(s: &Vec<char>, i: usize, least: u64) -> (r: bool)
    ensures
        r == version_at(s@, i as int, least as int),
{
    let mut value: u64 = 0;
    let mut n: usize = 0;
    proof {
        reveal(pow);
        assert(s@.len() >= i ==> s@.subrange(i as int, i as int) =~= Seq::empty());
    }
    while i < s.len() && n < s.len() - i && '0' <= s[i + n] && s[i + n] <= '9'
        invariant
            n <= 7,
            i < s@.len() ==> n <= s@.len() - i,
            i >= s@.len() ==> n == 0,
            digits_at(s@, i as int) == n + digits_at(s@, i + n),
            i <= s@.len() ==> value == digits_value(s@.subrange(i as int, i + n)),
            value < pow(10, n as nat),
        decreases s@.len() - n,
    {
        if n == 7 {
            return false;
        }
        proof {
            reveal_with_fuel(pow, 8);
            lemma_pow_increases(10, n as nat, 7);
        }
        value = 10 * value + (s[i + n] as u64 - 48);
        n += 1;
        assert(s@.subrange(i as int, i + n).drop_last() =~= s@.subrange(i as int, i + n - 1));
    }
    n > 0 && value >= least
}

fn names_recent_opus(model: &str) -> (r: bool)
    ensures
        r == recent_opus(model@),
{
    if contains(model, "opus-4-5") || contains(model, "opus-4-6") {
        return true;
    }
    let chars = chars_of(model);
    let opus = chars_of("opus-");
    let opus_four = chars_of("opus-4-");
    let mut i: usize = 0;
    while i < chars.len()
        invariant
            chars@ == model@,
            opus@ == "opus-"@,
            opus_four@ == "opus-4-"@,
            i <= chars@.len(),
            forall|j: int| 0 <= j < i ==> !recent_opus_at(model@, j),
        decreases chars@.len() - i,
    {
        if matches_at(&chars, &opus, i) && version_from(&chars, i + opus.len(), 5) {
            assert(recent_opus_at(model@, i as int));
            return true;
        }
        if matches_at(&chars, &opus_four, i) && version_from(&chars, i + opus_four.len(), 5) {
            assert(recent_opus_at(model@, i as int));
            return true;
        }
        i += 1;
    }
    proof {
        reveal_strlit("opus-");
        reveal_strlit("opus-4-");
    }
    false
}

/// The prices of the model with the name `model`: Opus costs 5 and 25 dollars per
/// million tokens from version 4.5 on, and 15 and 75 before.
pub open spec fn pricing(model: Seq<char>) -> Pricing {
    if occurs(model, "haiku-4-5"@) {
        Pricing { input: 100, output: 500, cache_write: 125, cache_read: 10 }
    } else if occurs(model, "haiku"@) {
        Pricing { input: 80, output: 400, cache_write: 100, cache_read: 8 }
    } else if occurs(model, "sonnet"@) {
        Pricing { input: 300, output: 1500, cache_write: 375, cache_read: 30 }
    } else if recent_opus(model) {
        Pricing { input: 500, output: 2500, cache_write: 625, cache_read: 50 }
    } else {
        Pricing { input: 1500, output: 7500, cache_write: 1875, cache_read: 150 }
    }
}

/// The prices of the model with the name `model`. Opus costs 5 and 25 dollars per
/// million tokens from version 4.5 on, and 15 and 75 before. A model that is not
/// known has the prices of the most expensive one.
pub fn model_pricing(model: &str) -> (r: Pricing)
    ensures
        r == pricing(model@),
{
    if contains(model, "haiku-4-5") {
        Pricing { input: 100, output: 500, cache_write: 125, cache_read: 10 }
    } else if contains(model, "haiku") {
        Pricing { input: 80, output: 400, cache_write: 100, cache_read: 8 }
    } else if contains(model, "sonnet") {
        Pricing { input: 300, output: 1500, cache_write: 375, cache_read: 30 }
    } else if names_recent_opus(model) {
        Pricing { input: 500, output: 2500, cache_write: 625, cache_read: 50 }
    } else {
        Pricing { input: 1500, output: 7500, cache_write: 1875, cache_read: 150 }
    }
}

/// What the input and the output of `usage` cost, in microcents (millionths of a
/// cent). What passes through the cache is free.
pub open spec fn charge(usage: Usage, model: Seq<char>) -> nat {
    (usage.input_tokens * pricing(model).input + usage.output_tokens * pricing(model).output) as nat
}

/// No price exceeds those of the most expensive model.
pub proof fn law_charge_bounded(usage: Usage, model: Seq<char>)
    ensures
        charge(usage, model) <= 1500 * usage.input_tokens + 7500 * usage.output_tokens,
{
    let price = pricing(model);
    assert(usage.input_tokens * price.input <= 1500 * usage.input_tokens) by (nonlinear_arith)
        requires
            price.input <= 1500,
    ;
    assert(usage.output_tokens * price.output <= 7500 * usage.output_tokens) by (nonlinear_arith)
        requires
            price.output <= 7500,
    ;
    assert(usage.input_tokens * price.input >= 0) by (nonlinear_arith);
    assert(usage.output_tokens * price.output >= 0) by (nonlinear_arith);
}

/// What `usage` costs, in microcents (millionths of a cent).
pub fn usage_cost(usage: &Usage, model: &str) -> (r: u128)
    ensures
        r == charge(*usage, model@),
        r <= 1500 * usage.input_tokens + 7500 * usage.output_tokens,
{
    let price = model_pricing(model);
    proof {
        law_charge_bounded(*usage, model@);
        assert(usage.input_tokens * price.input >= 0) by (nonlinear_arith);
        assert(usage.output_tokens * price.output >= 0) by (nonlinear_arith);
    }
    usage.input_tokens as u128 * price.input as u128 + usage.output_tokens as u128
        * price.output as u128
}

/// A model with `haiku-4-5` anywhere in its name has the prices of Haiku 4.5.
pub proof fn law_haiku_4_5_prices(before: Seq<char>, after: Seq<char>, usage: Usage)
    ensures
        ({
            let model = before + "haiku-4-5"@ + after;
            &&& pricing(model)
                == (Pricing { input: 100, output: 500, cache_write: 125, cache_read: 10 })
            &&& charge(usage, model) == 100 * usage.input_tokens + 500 * usage.output_tokens
        }),
{
    law_occurs_between(before + "haiku-4-5"@ + after, "haiku-4-5"@);
}

/// Any other model with `haiku` anywhere in its name has the prices of the older
/// Haiku.
pub proof fn law_haiku_prices(before: Seq<char>, after: Seq<char>, usage: Usage)
    requires
        forall|b: Seq<char>, a: Seq<char>|
            before + "haiku"@ + after != #[trigger] (b + "haiku-4-5"@ + a),
    ensures
        ({
            let model = before + "haiku"@ + after;
            &&& pricing(model)
                == (Pricing { input: 80, output: 400, cache_write: 100, cache_read: 8 })
            &&& charge(usage, model) == 80 * usage.input_tokens + 400 * usage.output_tokens
        }),
{
    let model = before + "haiku"@ + after;
    law_occurs_between(model, "haiku"@);
    law_occurs_between(model, "haiku-4-5"@);
}

/// A name without `haiku` has no `haiku-4-5` either.
proof fn no_haiku(model: Seq<char>)
    requires
        forall|b: Seq<char>, a: Seq<char>| model != #[trigger] (b + "haiku"@ + a),
    ensures
        !occurs(model, "haiku"@),
        !occurs(model, "haiku-4-5"@),
{
    law_occurs_between(model, "haiku"@);
    if occurs(model, "haiku-4-5"@) {
        reveal_strlit("haiku");
        reveal_strlit("haiku-4-5");
        assert("haiku-4-5"@.subrange(0, 5) =~= "haiku"@);
        assert(occurs_at("haiku-4-5"@, "haiku"@, 0));
        law_occurs_in_part(model, "haiku-4-5"@, "haiku"@);
    }
}

/// A model with `sonnet` anywhere in its name, and no `haiku`, has the prices of
/// Sonnet.
pub proof fn law_sonnet_prices(before: Seq<char>, after: Seq<char>, usage: Usage)
    requires
        forall|b: Seq<char>, a: Seq<char>|
            before + "sonnet"@ + after != #[trigger] (b + "haiku"@ + a),
    ensures
        ({
            let model = before + "sonnet"@ + after;
            &&& pricing(model)
                == (Pricing { input: 300, output: 1500, cache_write: 375, cache_read: 30 })
            &&& charge(usage, model) == 300 * usage.input_tokens + 1500 * usage.output_tokens
        }),
{
    let model = before + "sonnet"@ + after;
    no_haiku(model);
    law_occurs_between(model, "sonnet"@);
}

/// A run of digits is as long as it is, if no digit follows.
proof fn run_of_digits(s: Seq<char>, i: int, n: nat)
    requires
        0 <= i,
        i + n <= s.len(),
        forall|k: int| i <= k < i + n ==> is_digit(#[trigger] s[k]),
        i + n < s.len() ==> !is_digit(s[i + n]),
    ensures
        digits_at(s, i) == n,
    decreases n,
{
    if n > 0 {
        run_of_digits(s, i + 1, (n - 1) as nat);
    }
}

/// A run of digits holds digits only, and no digit follows it.
proof fn digits_in_run(s: Seq<char>, i: int)
    requires
        0 <= i <= s.len(),
    ensures
        i + digits_at(s, i) <= s.len(),
        forall|k: int| i <= k < i + digits_at(s, i) ==> is_digit(#[trigger] s[k]),
        i + digits_at(s, i) < s.len() ==> !is_digit(s[i + digits_at(s, i)]),
    decreases s.len() - i,
{
    if i < s.len() && is_digit(s[i]) {
        digits_in_run(s, i + 1);
    }
}

/// Decimal notation is made of digits, at most `k` for a number below the `k`-th
/// power of ten.
proof fn decimal_is_digits(n: nat, k: nat)
    requires
        n < pow(10, k),
        0 < k,
    ensures
        0 < decimal_digits(n).len() <= k,
        forall|i: int| 0 <= i < decimal_digits(n).len() ==> is_digit(#[trigger] decimal_digits(n)[i]),
    decreases n,
{
    reveal(pow);
    if n >= 10 {
        if k == 1 {
            reveal_with_fuel(pow, 2);
        }
        assert(n / 10 < pow(10, (k - 1) as nat));
        decimal_is_digits(n / 10, (k - 1) as nat);
    }
}

proof fn version_stands(before: Seq<char>, mark: Seq<char>, version: nat, after: Seq<char>)
    requires
        5 <= version < 10_000_000,
        after.len() == 0 || !('0' <= after[0] && after[0] <= '9'),
    ensures
        occurs_at(before + mark + decimal_digits(version) + after, mark, before.len() as int),
        version_at(
            before + mark + decimal_digits(version) + after,
            before.len() as int + mark.len(),
            5,
        ),
{
    let digits = decimal_digits(version);
    let model = before + mark + digits + after;
    let at = before.len() as int;
    let i = at + mark.len();
    assert(pow(10, 7) == 10_000_000) by {
        reveal_with_fuel(pow, 8);
    }
    decimal_is_digits(version, 7);
    law_decimal_shows(version);
    assert(model.subrange(at, i) =~= mark);
    assert(model.subrange(i, i + digits.len()) =~= digits);
    assert forall|k: int| i <= k < i + digits.len() implies is_digit(#[trigger] model[k]) by {
        assert(model[k] == digits[k - i]);
    }
    if after.len() > 0 {
        assert(model[i + digits.len()] == after[0]);
    }
    run_of_digits(model, i, digits.len());
}

/// Opus costs 5 and 25 dollars per million tokens from version 4.5 on, wherever
/// `opus-4-` and the minor version stand in the name.
pub proof fn law_opus_4_prices(before: Seq<char>, minor: nat, after: Seq<char>, usage: Usage)
    requires
        5 <= minor < 10_000_000,
        after.len() == 0 || !('0' <= after[0] && after[0] <= '9'),
        forall|b: Seq<char>, a: Seq<char>|
            before + "opus-4-"@ + decimal_digits(minor) + after != #[trigger] (b + "haiku"@ + a),
        forall|b: Seq<char>, a: Seq<char>|
            before + "opus-4-"@ + decimal_digits(minor) + after != #[trigger] (b + "sonnet"@ + a),
    ensures
        ({
            let model = before + "opus-4-"@ + decimal_digits(minor) + after;
            &&& pricing(model)
                == (Pricing { input: 500, output: 2500, cache_write: 625, cache_read: 50 })
            &&& charge(usage, model) == 500 * usage.input_tokens + 2500 * usage.output_tokens
        }),
{
    let model = before + "opus-4-"@ + decimal_digits(minor) + after;
    no_haiku(model);
    law_occurs_between(model, "sonnet"@);
    version_stands(before, "opus-4-"@, minor, after);
    assert(recent_opus_at(model, before.len() as int));
}

/// Opus costs as much from version 5 on, wherever `opus-` and the version stand in
/// the name.
pub proof fn law_opus_prices(before: Seq<char>, version: nat, after: Seq<char>, usage: Usage)
    requires
        5 <= version < 10_000_000,
        after.len() == 0 || !('0' <= after[0] && after[0] <= '9'),
        forall|b: Seq<char>, a: Seq<char>|
            before + "opus-"@ + decimal_digits(version) + after != #[trigger] (b + "haiku"@ + a),
        forall|b: Seq<char>, a: Seq<char>|
            before + "opus-"@ + decimal_digits(version) + after != #[trigger] (b + "sonnet"@ + a),
    ensures
        ({
            let model = before + "opus-"@ + decimal_digits(version) + after;
            &&& pricing(model)
                == (Pricing { input: 500, output: 2500, cache_write: 625, cache_read: 50 })
            &&& charge(usage, model) == 500 * usage.input_tokens + 2500 * usage.output_tokens
        }),
{
    let model = before + "opus-"@ + decimal_digits(version) + after;
    no_haiku(model);
    law_occurs_between(model, "sonnet"@);
    version_stands(before, "opus-"@, version, after);
    assert(recent_opus_at(model, before.len() as int));
}

/// A model with `opus-4-5` or `opus-4-6` anywhere in its name has these prices
/// whatever follows.
pub proof fn law_opus_4_5_prices(before: Seq<char>, after: Seq<char>, mark: Seq<char>, usage: Usage)
    requires
        mark == "opus-4-5"@ || mark == "opus-4-6"@,
        forall|b: Seq<char>, a: Seq<char>| before + mark + after != #[trigger] (b + "haiku"@ + a),
        forall|b: Seq<char>, a: Seq<char>| before + mark + after != #[trigger] (b + "sonnet"@ + a),
    ensures
        ({
            let model = before + mark + after;
            &&& pricing(model)
                == (Pricing { input: 500, output: 2500, cache_write: 625, cache_read: 50 })
            &&& charge(usage, model) == 500 * usage.input_tokens + 2500 * usage.output_tokens
        }),
{
    let model = before + mark + after;
    no_haiku(model);
    law_occurs_between(model, "sonnet"@);
    law_occurs_between(model, mark);
}

/// A version from 5 on after `mark` splits the name in four parts.
proof fn version_splits(model: Seq<char>, mark: Seq<char>, i: int)
    requires
        occurs_at(model, mark, i),
        version_at(model, i + mark.len(), 5),
    ensures
        exists|b: Seq<char>, digits: Seq<char>, a: Seq<char>|
            {
                &&& model == #[trigger] (b + mark + digits + a)
                &&& 0 < digits.len() < 8
                &&& forall|k: int|
                    0 <= k < digits.len() ==> '0' <= #[trigger] digits[k] && digits[k] <= '9'
                &&& a.len() == 0 || !('0' <= a[0] && a[0] <= '9')
                &&& digits_value(digits) >= 5
            },
{
    let j = i + mark.len();
    let n = digits_at(model, j);
    digits_in_run(model, j);
    let b = model.take(i);
    let digits = model.subrange(j, j + n);
    let a = model.skip(j + n);
    assert(model =~= b + model.subrange(i, j) + digits + a);
    assert(model.subrange(i, j) == mark);
    assert forall|k: int| 0 <= k < digits.len() implies '0' <= #[trigger] digits[k] && digits[k]
        <= '9' by {
        assert(is_digit(model[j + k]));
    }
    if a.len() > 0 {
        assert(a[0] == model[j + n]);
    }
    assert(model == b + mark + digits + a);
}

/// Every other model has the prices of the most expensive one: there is no `haiku`
/// and no `sonnet` in its name, neither `opus-4-5` nor `opus-4-6`, and no version
/// from 5 on after `opus-` or `opus-4-`. A number of eight digits or more is no
/// version.
pub proof fn law_other_prices(model: Seq<char>, usage: Usage)
    requires
        forall|b: Seq<char>, a: Seq<char>| model != #[trigger] (b + "haiku"@ + a),
        forall|b: Seq<char>, a: Seq<char>| model != #[trigger] (b + "sonnet"@ + a),
        forall|b: Seq<char>, a: Seq<char>| model != #[trigger] (b + "opus-4-5"@ + a),
        forall|b: Seq<char>, a: Seq<char>| model != #[trigger] (b + "opus-4-6"@ + a),
        forall|b: Seq<char>, digits: Seq<char>, a: Seq<char>|
            {
                &&& model == #[trigger] (b + "opus-"@ + digits + a)
                &&& 0 < digits.len() < 8
                &&& forall|k: int|
                    0 <= k < digits.len() ==> '0' <= #[trigger] digits[k] && digits[k] <= '9'
                &&& a.len() == 0 || !('0' <= a[0] && a[0] <= '9')
            } ==> digits_value(digits) < 5,
        forall|b: Seq<char>, digits: Seq<char>, a: Seq<char>|
            {
                &&& model == #[trigger] (b + "opus-4-"@ + digits + a)
                &&& 0 < digits.len() < 8
                &&& forall|k: int|
                    0 <= k < digits.len() ==> '0' <= #[trigger] digits[k] && digits[k] <= '9'
                &&& a.len() == 0 || !('0' <= a[0] && a[0] <= '9')
            } ==> digits_value(digits) < 5,
    ensures
        pricing(model) == (Pricing { input: 1500, output: 7500, cache_write: 1875, cache_read: 150 }),
        charge(usage, model) == 1500 * usage.input_tokens + 7500 * usage.output_tokens,
{
    no_haiku(model);
    law_occurs_between(model, "sonnet"@);
    law_occurs_between(model, "opus-4-5"@);
    law_occurs_between(model, "opus-4-6"@);
    assert forall|i: int| !recent_opus_at(model, i) by {
        if occurs_at(model, "opus-"@, i) && version_at(model, i + "opus-"@.len(), 5) {
            version_splits(model, "opus-"@, i);
        }
        if occurs_at(model, "opus-4-"@, i) && version_at(model, i + "opus-4-"@.len(), 5) {
            version_splits(model, "opus-4-"@, i);
        }
    }
}

/// A model of none of the known families has the prices of the most expensive one.
pub proof fn law_unknown_model_prices(model: Seq<char>, usage: Usage)
    requires
        forall|b: Seq<char>, a: Seq<char>| model != #[trigger] (b + "haiku"@ + a),
        forall|b: Seq<char>, a: Seq<char>| model != #[trigger] (b + "sonnet"@ + a),
        forall|b: Seq<char>, a: Seq<char>| model != #[trigger] (b + "opus-"@ + a),
    ensures
        pricing(model) == (Pricing { input: 1500, output: 7500, cache_write: 1875, cache_read: 150 }),
        charge(usage, model) == 1500 * usage.input_tokens + 7500 * usage.output_tokens,
{
    no_haiku(model);
    law_occurs_between(model, "sonnet"@);
    law_occurs_between(model, "opus-"@);
    no_opus(model, "opus-4-"@);
    no_opus(model, "opus-4-5"@);
    no_opus(model, "opus-4-6"@);
    assert forall|i: int| !recent_opus_at(model, i) by {
        assert(!occurs_at(model, "opus-"@, i));
        assert(!occurs_at(model, "opus-4-"@, i));
    }
}

proof fn no_opus(model: Seq<char>, mark: Seq<char>)
    requires
        !occurs(model, "opus-"@),
        mark == "opus-4-"@ || mark == "opus-4-5"@ || mark == "opus-4-6"@,
    ensures
        !occurs(model, mark),
{
    reveal_strlit("opus-");
    reveal_strlit("opus-4-");
    reveal_strlit("opus-4-5");
    reveal_strlit("opus-4-6");
    assert(mark.subrange(0, 5) =~= "opus-"@);
    assert(occurs_at(mark, "opus-"@, 0));
    if occurs(model, mark) {
        law_occurs_in_part(model, mark, "opus-"@);
    }
}

} // verus!
