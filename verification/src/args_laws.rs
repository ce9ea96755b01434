//! What holds of looking settings up and of reading numbers.

use crate::args::{digits_value, find, is_digit, number, unsigned_part, Environment, RuntimeArgs};
use vstd::arithmetic::power::{lemma_pow_adds, pow};
use vstd::prelude::*;

verus! {

/// Looking a name up finds the first entry with the name, and none if there is no such entry.
pub proof fn law_lookup_finds_the_first_entry(
    vars: Seq<(String, Option<String>)>,
    name: Seq<char>,
)
    ensures
        0 <= find(vars, name) <= vars.len(),
        find(vars, name) < vars.len() ==> vars[find(vars, name)].0@ == name,
        forall|i: int| 0 <= i < find(vars, name) ==> (#[trigger] vars[i]).0@ != name,
    decreases vars.len(),
{
    if vars.len() > 0 && vars[0].0@ != name {
        let rest = vars.drop_first();
        law_lookup_finds_the_first_entry(rest, name);
        if find(rest, name) < rest.len() {
            assert(vars[find(rest, name) + 1] == rest[find(rest, name)]);
        }
        assert forall|i: int| 0 <= i < find(vars, name) implies (#[trigger] vars[i]).0@ != name by {
            if i > 0 {
                assert(vars[i] == rest[i - 1]);
            }
        }
    }
}

/// A name is set iff some entry has it. Its text is that of the first such entry, which hides all
/// later ones.
pub proof fn law_first_entry_hides_later_ones(env: Environment, name: Seq<char>, i: int)
    requires
        0 <= i < env.vars@.len(),
        env.vars@[i].0@ == name,
        forall|j: int| 0 <= j < i ==> (#[trigger] env.vars@[j]).0@ != name,
    ensures
        env.has(name),
        env.vars@[i].1 is None ==> env.text(name) is None,
        env.vars@[i].1 matches Some(text) ==> env.text(name) == Some(text@),
{
    law_lookup_finds_the_first_entry(env.vars@, name);
    let k = find(env.vars@, name);
    if k < i {
        assert(env.vars@[k].0@ != name);
    }
}

/// A name that no entry has is not set.
pub proof fn law_absent_name_is_not_set(env: Environment, name: Seq<char>)
    requires
        forall|j: int| 0 <= j < env.vars@.len() ==> (#[trigger] env.vars@[j]).0@ != name,
    ensures
        !env.has(name),
        env.text(name) is None,
        env.number_of(name) is None,
        env.flag(name) is None,
        !env.not_a_number(name),
{
    law_lookup_finds_the_first_entry(env.vars@, name);
}

/// Digits are read in the decimal system: those before others count for as many powers of ten more
/// as there are others.
pub proof fn law_digits_are_decimal(first: Seq<char>, second: Seq<char>)
    requires
        forall|i: int| 0 <= i < second.len() ==> is_digit(#[trigger] second[i]),
    ensures
        digits_value(first + second) == digits_value(first) * pow(10, second.len()) + digits_value(
            second,
        ),
    decreases second.len(),
{
    let a = digits_value(first) as int;
    if second.len() == 0 {
        assert(first + second =~= first);
        vstd::arithmetic::power::lemma_pow0(10);
        assert(a * 1 == a);
    } else {
        let less = second.drop_last();
        let c = second.last();
        assert(is_digit(second[second.len() - 1]));
        assert forall|i: int| 0 <= i < less.len() implies is_digit(#[trigger] less[i]) by {
            assert(less[i] == second[i]);
        }
        law_digits_are_decimal(first, less);
        let all = first + second;
        assert(all.drop_last() =~= first + less);
        assert(all.last() == c);
        vstd::arithmetic::power::lemma_pow1(10);
        lemma_pow_adds(10, less.len(), 1);
        let p = pow(10, less.len());
        let q = pow(10, second.len());
        assert(q == p * 10);
        let d = digits_value(less) as int;
        assert((a * p + d) * 10 == a * q + d * 10) by (nonlinear_arith)
            requires
                q == p * 10,
        ;
    }
}

/// One digit stands for itself.
pub proof fn law_digit_stands_for_itself(c: char)
    requires
        is_digit(c),
    ensures
        digits_value(seq![c]) == c as int - '0' as int,
        number(seq![c]) == Some((c as int - '0' as int) as usize),
{
    let one = seq![c];
    assert(one.drop_last() =~= Seq::empty());
    assert(digits_value(one.drop_last()) == 0);
    assert(unsigned_part(one) == one);
}

/// A plus sign before a number makes no difference, and neither does a zero before its digits.
pub proof fn law_sign_and_zeros_make_no_difference(s: Seq<char>)
    requires
        s.len() > 0,
        forall|i: int| 0 <= i < s.len() ==> is_digit(#[trigger] s[i]),
    ensures
        number(seq!['+'] + s) == number(s),
        number(seq!['0'] + s) == number(s),
{
    let signed = seq!['+'] + s;
    assert(signed.drop_first() =~= s);
    assert(is_digit(s[0]));
    assert(unsigned_part(s) == s);
    let zero = seq!['0'] + s;
    assert(unsigned_part(zero) == zero);
    law_digits_are_decimal(seq!['0'], s);
    law_digit_stands_for_itself('0');
    assert forall|i: int| 0 <= i < zero.len() implies is_digit(#[trigger] zero[i]) by {
        if i > 0 {
            assert(zero[i] == s[i - 1]);
        }
    }
    assert(0 * pow(10, s.len()) == 0);
}

/// A text is a number iff it is digits, of which there is at least one, with at most one plus sign
/// before them, and the number is not too large.
pub proof fn law_what_is_not_a_number(s: Seq<char>)
    ensures
        s.len() == 0 ==> number(s) is None,
        s == seq!['+'] ==> number(s) is None,
        forall|i: int| 1 <= i < s.len() && !is_digit(#[trigger] s[i]) ==> number(s) is None,
        s.len() > 0 && s[0] != '+' && !is_digit(s[0]) ==> number(s) is None,
        (s.len() > 0 && forall|i: int| 0 <= i < s.len() ==> is_digit(#[trigger] s[i])) ==> (number(
            s,
        ) is Some) == (digits_value(s) <= usize::MAX),
        number(s) matches Some(v) ==> v == digits_value(
            if s[0] == '+' {
                s.drop_first()
            } else {
                s
            },
        ),
{
    let digits = unsigned_part(s);
    assert forall|i: int| 1 <= i < s.len() && !is_digit(#[trigger] s[i]) implies number(s) is None by {
        if s[0] == '+' {
            assert(digits[i - 1] == s[i]);
        } else {
            assert(digits[i] == s[i]);
        }
    }
    if s.len() > 0 && s[0] != '+' && !is_digit(s[0]) {
        assert(digits[0] == s[0]);
    }
    if s == seq!['+'] {
        assert(digits.len() == 0);
    }
    if s.len() > 0 && is_digit(s[0]) {
        assert(digits == s);
    }
}

/// Of the names for one setting the first that is set to text decides.
pub proof fn law_first_name_decides(env: Environment)
    ensures
        ({
            let args = RuntimeArgs::of_env(env);
            &&& env.text("TRACE_THRESHOLD2"@) is Some ==> args.trace_threshold == env.number_or(
                "TRACE_THRESHOLD2"@,
                20,
            )
            &&& env.text("TRACE_THRESHOLD2"@) is None && env.text("TRACE_THRESHOLD"@) is Some
                ==> args.trace_threshold == env.number_or("TRACE_THRESHOLD"@, 20)
            &&& env.text("TRACE_THRESHOLD2"@) is None && env.text("TRACE_THRESHOLD"@) is None
                ==> args.trace_threshold == env.number_or("CM_THRESHOLD"@, 20)
            &&& env.text("YOUNG_LIMIT"@) is Some ==> args.young_limit_mb == env.number_of(
                "YOUNG_LIMIT"@,
            )
            &&& env.text("YOUNG_LIMIT"@) is None ==> args.young_limit_mb == env.number_of(
                "YOUNG_LIMIT_MB"@,
            )
            &&& env.flag("TRANSPARENT_HUGEPAGE"@) matches Some(flag) ==> args.transparent_hugepage
                == flag
            &&& env.flag("TRANSPARENT_HUGEPAGE"@) is None ==> (env.flag("HUGEPAGE"@) matches Some(
                flag,
            ) ==> args.transparent_hugepage == flag)
            &&& env.flag("TRANSPARENT_HUGEPAGE"@) is None && env.flag("HUGEPAGE"@) is None
                ==> args.transparent_hugepage
        }),
{
}

/// A setting that is not set has its default.
pub proof fn law_defaults(env: Environment)
    ensures
        ({
            let args = RuntimeArgs::of_env(env);
            &&& env.text("INCS_LIMIT"@) is None ==> args.incs_limit is None
            &&& env.text("NO_MUTATOR_LINE_RECYCLING"@) is None ==> !args.no_mutator_line_recycling
            &&& env.text("NO_LINE_RECYCLING"@) is None ==> !args.no_line_recycling
            &&& env.text("NURSERY_BLOCKS"@) is None ==> args.nursery_blocks is None
            &&& env.text("NURSERY_RATIO"@) is None ==> args.nursery_ratio is None
            &&& env.text("MAX_PAUSE_MILLIS"@) is None ==> args.max_pause_millis is None
            &&& env.text("MAX_YOUNG_EVAC_SIZE"@) is None ==> args.max_young_evac_size == usize::MAX
            &&& env.text("RC_STOP_PERCENT"@) is None ==> args.rc_stop_percent == 15
            &&& env.text("MAX_SURVIVAL_MB"@) is None ==> args.max_survival_mb == 128
            &&& env.text("SURVIVAL_PREDICTOR_HARMONIC_MEAN"@) is None
                ==> !args.survival_predictor_harmonic_mean
            &&& env.text("SURVIVAL_PREDICTOR_WEIGHTED"@) is None
                ==> !args.survival_predictor_weighted
            &&& env.text("CHUNK_DEFARG_THRESHOLD"@) is None ==> args.chunk_defarg_percent == 32
        }),
{
}

/// A setting that is set to a number has that number, and a flag that is set is on for the three
/// texts that say so and off for any other.
pub proof fn law_settings_are_read(env: Environment, text: Seq<char>)
    ensures
        ({
            let args = RuntimeArgs::of_env(env);
            let on = text == "1"@ || text == "true"@ || text == "TRUE"@;
            &&& env.text("INCS_LIMIT"@) == Some(text) ==> args.incs_limit == number(text)
            &&& env.text("NURSERY_BLOCKS"@) == Some(text) ==> args.nursery_blocks == number(text)
            &&& env.text("NURSERY_RATIO"@) == Some(text) ==> args.nursery_ratio == number(text)
            &&& env.text("MAX_PAUSE_MILLIS"@) == Some(text) ==> args.max_pause_millis == number(
                text,
            )
            &&& number(text) matches Some(v) ==> {
                &&& env.text("MAX_YOUNG_EVAC_SIZE"@) == Some(text) ==> args.max_young_evac_size == v
                &&& env.text("RC_STOP_PERCENT"@) == Some(text) ==> args.rc_stop_percent == v
                &&& env.text("MAX_SURVIVAL_MB"@) == Some(text) ==> args.max_survival_mb == v
                &&& env.text("CHUNK_DEFARG_THRESHOLD"@) == Some(text) ==> args.chunk_defarg_percent
                    == v
            }
            &&& env.text("NO_MUTATOR_LINE_RECYCLING"@) == Some(text)
                ==> args.no_mutator_line_recycling == on
            &&& env.text("NO_LINE_RECYCLING"@) == Some(text) ==> args.no_line_recycling == on
            &&& env.text("SURVIVAL_PREDICTOR_HARMONIC_MEAN"@) == Some(text)
                ==> args.survival_predictor_harmonic_mean == on
            &&& env.text("SURVIVAL_PREDICTOR_WEIGHTED"@) == Some(text)
                ==> args.survival_predictor_weighted == on
        }),
{
}

} // verus!
