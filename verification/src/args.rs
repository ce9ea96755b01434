//! Settings that come from the environment, and settings that are fixed.

use vstd::prelude::*;

verus! {

/// The environment: names and values. A value that is not text is `None`.
pub struct Environment {
    /// The names and values. Where a name stands twice, the first counts.
    pub vars: Vec<(String, Option<String>)>,
}

/// The position of the first entry with the given name, or the number of entries.
pub open spec fn find(vars: Seq<(String, Option<String>)>, name: Seq<char>) -> int
    decreases vars.len(),
{
    if vars.len() == 0 {
        0
    } else if vars[0].0@ == name {
        0
    } else {
        1 + find(vars.drop_first(), name)
    }
}

impl Environment {
    /// The name is set.
    pub open spec fn has(&self, name: Seq<char>) -> bool {
        find(self.vars@, name) < self.vars@.len()
    }

    /// The text that the name is set to.
    pub open spec fn text(&self, name: Seq<char>) -> Option<Seq<char>> {
        if self.has(name) {
            match self.vars@[find(self.vars@, name)].1 {
                Some(value) => Some(value@),
                None => None,
            }
        } else {
            None
        }
    }

    /// The position of a name.
    fn position(&self, name: &str) -> (index: usize)
        ensures
            index == find(self.vars@, name@),
            index <= self.vars@.len(),
    {
        let wanted: String = name.to_owned();
        let mut i: usize = 0;
        assert(self.vars@.subrange(0, self.vars@.len() as int) =~= self.vars@);
        while i < self.vars.len()
            invariant
                i <= self.vars@.len(),
                wanted@ == name@,
                find(self.vars@, name@) == i + find(
                    self.vars@.subrange(i as int, self.vars@.len() as int),
                    name@,
                ),
            decreases self.vars@.len() - i,
        {
            let ghost rest: Seq<(String, Option<String>)> = self.vars@.subrange(
                i as int,
                self.vars@.len() as int,
            );
            if self.vars[i].0 == wanted {
                return i;
            }
            assert(rest.drop_first() =~= self.vars@.subrange(i + 1, self.vars@.len() as int));
            i += 1;
        }
        i
    }

    /// Whether a name is set, to text or not.
    pub fn is_set(&self, name: &str) -> (set: bool)
        ensures
            set == self.has(name@),
    {
        self.position(name) < self.vars.len()
    }

    /// The text that a name is set to.
    pub fn get(&self, name: &str) -> (value: Option<&String>)
        ensures
            value is Some == self.text(name@) is Some,
            value matches Some(text) ==> text@ == self.text(name@)->0,
    {
        let index: usize = self.position(name);
        if index < self.vars.len() {
            match &self.vars[index].1 {
                Some(text) => Some(text),
                None => None,
            }
        } else {
            None
        }
    }
}

/// The character is a decimal digit.
pub open spec fn is_digit(c: char) -> bool {
    '0' <= c <= '9'
}

/// The number that a sequence of digits stands for.
pub open spec fn digits_value(s: Seq<char>) -> nat
    decreases s.len(),
{
    if s.len() == 0 {
        0
    } else {
        digits_value(s.drop_last()) * 10 + (s.last() as nat - '0' as nat) as nat
    }
}

/// The digits of a number, without the sign that may stand before them.
pub open spec fn unsigned_part(s: Seq<char>) -> Seq<char> {
    if s.len() > 0 && s[0] == '+' {
        s.drop_first()
    } else {
        s
    }
}

/// The number that a text stands for: an optional plus sign, then at least one digit, and no more
/// than the largest `usize`.
pub open spec fn number(s: Seq<char>) -> Option<usize> {
    let digits = unsigned_part(s);
    if digits.len() > 0 && (forall|i: int| 0 <= i < digits.len() ==> is_digit(#[trigger] digits[i]))
        && digits_value(digits) <= usize::MAX {
        Some(digits_value(digits) as usize)
    } else {
        None
    }
}

/// More digits do not make a number smaller.
proof fn lemma_digits_grow(s: Seq<char>, n: int)
    requires
        0 <= n <= s.len(),
        forall|i: int| 0 <= i < s.len() ==> is_digit(#[trigger] s[i]),
    ensures
        digits_value(s.subrange(0, n)) <= digits_value(s),
    decreases s.len(),
{
    if n == s.len() {
        assert(s.subrange(0, n) =~= s);
    } else {
        let less = s.drop_last();
        assert(is_digit(s[s.len() - 1]));
        assert forall|i: int| 0 <= i < less.len() implies is_digit(#[trigger] less[i]) by {
            assert(less[i] == s[i]);
        }
        lemma_digits_grow(less, n);
        assert(less.subrange(0, n) =~= s.subrange(0, n));
    }
}

/// The number that a text stands for, or `None` if it is not a number.
pub fn parse_usize(text: &str) -> (value: Option<usize>)
    ensures
        value == number(text@),
{
    let len: usize = text.unicode_len();
    let start: usize = if len > 0 && text.get_char(0) == '+' {
        1
    } else {
        0
    };
    let ghost digits: Seq<char> = unsigned_part(text@);
    assert(digits =~= text@.subrange(start as int, len as int));
    if start == len {
        return None;
    }
    let mut value: usize = 0;
    let mut i: usize = start;
    assert(digits.subrange(0, 0) =~= Seq::empty());
    while i < len
        invariant
            start <= i <= len,
            len == text@.len(),
            digits == text@.subrange(start as int, len as int),
            digits == unsigned_part(text@),
            forall|j: int| 0 <= j < i - start ==> is_digit(#[trigger] digits[j]),
            value == digits_value(digits.subrange(0, i - start)),
        decreases len - i,
    {
        let c: char = text.get_char(i);
        assert(c == digits[i - start]);
        if !(c >= '0' && c <= '9') {
            assert(!is_digit(digits[i - start]));
            return None;
        }
        let digit: usize = (c as u32 - '0' as u32) as usize;
        proof {
            let next = digits.subrange(0, i - start + 1);
            assert(next.drop_last() =~= digits.subrange(0, i - start));
            assert(next.last() == c);
            if forall|j: int| 0 <= j < digits.len() ==> is_digit(#[trigger] digits[j]) {
                lemma_digits_grow(digits, i - start + 1);
            }
        }
        match value.checked_mul(10) {
            Some(tens) => match tens.checked_add(digit) {
                Some(sum) => {
                    value = sum;
                },
                None => {
                    return None;
                },
            },
            None => {
                return None;
            },
        }
        i += 1;
    }
    assert(digits.subrange(0, len - start) =~= digits);
    Some(value)
}

/// A name is set to a text that stands for a flag that is on.
pub open spec fn flag_on(text: Seq<char>) -> bool {
    text == "1"@ || text == "true"@ || text == "TRUE"@
}

impl Environment {
    /// The number that the name is set to, or the default where it is not set to a number.
    pub open spec fn number_or(&self, name: Seq<char>, default: usize) -> usize {
        match self.text(name) {
            Some(text) => match number(text) {
                Some(value) => value,
                None => default,
            },
            None => default,
        }
    }

    /// The number that a name is set to, or the default where it is not set to a number.
    pub fn usize_or(&self, name: &str, default: usize) -> (value: usize)
        ensures
            value == self.number_or(name@, default),
    {
        match self.get(name) {
            Some(text) => match parse_usize(text.as_str()) {
                Some(value) => value,
                None => default,
            },
            None => default,
        }
    }

    /// The number that the name is set to, if it is set to one.
    pub open spec fn number_of(&self, name: Seq<char>) -> Option<usize> {
        match self.text(name) {
            Some(text) => number(text),
            None => None,
        }
    }

    /// The name is set to a text that is not a number.
    pub open spec fn not_a_number(&self, name: Seq<char>) -> bool {
        self.text(name) matches Some(text) && number(text) is None
    }

    /// The number that a name is set to, if it is set to one.
    fn usize_of(&self, name: &str) -> (value: Option<usize>)
        ensures
            value == self.number_of(name@),
    {
        match self.get(name) {
            Some(text) => parse_usize(text.as_str()),
            None => None,
        }
    }

    /// Whether a name is set to a text that is not a number.
    fn is_not_a_number(&self, name: &str) -> (bad: bool)
        ensures
            bad == self.not_a_number(name@),
    {
        match self.get(name) {
            Some(text) => parse_usize(text.as_str()).is_none(),
            None => false,
        }
    }

    /// The flag that the name is set to, if it is set to text.
    pub open spec fn flag(&self, name: Seq<char>) -> Option<bool> {
        match self.text(name) {
            Some(text) => Some(flag_on(text)),
            None => None,
        }
    }

    /// The flag that a name is set to, if it is set to text.
    pub fn bool_of(&self, name: &str) -> (value: Option<bool>)
        ensures
            value == self.flag(name@),
    {
        match self.get(name) {
            Some(text) => Some(
                *text == "1".to_owned() || *text == "true".to_owned() || *text
                    == "TRUE".to_owned(),
            ),
            None => None,
        }
    }

    /// The flag that a name is set to, or the default where it is not set to text.
    fn bool_or(&self, name: &str, default: bool) -> (value: bool)
        ensures
            value == (match self.flag(name@) {
                Some(flag) => flag,
                None => default,
            }),
    {
        match self.bool_of(name) {
            Some(flag) => flag,
            None => default,
        }
    }
}

/// Settings that come from the environment.
#[derive(Debug, Clone, Copy, PartialEq, Eq, Structural)]
pub struct RuntimeArgs {
    /// How many increments may be buffered before a collection.
    pub incs_limit: Option<usize>,
    /// Mutators do not reuse free lines.
    pub no_mutator_line_recycling: bool,
    /// Nobody reuses free lines.
    pub no_line_recycling: bool,
    /// How many blocks the nursery has.
    pub nursery_blocks: Option<usize>,
    /// The limit on young objects, in megabytes.
    pub young_limit_mb: Option<usize>,
    /// The size of the nursery as a ratio.
    pub nursery_ratio: Option<usize>,
    /// The longest pause, in milliseconds.
    pub max_pause_millis: Option<usize>,
    /// The largest young object that is evacuated.
    pub max_young_evac_size: usize,
    /// The share of the heap that must be available after a reference-counting pause.
    pub rc_stop_percent: usize,
    /// How much may survive, in megabytes.
    pub max_survival_mb: usize,
    /// Survival is predicted by the harmonic mean.
    pub survival_predictor_harmonic_mean: bool,
    /// Survival is predicted with weights.
    pub survival_predictor_weighted: bool,
    /// The threshold of a trace, in percent.
    pub trace_threshold: usize,
    /// The threshold at which a chunk is defragmented, in percent.
    pub chunk_defarg_percent: usize,
    /// Huge pages are used.
    pub transparent_hugepage: bool,
}

/// A setting that must be a number is set to something else.
#[derive(Debug, Clone, Copy, PartialEq, Eq)]
pub struct InvalidArg {
    /// The name of the setting.
    pub name: &'static str,
}

/// The names of the numbers that are read, in order. Of names for one setting the first that is
/// set to text is read, or else the last.
pub open spec fn numbers_read(env: Environment) -> Seq<Seq<char>> {
    seq![
        "INCS_LIMIT"@,
        "NURSERY_BLOCKS"@,
        young_limit_name(env),
        "NURSERY_RATIO"@,
        "MAX_PAUSE_MILLIS"@,
        "MAX_YOUNG_EVAC_SIZE"@,
        "RC_STOP_PERCENT"@,
        "MAX_SURVIVAL_MB"@,
        trace_threshold_name(env),
        "CHUNK_DEFARG_THRESHOLD"@,
    ]
}

/// The name under which the limit on young objects is read.
pub open spec fn young_limit_name(env: Environment) -> Seq<char> {
    if env.text("YOUNG_LIMIT"@) is Some {
        "YOUNG_LIMIT"@
    } else {
        "YOUNG_LIMIT_MB"@
    }
}

/// The name under which the threshold of a trace is read.
pub open spec fn trace_threshold_name(env: Environment) -> Seq<char> {
    if env.text("TRACE_THRESHOLD2"@) is Some {
        "TRACE_THRESHOLD2"@
    } else if env.text("TRACE_THRESHOLD"@) is Some {
        "TRACE_THRESHOLD"@
    } else {
        "CM_THRESHOLD"@
    }
}

/// The value, or the default.
pub open spec fn value_or<T>(value: Option<T>, default: T) -> T {
    match value {
        Some(v) => v,
        None => default,
    }
}

impl RuntimeArgs {
    /// The settings, where every number that is read is one.
    pub open spec fn of_env(env: Environment) -> RuntimeArgs {
        RuntimeArgs {
            incs_limit: env.number_of("INCS_LIMIT"@),
            no_mutator_line_recycling: value_or(env.flag("NO_MUTATOR_LINE_RECYCLING"@), false),
            no_line_recycling: value_or(env.flag("NO_LINE_RECYCLING"@), false),
            nursery_blocks: env.number_of("NURSERY_BLOCKS"@),
            young_limit_mb: env.number_of(young_limit_name(env)),
            nursery_ratio: env.number_of("NURSERY_RATIO"@),
            max_pause_millis: env.number_of("MAX_PAUSE_MILLIS"@),
            max_young_evac_size: value_or(env.number_of("MAX_YOUNG_EVAC_SIZE"@), usize::MAX),
            rc_stop_percent: value_or(env.number_of("RC_STOP_PERCENT"@), 15),
            max_survival_mb: value_or(env.number_of("MAX_SURVIVAL_MB"@), 128),
            survival_predictor_harmonic_mean: value_or(
                env.flag("SURVIVAL_PREDICTOR_HARMONIC_MEAN"@),
                false,
            ),
            survival_predictor_weighted: value_or(
                env.flag("SURVIVAL_PREDICTOR_WEIGHTED"@),
                false,
            ),
            trace_threshold: value_or(env.number_of(trace_threshold_name(env)), 20),
            chunk_defarg_percent: value_or(env.number_of("CHUNK_DEFARG_THRESHOLD"@), 32),
            transparent_hugepage: value_or(
                if env.flag("TRANSPARENT_HUGEPAGE"@) is Some {
                    env.flag("TRANSPARENT_HUGEPAGE"@)
                } else {
                    env.flag("HUGEPAGE"@)
                },
                true,
            ),
        }
    }

    /// The names of the numbers that are read, in order.
    fn numbers_to_read(env: &Environment) -> (names: Vec<&'static str>)
        ensures
            names@.map_values(|name: &'static str| name@) == numbers_read(*env),
    {
        let mut names: Vec<&'static str> = Vec::new();
        names.push("INCS_LIMIT");
        names.push("NURSERY_BLOCKS");
        names.push(Self::young_limit(env));
        names.push("NURSERY_RATIO");
        names.push("MAX_PAUSE_MILLIS");
        names.push("MAX_YOUNG_EVAC_SIZE");
        names.push("RC_STOP_PERCENT");
        names.push("MAX_SURVIVAL_MB");
        names.push(Self::threshold(env));
        names.push("CHUNK_DEFARG_THRESHOLD");
        assert(names@.map_values(|name: &'static str| name@) =~= numbers_read(*env));
        names
    }

    /// The name under which the limit on young objects is read.
    fn young_limit(env: &Environment) -> (name: &'static str)
        ensures
            name@ == young_limit_name(*env),
    {
        if env.get("YOUNG_LIMIT").is_some() {
            "YOUNG_LIMIT"
        } else {
            "YOUNG_LIMIT_MB"
        }
    }

    /// The name under which the threshold of a trace is read.
    fn threshold(env: &Environment) -> (name: &'static str)
        ensures
            name@ == trace_threshold_name(*env),
    {
        if env.get("TRACE_THRESHOLD2").is_some() {
            "TRACE_THRESHOLD2"
        } else if env.get("TRACE_THRESHOLD").is_some() {
            "TRACE_THRESHOLD"
        } else {
            "CM_THRESHOLD"
        }
    }

    /// The settings of an environment. Fails with the first name that is read as a number and is
    /// not one.
    pub fn from_env(env: &Environment) -> (args: Result<RuntimeArgs, InvalidArg>)
        ensures
            args is Err == exists|i: int|
                0 <= i < numbers_read(*env).len() && env.not_a_number(
                    #[trigger] numbers_read(*env)[i],
                ),
            args matches Ok(value) ==> value == Self::of_env(*env),
            args matches Err(error) ==> exists|i: int|
                0 <= i < numbers_read(*env).len() && error.name@ == #[trigger] numbers_read(*env)[i]
                    && env.not_a_number(error.name@) && forall|j: int|
                    0 <= j < i ==> !env.not_a_number(#[trigger] numbers_read(*env)[j]),
    {
        let names: Vec<&'static str> = Self::numbers_to_read(env);
        let ghost read: Seq<Seq<char>> = numbers_read(*env);
        let mut i: usize = 0;
        while i < names.len()
            invariant
                i <= names@.len(),
                read == numbers_read(*env),
                names@.map_values(|name: &'static str| name@) == read,
                forall|j: int| 0 <= j < i ==> !env.not_a_number(#[trigger] read[j]),
            decreases names@.len() - i,
        {
            assert(read[i as int] == names@[i as int]@);
            if env.is_not_a_number(names[i]) {
                return Err(InvalidArg { name: names[i] });
            }
            i += 1;
        }
        Ok(
            RuntimeArgs {
                incs_limit: env.usize_of("INCS_LIMIT"),
                no_mutator_line_recycling: env.bool_or("NO_MUTATOR_LINE_RECYCLING", false),
                no_line_recycling: env.bool_or("NO_LINE_RECYCLING", false),
                nursery_blocks: env.usize_of("NURSERY_BLOCKS"),
                young_limit_mb: env.usize_of(Self::young_limit(env)),
                nursery_ratio: env.usize_of("NURSERY_RATIO"),
                max_pause_millis: env.usize_of("MAX_PAUSE_MILLIS"),
                max_young_evac_size: env.usize_or("MAX_YOUNG_EVAC_SIZE", usize::MAX),
                rc_stop_percent: env.usize_or("RC_STOP_PERCENT", 15),
                max_survival_mb: env.usize_or("MAX_SURVIVAL_MB", 128),
                survival_predictor_harmonic_mean: env.bool_or(
                    "SURVIVAL_PREDICTOR_HARMONIC_MEAN",
                    false,
                ),
                survival_predictor_weighted: env.bool_or("SURVIVAL_PREDICTOR_WEIGHTED", false),
                trace_threshold: env.usize_or(Self::threshold(env), 20),
                chunk_defarg_percent: env.usize_or("CHUNK_DEFARG_THRESHOLD", 32),
                transparent_hugepage: match env.bool_of("TRANSPARENT_HUGEPAGE") {
                    Some(flag) => flag,
                    None => env.bool_or("HUGEPAGE", true),
                },
            },
        )
    }
}

/// Large arrays are not split when they are marked concurrently.
pub const CM_LARGE_ARRAY_OPTIMIZATION: bool = false;

/// How many increments or decrements make a buffer full.
pub const BUFFER_SIZE: usize = 1024;

/// Lazy sweeps go on when a pause cannot release enough memory.
pub const NO_LAZY_SWEEP_WHEN_STW_CANNOT_RELEASE_ENOUGH_MEMORY: bool = false;

/// How many cycles lead to a trace.
pub const CYCLE_TRIGGER_THRESHOLD: usize = 1024;

/// Lines are marked when an object is scanned, not when it is marked.
pub const MARK_LINE_AT_SCAN_TIME: bool = true;

/// Increments are not performed by the barrier.
pub const EAGER_INCREMENTS: bool = false;

/// Decrements may be left for after the pause.
pub const LAZY_DECREMENTS: bool = true;

/// Above this share of the heap decrements are not left for later.
pub const NO_LAZY_DEC_THRESHOLD: usize = 100;

/// Young objects may be evacuated.
pub const RC_NURSERY_EVACUATION: bool = true;

/// Mature objects may be evacuated.
pub const RC_MATURE_EVACUATION: bool = true;

/// Sweeps go by lines, not by whole blocks.
pub const BLOCK_ONLY: bool = false;

/// Young objects in reused lines may be evacuated.
pub const RC_DONT_EVACUATE_NURSERY_IN_RECYCLED_LINES: bool = false;

/// The barrier does not count how often it is taken.
pub const TAKERATE_MEASUREMENT: bool = false;

/// The cost of the barrier is not measured.
pub const BARRIER_MEASUREMENT: bool = false;

/// The cost of the fast path of the barrier is not measured.
pub const BARRIER_MEASUREMENT_NO_SLOW: bool = false;

/// The logarithm of the bytes that share a lock bit.
pub const LOG_BYTES_PER_RC_LOCK_BIT: usize = 9;

/// Concurrent marking is not slowed down.
pub const SLOW_CONCURRENT_MARKING: bool = false;

/// The depth of copies is not limited.
pub const INC_MAX_COPY_DEPTH: bool = false;

/// Memory is fetched ahead.
pub const PREFETCH: bool = true;

/// Headers are fetched ahead.
pub const PREFETCH_HEADER: bool = PREFETCH;

/// Marks are fetched ahead.
pub const PREFETCH_MARK: bool = PREFETCH;

/// Counts are not fetched ahead.
pub const PREFETCH_RC: bool = false;

/// How far ahead memory is fetched.
pub const PREFETCH_STEP: usize = 8;

} // verus!
