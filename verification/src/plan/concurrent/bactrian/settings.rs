//! The settings of the plan that come from the environment.

use crate::args::Environment;
use crate::util::constants::BYTES_IN_PAGE;
use vstd::prelude::*;

verus! {

/// The bytes of a megabyte.
pub const BYTES_IN_MEGABYTE: usize = 1048576;

/// The percentage of partly taken blocks from which on the mature space is compacted.
pub open spec fn compact_threshold(env: Environment) -> usize {
    let pct = env.number_or("MMTK_COMPACT_UTIL_PCT"@, 0);
    if pct <= 100 {
        pct
    } else {
        0
    }
}

/// The percentage of partly taken blocks from which on the mature space is compacted. Zero says
/// never.
pub fn compact_util_threshold_pct(env: &Environment) -> (pct: usize)
    ensures
        pct == compact_threshold(*env),
{
    let pct: usize = env.usize_or("MMTK_COMPACT_UTIL_PCT", 0);
    if pct <= 100 {
        pct
    } else {
        0
    }
}

/// How many nursery collections an object survives before it is promoted. More than one counts as
/// one.
pub open spec fn age_setting(env: Environment) -> usize {
    env.number_or("MMTK_NURSERY_AGE"@, 0)
}

/// How many nursery collections an object survives before it is promoted. More than one counts as
/// one.
pub fn nursery_age(env: &Environment) -> (age: usize)
    ensures
        age == age_setting(*env),
{
    env.usize_or("MMTK_NURSERY_AGE", 0)
}

/// Pages in so many megabytes.
pub open spec fn pages_in(megabytes: usize) -> int {
    megabytes * BYTES_IN_MEGABYTE / BYTES_IN_PAGE as int
}

/// The largest nursery, in megabytes, for which marking in slices pays.
pub open spec fn slice_max_nursery_mb(env: Environment) -> usize {
    let mb = env.number_or("MMTK_SLICE_MAX_NURSERY_MB"@, 4);
    if mb > 0 {
        mb
    } else {
        4
    }
}

/// The largest nursery, in pages, for which marking in slices pays.
pub fn slice_max_nursery_pages(env: &Environment) -> (pages: usize)
    requires
        slice_max_nursery_mb(*env) * BYTES_IN_MEGABYTE <= usize::MAX,
    ensures
        pages == pages_in(slice_max_nursery_mb(*env)),
{
    let set: usize = env.usize_or("MMTK_SLICE_MAX_NURSERY_MB", 4);
    let mb: usize = if set > 0 {
        set
    } else {
        4
    };
    mb * BYTES_IN_MEGABYTE / BYTES_IN_PAGE
}

/// The smallest mature space, in megabytes, that is marked beside the mutators.
pub open spec fn conc_mark_min_mature_mb(env: Environment) -> usize {
    env.number_or("MMTK_CONC_MARK_MIN_MATURE_MB"@, 256)
}

/// The smallest mature space, in pages, that is marked beside the mutators.
pub fn conc_mark_min_mature_pages(env: &Environment) -> (pages: usize)
    requires
        conc_mark_min_mature_mb(*env) * BYTES_IN_MEGABYTE <= usize::MAX,
    ensures
        pages == pages_in(conc_mark_min_mature_mb(*env)),
{
    env.usize_or("MMTK_CONC_MARK_MIN_MATURE_MB", 256) * BYTES_IN_MEGABYTE / BYTES_IN_PAGE
}

/// The settings that are sizes in megabytes can be counted in bytes.
pub open spec fn sizes_fit(env: Environment) -> bool {
    &&& slice_max_nursery_mb(env) * BYTES_IN_MEGABYTE <= usize::MAX
    &&& conc_mark_min_mature_mb(env) * BYTES_IN_MEGABYTE <= usize::MAX
}

/// Marking happens in slices within pauses.
pub open spec fn slices(env: Environment) -> bool {
    match env.text("MMTK_MARK_SLICED"@) {
        Some(text) => text != "0"@,
        None => true,
    }
}

/// Whether marking happens in slices within pauses, rather than beside the mutators.
pub fn marks_in_slices(env: &Environment) -> (sliced: bool)
    ensures
        sliced == slices(*env),
{
    match env.get("MMTK_MARK_SLICED") {
        Some(text) => *text != "0".to_owned(),
        None => true,
    }
}

/// The runtime may walk the slots of a nursery collection itself.
pub open spec fn oldify_on(env: Environment) -> bool {
    env.text("MMTK_UP_OLDIFY"@) == Some("1"@)
}

/// Whether the runtime may walk the slots of a nursery collection itself.
pub fn up_oldify_enabled(env: &Environment) -> (enabled: bool)
    ensures
        enabled == oldify_on(*env),
{
    match env.get("MMTK_UP_OLDIFY") {
        Some(text) => *text == "1".to_owned(),
        None => false,
    }
}

/// Objects of medium size go into the non-moving space.
pub open spec fn medium_in_freelist(env: Environment, marksweep_as_nonmoving: bool) -> bool {
    let text = env.text("MMTK_MEDIUM_TO"@);
    marksweep_as_nonmoving && (text == Some("freelist"@) || text == Some("Freelist"@) || text
        == Some("FreeList"@))
}

/// Whether objects of medium size go into the non-moving space rather than into the mature space.
/// Only a non-moving space with free lists takes them.
pub fn medium_to_freelist(env: &Environment, marksweep_as_nonmoving: bool) -> (freelist: bool)
    ensures
        freelist == medium_in_freelist(*env, marksweep_as_nonmoving),
{
    marksweep_as_nonmoving && match env.get("MMTK_MEDIUM_TO") {
        Some(text) => *text == "freelist".to_owned() || *text == "Freelist".to_owned() || *text
            == "FreeList".to_owned(),
        None => false,
    }
}

/// What each setting is, by what its name is set to. Percentages above the whole, and sizes of zero
/// where a size is needed, count as not set.
pub proof fn law_settings_of_the_plan(env: Environment, marksweep: bool, text: Seq<char>)
    ensures
        env.number_of("MMTK_COMPACT_UTIL_PCT"@) is None ==> compact_threshold(env) == 0,
        env.number_of("MMTK_COMPACT_UTIL_PCT"@) matches Some(pct) ==> compact_threshold(env) == (
        if pct <= 100 {
            pct
        } else {
            0
        }),
        env.number_of("MMTK_NURSERY_AGE"@) is None ==> age_setting(env) == 0,
        env.number_of("MMTK_NURSERY_AGE"@) matches Some(age) ==> age_setting(env) == age,
        env.number_of("MMTK_SLICE_MAX_NURSERY_MB"@) is None ==> slice_max_nursery_mb(env) == 4,
        env.number_of("MMTK_SLICE_MAX_NURSERY_MB"@) matches Some(mb) ==> slice_max_nursery_mb(env)
            == (if mb == 0 {
            4
        } else {
            mb
        }),
        env.number_of("MMTK_CONC_MARK_MIN_MATURE_MB"@) is None ==> conc_mark_min_mature_mb(env)
            == 256,
        env.number_of("MMTK_CONC_MARK_MIN_MATURE_MB"@) matches Some(mb)
            ==> conc_mark_min_mature_mb(env) == mb,
        env.text("MMTK_MARK_SLICED"@) is None ==> slices(env),
        env.text("MMTK_MARK_SLICED"@) == Some(text) ==> slices(env) == (text != "0"@),
        env.text("MMTK_UP_OLDIFY"@) is None ==> !oldify_on(env),
        env.text("MMTK_UP_OLDIFY"@) == Some(text) ==> oldify_on(env) == (text == "1"@),
        !marksweep ==> !medium_in_freelist(env, marksweep),
        env.text("MMTK_MEDIUM_TO"@) is None ==> !medium_in_freelist(env, marksweep),
        marksweep && env.text("MMTK_MEDIUM_TO"@) == Some(text) ==> medium_in_freelist(
            env,
            marksweep,
        ) == (text == "freelist"@ || text == "Freelist"@ || text == "FreeList"@),
{
}

/// Pages hold exactly the bytes of so many megabytes.
pub proof fn law_pages_hold_the_megabytes(megabytes: usize)
    ensures
        pages_in(megabytes) * BYTES_IN_PAGE == megabytes * 1048576,
{
}

} // verus!
