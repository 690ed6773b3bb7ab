//! Choosing an audio device by its name.
use vstd::prelude::*;
use vstd::string::*;

verus! {

/// The system loopback device that is captured.
pub const CAPTURE_DEVICE: &'static str = "BlackHole";

/// The device that plays the right channel.
pub const SPEAKER_DEVICE: &'static str = "MacBook Pro Speakers";

/// `part` occurs in `s` at place `at`.
pub open spec fn occurs_at(s: Seq<char>, part: Seq<char>, at: int) -> bool {
    0 <= at <= s.len() - part.len() && s.subrange(at, at + part.len()) == part
}

/// `part` occurs in `s`.
pub open spec fn occurs(s: Seq<char>, part: Seq<char>) -> bool {
    exists|at: int| occurs_at(s, part, at)
}

/// A device whose name is known and holds `part`. A device without a name never
/// fits.
pub open spec fn fits(name: Option<String>, part: Seq<char>) -> bool {
    name matches Some(n) && occurs(n@, part)
}

/// Whether `part` occurs in `s`.
pub fn contains(s: &str, part: &str) -> (r: bool)
    ensures
        r == occurs(s@, part@),
{
    let n: usize = s.unicode_len();
    let m: usize = part.unicode_len();
    if m > n {
        return false;
    }
    let mut at: usize = 0;
    while at <= n - m
        invariant
            n == s@.len(),
            m == part@.len(),
            m <= n,
            at <= n - m + 1,
            forall|k: int| 0 <= k < at ==> !occurs_at(s@, part@, k),
        decreases n - m + 1 - at,
    {
        let mut i: usize = 0;
        while i < m && s.get_char(at + i) == part.get_char(i)
            invariant
                n == s@.len(),
                m == part@.len(),
                m <= n,
                at <= n - m,
                i <= m,
                forall|k: int| 0 <= k < i ==> s@[at + k] == part@[k],
            decreases m - i,
        {
            i = i + 1;
        }
        if i == m {
            assert(s@.subrange(at as int, at + m) =~= part@);
            assert(occurs_at(s@, part@, at as int));
            return true;
        }
        proof {
            if occurs_at(s@, part@, at as int) {
                assert(s@.subrange(at as int, at + m)[i as int] == part@[i as int]);
            }
        }
        at = at + 1;
    }
    false
}

/// The first device whose name holds `part`.
pub fn find_device(names: &Vec<Option<String>>, part: &str) -> (r: Option<usize>)
    ensures
        match r {
            Some(i) => i < names@.len() && fits(names@[i as int], part@) && forall|k: int|
                0 <= k < i ==> !fits(#[trigger] names@[k], part@),
            None => forall|k: int| 0 <= k < names@.len() ==> !fits(#[trigger] names@[k], part@),
        },
{
    let mut i: usize = 0;
    while i < names.len()
        invariant
            i <= names@.len(),
            forall|k: int| 0 <= k < i ==> !fits(#[trigger] names@[k], part@),
        decreases names@.len() - i,
    {
        if let Some(name) = &names[i] {
            if contains(name.as_str(), part) {
                return Some(i);
            }
        }
        i = i + 1;
    }
    None
}

/// A part is found wherever it stands, whatever is before and behind it.
pub proof fn part_is_found_anywhere(before: Seq<char>, part: Seq<char>, behind: Seq<char>)
    ensures
        occurs(before + part + behind, part),
{
    let s = before + part + behind;
    let at: int = before.len() as int;
    assert(s.subrange(at, at + part.len()) =~= part);
    assert(occurs_at(s, part, at));
}

/// Where a part is found, the text is something before it, the part, and something
/// behind it.
pub proof fn found_part_splits_the_text(s: Seq<char>, part: Seq<char>) -> (at: int)
    requires
        occurs(s, part),
    ensures
        0 <= at <= s.len() - part.len(),
        s == s.take(at) + part + s.skip(at + part.len()),
{
    let at = choose|at: int| occurs_at(s, part, at);
    assert forall|i: int| 0 <= i < part.len() implies s[at + i] == part[i] by {
        assert(s.subrange(at, at + part.len())[i] == part[i]);
    }
    assert(s =~= s.take(at) + part + s.skip(at + part.len()));
    at
}

/// A device fits by its name alone, and one without a name never does.
pub proof fn device_fits_by_its_name(name: Option<String>, part: Seq<char>)
    ensures
        name is None ==> !fits(name, part),
        name matches Some(n) ==> (fits(name, part) <==> occurs(n@, part)),
{
}

/// The capture device and the speakers are found under any name that holds theirs.
pub proof fn known_devices_are_found(before: Seq<char>, behind: Seq<char>)
    ensures
        occurs(before + "BlackHole"@ + behind, CAPTURE_DEVICE@),
        occurs(before + "MacBook Pro Speakers"@ + behind, SPEAKER_DEVICE@),
        CAPTURE_DEVICE@ == "BlackHole"@,
        SPEAKER_DEVICE@ == "MacBook Pro Speakers"@,
{
    part_is_found_anywhere(before, CAPTURE_DEVICE@, behind);
    part_is_found_anywhere(before, SPEAKER_DEVICE@, behind);
}

} // verus!
