use vstd::prelude::*;

verus! {

/// What `str::to_lowercase` makes of `s`.
pub uninterp spec fn lower_of(s: Seq<char>) -> Seq<char>;

/// Relies on `str::to_lowercase`: the result depends on the characters of
/// `s` alone.
#[verifier::external_body]
fn lowercase(s: &str) -> (r: String)
    ensures
        r@ == lower_of(s@),
{
    s.to_lowercase()
}

/// Whether `needle` occurs in `hay` starting at `at`.
pub open spec fn occurs_at(hay: Seq<char>, needle: Seq<char>, at: int) -> bool {
    0 <= at && at + needle.len() <= hay.len() && hay.subrange(at, at + needle.len()) == needle
}

/// Whether `needle` occurs anywhere in `hay`.
pub open spec fn occurs_in(hay: Seq<char>, needle: Seq<char>) -> bool {
    exists|at: int| occurs_at(hay, needle, at)
}

/// Index of the last of `names` in which `interface` occurs, if any.
pub open spec fn last_match(names: Seq<Seq<char>>, interface: Seq<char>) -> Option<nat>
    decreases names.len(),
{
    if names.len() == 0 {
        None
    } else if occurs_in(names.last(), interface) {
        Some((names.len() - 1) as nat)
    } else {
        last_match(names.drop_last(), interface)
    }
}

/// Whether `needle` occurs in `hay`.
pub fn contains_text(hay: &str, needle: &str) -> (r: bool)
    ensures
        r == occurs_in(hay@, needle@),
{
    let h: usize = hay.unicode_len();
    let m: usize = needle.unicode_len();
    if m > h {
        assert forall|at: int| !occurs_at(hay@, needle@, at) by {}
        return false;
    }
    let mut at: usize = 0;
    while at <= h - m
        invariant
            m <= h,
            h == hay@.len(),
            m == needle@.len(),
            forall|k: int| 0 <= k < at ==> !occurs_at(hay@, needle@, k),
        decreases h - m + 1 - at,
    {
        let mut j: usize = 0;
        while j < m && hay.get_char(at + j) == needle.get_char(j)
            invariant
                m <= h,
                at <= h - m,
                h == hay@.len(),
                m == needle@.len(),
                j <= m,
                forall|i: int| 0 <= i < j ==> hay@[at + i] == needle@[i],
            decreases m - j,
        {
            j = j + 1;
        }
        if j == m {
            assert(hay@.subrange(at as int, at + m) =~= needle@);
            assert(occurs_at(hay@, needle@, at as int));
            return true;
        }
        assert(hay@.subrange(at as int, at + m)[j as int] != needle@[j as int]);
        at = at + 1;
    }
    assert forall|k: int| !occurs_at(hay@, needle@, k) by {
        if 0 <= k < at {
        }
    }
    false
}

/// The device to record from, given its names already in lower case: the
/// last one whose name holds `interface`, if any.
pub fn last_matching(lowered: &Vec<String>, interface: &str) -> (r: Option<usize>)
    ensures
        r matches Some(i) ==> last_match(lowered@.map_values(|s: String| s@), interface@)
            == Some(i as nat),
        r is None ==> last_match(lowered@.map_values(|s: String| s@), interface@) is None,
{
    let ghost names = lowered@.map_values(|s: String| s@);
    let mut k: usize = lowered.len();
    assert(names.take(k as int) =~= names);
    while k > 0
        invariant
            k <= lowered@.len(),
            names == lowered@.map_values(|s: String| s@),
            last_match(names.take(k as int), interface@) == last_match(names, interface@),
        decreases k,
    {
        let found = contains_text(lowered[k - 1].as_str(), interface);
        assert(names.take(k as int).drop_last() =~= names.take(k - 1));
        assert(names.take(k as int).last() == lowered@[k - 1]@);
        if found {
            return Some(k - 1);
        }
        k = k - 1;
    }
    None
}

/// The device to record from: the last of `names` whose lower-case form holds
/// `interface`, if any.
pub fn select_device(names: &Vec<String>, interface: &str) -> (r: Option<usize>)
    ensures
        r matches Some(i) ==> last_match(names@.map_values(|s: String| lower_of(s@)), interface@)
            == Some(i as nat),
        r is None ==> last_match(names@.map_values(|s: String| lower_of(s@)), interface@) is None,
{
    let mut lowered: Vec<String> = Vec::new();
    let mut i: usize = 0;
    while i < names.len()
        invariant
            i <= names@.len(),
            lowered@.len() == i,
            forall|j: int| 0 <= j < i ==> (#[trigger] lowered@[j])@ == lower_of(names@[j]@),
        decreases names@.len() - i,
    {
        lowered.push(lowercase(names[i].as_str()));
        i = i + 1;
    }
    let r = last_matching(&lowered, interface);
    assert(lowered@.map_values(|s: String| s@) =~= names@.map_values(|s: String| lower_of(s@)));
    r
}

} // verus!
