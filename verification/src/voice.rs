//! Choosing the speaking voice: the first one whose name, in lower case,
//! mentions "zira" or "female".
use vstd::prelude::*;
use crate::text::chars_of;

verus! {

/// What `str::to_lowercase` gives for a text: its full Unicode lower-case
/// mapping.
pub uninterp spec fn lowercase(s: Seq<char>) -> Seq<char>;

/// `str::to_lowercase`. The contract claims only that the result is a
/// function of the argument (`lowercase`); the Unicode case tables are
/// not written out here.
#[verifier::external_body]
fn to_lowercase(s: &str) -> (r: String)
    ensures
        r@ == lowercase(s@),
{
    s.to_lowercase()
}

/// `needle` occurs somewhere in `hay`.
pub open spec fn occurs_in(needle: Seq<char>, hay: Seq<char>) -> bool {
    exists|i: int|
        0 <= i && i + needle.len() <= hay.len() && #[trigger] hay.subrange(i, i + needle.len())
            == needle
}

/// Whether `needle` occurs in `hay` starting at `at`.
fn occurs_at(hay: &Vec<char>, needle: &Vec<char>, at: usize) -> (r: bool)
    requires
        at + needle@.len() <= hay@.len(),
    ensures
        r == (hay@.subrange(at as int, at + needle@.len()) == needle@),
{
    let n: usize = hay.len();
    let mut k: usize = 0;
    while k < needle.len()
        invariant
            n == hay@.len(),
            at + needle@.len() <= hay@.len(),
            k <= needle@.len(),
            forall|j: int| 0 <= j < k ==> hay@[at + j] == #[trigger] needle@[j],
        decreases needle.len() - k,
    {
        if hay[at + k] != needle[k] {
            assert(hay@.subrange(at as int, at + needle@.len())[k as int] != needle@[k as int]);
            return false;
        }
        k += 1;
    }
    assert(hay@.subrange(at as int, at + needle@.len()) =~= needle@);
    true
}

/// Whether `needle` occurs anywhere in `hay`.
pub fn contains_chars(hay: &Vec<char>, needle: &Vec<char>) -> (r: bool)
    ensures
        r == occurs_in(needle@, hay@),
{
    if needle.len() > hay.len() {
        return false;
    }
    let last = hay.len() - needle.len();
    let mut i: usize = 0;
    loop
        invariant
            last + needle@.len() == hay@.len(),
            i <= last,
            forall|j: int|
                0 <= j < i ==> #[trigger] hay@.subrange(j, j + needle@.len()) != needle@,
        decreases last - i,
    {
        if occurs_at(hay, needle, i) {
            return true;
        }
        if i == last {
            return false;
        }
        i += 1;
    }
}

/// A voice is preferred when its lower-cased name mentions "zira" or
/// "female".
pub open spec fn voice_is_preferred(lowered_name: Seq<char>) -> bool {
    occurs_in("zira"@, lowered_name) || occurs_in("female"@, lowered_name)
}

/// `r` is the index of the first preferred name, or `None` when no name is
/// preferred.
pub open spec fn first_preferred(names: Seq<Seq<char>>, r: Option<usize>) -> bool {
    match r {
        Some(i) => i < names.len() && voice_is_preferred(names[i as int]) && forall|j: int|
            0 <= j < i ==> !voice_is_preferred(#[trigger] names[j]),
        None => forall|j: int| 0 <= j < names.len() ==> !voice_is_preferred(#[trigger] names[j]),
    }
}

/// The views of a list of strings.
pub open spec fn views(v: Seq<String>) -> Seq<Seq<char>> {
    Seq::new(v.len(), |i: int| v[i]@)
}

/// The lower-cased names of a list of strings.
pub open spec fn lowercased(v: Seq<String>) -> Seq<Seq<char>> {
    Seq::new(v.len(), |i: int| lowercase(v[i]@))
}

/// The choice is made on the needles "zira" and "female" and nothing else:
/// a chosen name mentions one of them, no earlier name mentions either, and
/// no choice means no name mentions either.
pub proof fn lemma_first_preferred_mentions(names: Seq<Seq<char>>, r: Option<usize>)
    requires
        first_preferred(names, r),
    ensures
        r matches Some(i) ==> i < names.len() && (occurs_in("zira"@, names[i as int]) || occurs_in(
            "female"@,
            names[i as int],
        )),
        r matches Some(i) ==> forall|j: int|
            0 <= j < i ==> !occurs_in("zira"@, #[trigger] names[j]) && !occurs_in(
                "female"@,
                names[j],
            ),
        r is None ==> forall|j: int|
            0 <= j < names.len() ==> !occurs_in("zira"@, #[trigger] names[j]) && !occurs_in(
                "female"@,
                names[j],
            ),
{
}

/// A needle occurs in any text that holds it between two other pieces, and
/// never in a text shorter than itself.
pub proof fn lemma_occurs_in(needle: Seq<char>, a: Seq<char>, b: Seq<char>)
    ensures
        occurs_in(needle, a + needle + b),
        needle.len() > a.len() ==> !occurs_in(needle, a),
{
    let h = a + needle + b;
    assert(h.subrange(a.len() as int, (a.len() + needle.len()) as int) =~= needle);
}

/// Index of the first already lower-cased voice name that is preferred.
pub fn preferred_voice(lowered_names: &Vec<String>) -> (r: Option<usize>)
    ensures
        first_preferred(views(lowered_names@), r),
        r matches Some(i) ==> i < lowered_names@.len() && (occurs_in(
            "zira"@,
            lowered_names@[i as int]@,
        ) || occurs_in("female"@, lowered_names@[i as int]@)),
        r matches Some(i) ==> forall|j: int|
            0 <= j < i ==> !occurs_in("zira"@, (#[trigger] lowered_names@[j])@) && !occurs_in(
                "female"@,
                lowered_names@[j]@,
            ),
        r is None ==> forall|j: int|
            0 <= j < lowered_names@.len() ==> !occurs_in("zira"@, (#[trigger] lowered_names@[j])@)
                && !occurs_in("female"@, lowered_names@[j]@),
{
    let zira = chars_of("zira");
    let female = chars_of("female");
    let mut i: usize = 0;
    let mut found: Option<usize> = None;
    while i < lowered_names.len() && found.is_none()
        invariant
            zira@ == "zira"@,
            female@ == "female"@,
            i <= lowered_names@.len(),
            found is None ==> forall|j: int|
                0 <= j < i ==> !voice_is_preferred(#[trigger] views(lowered_names@)[j]),
            found matches Some(k) ==> k < lowered_names@.len() && voice_is_preferred(
                views(lowered_names@)[k as int],
            ) && forall|j: int|
                0 <= j < k ==> !voice_is_preferred(#[trigger] views(lowered_names@)[j]),
        decreases lowered_names.len() - i,
    {
        let name = chars_of(lowered_names[i].as_str());
        assert(views(lowered_names@)[i as int] == lowered_names@[i as int]@);
        if contains_chars(&name, &zira) || contains_chars(&name, &female) {
            found = Some(i);
        }
        i += 1;
    }
    proof {
        let v = views(lowered_names@);
        assert(first_preferred(v, found));
        lemma_first_preferred_mentions(v, found);
        let bound: int = match found {
            Some(k) => k as int,
            None => lowered_names@.len() as int,
        };
        assert forall|j: int| 0 <= j < bound implies !occurs_in(
            "zira"@,
            (#[trigger] lowered_names@[j])@,
        ) && !occurs_in("female"@, lowered_names@[j]@) by {
            assert(v[j] == lowered_names@[j]@);
        }
        if let Some(k) = found {
            assert(v[k as int] == lowered_names@[k as int]@);
        }
    }
    found
}

/// Index of the first voice whose lower-cased name mentions "zira" or
/// "female", or `None` when there is none.
pub fn pick_voice(names: &Vec<String>) -> (r: Option<usize>)
    ensures
        first_preferred(lowercased(names@), r),
        r matches Some(i) ==> i < names@.len() && (occurs_in("zira"@, lowercase(names@[i as int]@))
            || occurs_in("female"@, lowercase(names@[i as int]@))),
        r matches Some(i) ==> forall|j: int|
            0 <= j < i ==> !occurs_in("zira"@, lowercase((#[trigger] names@[j])@)) && !occurs_in(
                "female"@,
                lowercase(names@[j]@),
            ),
        r is None ==> forall|j: int|
            0 <= j < names@.len() ==> !occurs_in("zira"@, lowercase((#[trigger] names@[j])@))
                && !occurs_in("female"@, lowercase(names@[j]@)),
{
    let mut lowered: Vec<String> = Vec::new();
    let mut i: usize = 0;
    while i < names.len()
        invariant
            i <= names@.len(),
            lowered@.len() == i,
            forall|j: int| 0 <= j < i ==> #[trigger] lowered@[j]@ == lowercase(names@[j]@),
        decreases names.len() - i,
    {
        lowered.push(to_lowercase(names[i].as_str()));
        i += 1;
    }
    let r = preferred_voice(&lowered);
    assert(views(lowered@) =~= lowercased(names@));
    proof {
        let v = lowercased(names@);
        lemma_first_preferred_mentions(v, r);
        let bound: int = match r {
            Some(k) => k as int,
            None => names@.len() as int,
        };
        assert forall|j: int| 0 <= j < bound implies !occurs_in(
            "zira"@,
            lowercase((#[trigger] names@[j])@),
        ) && !occurs_in("female"@, lowercase(names@[j]@)) by {
            assert(v[j] == lowercase(names@[j]@));
        }
        if let Some(k) = r {
            assert(v[k as int] == lowercase(names@[k as int]@));
        }
    }
    r
}

} // verus!
