//! The shared-memory mappings that the game may have opened.

use vstd::prelude::*;
use vstd::string::*;

verus! {

/// How many mappings are known.
pub const SHM_COUNT: usize = 6;

/// Which mapping holds the physics of the newer game.
pub const NEWER_PHYSICS: usize = 0;

/// Which mapping holds the physics of the older game.
pub const OLDER_PHYSICS: usize = 3;

/// The name of a mapping, as it is shown and logged. The mappings of the newer game come
/// first.
pub open spec fn shm_label(i: int) -> Seq<char> {
    if i == 0 {
        "Local\\acevo_pmf_physics"@
    } else if i == 1 {
        "Local\\acevo_pmf_graphics"@
    } else if i == 2 {
        "Local\\acevo_pmf_static"@
    } else if i == 3 {
        "Local\\acpmf_physics"@
    } else if i == 4 {
        "Local\\acpmf_graphics"@
    } else {
        "Local\\acpmf_static"@
    }
}

/// The name of a mapping as the operating system wants it, closed by a NUL.
pub open spec fn shm_name(i: int) -> Seq<char> {
    shm_label(i).push('\0')
}

/// The bytes of a text in which every character is ASCII.
pub open spec fn ascii_bytes(text: Seq<char>) -> Seq<u8> {
    Seq::new(text.len(), |i: int| text[i] as u8)
}

/// The label is that of a mapping that is known.
pub open spec fn is_known(label: Seq<char>) -> bool {
    exists|i: int| 0 <= i < SHM_COUNT && #[trigger] shm_label(i) == label
}

/// The name, as bytes closed by a NUL, of the mapping with the label.
pub open spec fn name_of(label: Seq<char>) -> Option<Seq<u8>> {
    if is_known(label) {
        Some(ascii_bytes(label.push('\0')))
    } else {
        None
    }
}

/// A text without the NULs that close it.
pub open spec fn without_nuls(text: Seq<char>) -> Seq<char>
    decreases text.len(),
{
    if text.len() > 0 && text.last() == '\0' {
        without_nuls(text.drop_last())
    } else {
        text
    }
}

/// The name of a mapping, closed by a NUL.
pub fn shm_name_at(i: usize) -> (name: &'static str)
    requires
        i < SHM_COUNT,
    ensures
        name@ == shm_name(i as int),
        name.is_ascii(),
{
    proof {
        reveal_strlit("Local\\acevo_pmf_physics");
        reveal_strlit("Local\\acevo_pmf_graphics");
        reveal_strlit("Local\\acevo_pmf_static");
        reveal_strlit("Local\\acpmf_physics");
        reveal_strlit("Local\\acpmf_graphics");
        reveal_strlit("Local\\acpmf_static");
        reveal_strlit("Local\\acevo_pmf_physics\0");
        reveal_strlit("Local\\acevo_pmf_graphics\0");
        reveal_strlit("Local\\acevo_pmf_static\0");
        reveal_strlit("Local\\acpmf_physics\0");
        reveal_strlit("Local\\acpmf_graphics\0");
        reveal_strlit("Local\\acpmf_static\0");
    }
    let name: &'static str = if i == 0 {
        "Local\\acevo_pmf_physics\0"
    } else if i == 1 {
        "Local\\acevo_pmf_graphics\0"
    } else if i == 2 {
        "Local\\acevo_pmf_static\0"
    } else if i == 3 {
        "Local\\acpmf_physics\0"
    } else if i == 4 {
        "Local\\acpmf_graphics\0"
    } else {
        "Local\\acpmf_static\0"
    };
    assert(name@ =~= shm_name(i as int));
    name
}

/// The labels end in a letter.
proof fn lemma_label_bare(i: int)
    requires
        0 <= i < SHM_COUNT,
    ensures
        without_nuls(shm_name(i)) == shm_label(i),
{
    reveal_strlit("Local\\acevo_pmf_physics");
    reveal_strlit("Local\\acevo_pmf_graphics");
    reveal_strlit("Local\\acevo_pmf_static");
    reveal_strlit("Local\\acpmf_physics");
    reveal_strlit("Local\\acpmf_graphics");
    reveal_strlit("Local\\acpmf_static");
    reveal_with_fuel(without_nuls, 2);
    assert(shm_name(i).drop_last() =~= shm_label(i));
}

/// No two mappings share a label.
pub proof fn law_labels_distinct(i: int, j: int)
    requires
        0 <= i < SHM_COUNT,
        0 <= j < SHM_COUNT,
        shm_label(i) == shm_label(j),
    ensures
        i == j,
{
    reveal_strlit("Local\\acevo_pmf_physics");
    reveal_strlit("Local\\acevo_pmf_graphics");
    reveal_strlit("Local\\acevo_pmf_static");
    reveal_strlit("Local\\acpmf_physics");
    reveal_strlit("Local\\acpmf_graphics");
    reveal_strlit("Local\\acpmf_static");
    assert(shm_label(0).len() == 23 && shm_label(1).len() == 24 && shm_label(2).len() == 22);
    assert(shm_label(3).len() == 19 && shm_label(4).len() == 20 && shm_label(5).len() == 18);
}

/// The physics are read from the mappings whose labels say so.
pub proof fn law_physics_labels()
    ensures
        NEWER_PHYSICS < SHM_COUNT,
        OLDER_PHYSICS < SHM_COUNT,
        shm_label(NEWER_PHYSICS as int) == "Local\\acevo_pmf_physics"@,
        shm_label(OLDER_PHYSICS as int) == "Local\\acpmf_physics"@,
{
}

/// A text without the NULs that close it.
fn trim_end_nuls<'a>(text: &'a str) -> (r: &'a str)
    requires
        text.is_ascii(),
    ensures
        r@ == without_nuls(text@),
{
    let mut end: usize = text.unicode_len();
    assert(text@.take(end as int) =~= text@);
    while end > 0 && text.get_char(end - 1) == '\0'
        invariant
            end <= text@.len(),
            without_nuls(text@) == without_nuls(text@.take(end as int)),
        decreases end,
    {
        assert(text@.take(end as int).drop_last() =~= text@.take(end - 1));
        end = end - 1;
    }
    assert(text@.take(end as int) =~= text@.subrange(0, end as int));
    text.substring_ascii(0, end)
}

/// The label of a mapping.
pub fn shm_label_at(i: usize) -> (label: &'static str)
    requires
        i < SHM_COUNT,
    ensures
        label@ == shm_label(i as int),
{
    proof {
        lemma_label_bare(i as int);
    }
    trim_end_nuls(shm_name_at(i))
}

/// The name, as bytes closed by a NUL, of the mapping whose label is `active_name`.
pub fn find_name_bytes(active_name: &str) -> (name: Option<&'static [u8]>)
    ensures
        name matches Some(bytes) ==> exists|i: int|
            #![trigger shm_label(i)]
            0 <= i < SHM_COUNT && shm_label(i) == active_name@ && bytes@ == ascii_bytes(shm_name(i)),
        name is None <==> forall|i: int|
            #![trigger shm_label(i)]
            0 <= i < SHM_COUNT ==> shm_label(i) != active_name@,
        match name {
            Some(bytes) => Some(bytes@),
            None => None,
        } == name_of(active_name@),
{
    let wanted: String = active_name.to_owned();
    let mut i: usize = 0;
    while i < SHM_COUNT
        invariant
            i <= SHM_COUNT,
            wanted@ == active_name@,
            forall|j: int| #![trigger shm_label(j)] 0 <= j < i ==> shm_label(j) != active_name@,
        decreases SHM_COUNT - i,
    {
        let label: String = shm_label_at(i).to_owned();
        if label == wanted {
            let name: &'static str = shm_name_at(i);
            assert(shm_label(i as int) == active_name@);
            assert(name.spec_bytes() =~= ascii_bytes(shm_name(i as int)));
            return Some(name.as_bytes());
        }
        i = i + 1;
    }
    None
}

} // verus!
