//! Which entries of a directory are offered for sorting.
use vstd::prelude::*;
use vstd::string::*;

verus! {

/// One entry read from a directory: its name, its size in bytes, and
/// whether it is a regular file.
pub struct Found {
    pub name: String,
    pub size: u64,
    pub is_file: bool,
}

/// A name that starts with a dot.
pub open spec fn is_hidden(name: Seq<char>) -> bool {
    name.len() > 0 && name[0] == '.'
}

/// An entry is listed when it is a regular file whose name does not start
/// with a dot.
pub open spec fn is_listed(e: Found) -> bool {
    e.is_file && !is_hidden(e.name@)
}

/// The listed entries, in the order found, as (name, size).
pub open spec fn listing_of(s: Seq<Found>) -> Seq<(Seq<char>, u64)>
    decreases s.len(),
{
    if s.len() == 0 {
        seq![]
    } else {
        let rest = listing_of(s.drop_last());
        if is_listed(s.last()) {
            rest.push((s.last().name@, s.last().size))
        } else {
            rest
        }
    }
}

pub open spec fn pairs_view(r: Seq<(String, u64)>) -> Seq<(Seq<char>, u64)> {
    r.map_values(|p: (String, u64)| (p.0@, p.1))
}

/// Whether a name starts with a dot.
pub fn hidden(name: &str) -> (r: bool)
    ensures
        r == is_hidden(name@),
{
    name.unicode_len() > 0 && name.get_char(0) == '.'
}

/// The regular, non-hidden files among the entries of a directory, with
/// their sizes, in the order found.
pub fn list_files(found: &Vec<Found>) -> (r: Vec<(String, u64)>)
    ensures
        pairs_view(r@) == listing_of(found@),
{
    let mut out: Vec<(String, u64)> = Vec::new();
    let mut i: usize = 0;
    while i < found.len()
        invariant
            i <= found.len(),
            pairs_view(out@) == listing_of(found@.take(i as int)),
        decreases found.len() - i,
    {
        let e = &found[i];
        assert(found@.take(i as int + 1).drop_last() =~= found@.take(i as int));
        assert(found@.take(i as int + 1).last() == found@[i as int]);
        if e.is_file && !hidden(e.name.as_str()) {
            let ghost before = out@;
            out.push((e.name.clone(), e.size));
            assert(pairs_view(out@) =~= pairs_view(before).push((e.name@, e.size)));
        }
        i = i + 1;
    }
    assert(found@.take(found@.len() as int) =~= found@);
    out
}

} // verus!
