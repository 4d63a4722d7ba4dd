//! The grouping plan: destination folder names with the files assigned to them.
use vstd::prelude::*;

verus! {

/// One element of a group's list, as the caller received it.
#[derive(Clone, Debug)]
pub enum Item {
    Text(String),
    Other,
}

/// A group's value, as the caller received it: a list, or anything else.
#[derive(Clone, Debug)]
pub enum Entries {
    List(Vec<Item>),
    Other,
}

/// A destination folder name with the value assigned to it.
#[derive(Clone, Debug)]
pub struct Group {
    pub name: String,
    pub entries: Entries,
}

/// The elements of a group's value (none where it is not a list).
pub open spec fn items_of(e: Entries) -> Seq<Item> {
    match e {
        Entries::List(v) => v@,
        Entries::Other => seq![],
    }
}

/// A group's value is a list of strings.
pub open spec fn is_valid(e: Entries) -> bool {
    &&& e is List
    &&& forall|i: int| 0 <= i < items_of(e).len() ==> (#[trigger] items_of(e)[i]) is Text
}

/// The text of one element (empty where it is not a string).
pub open spec fn item_text(it: Item) -> Seq<char> {
    match it {
        Item::Text(s) => s@,
        Item::Other => seq![],
    }
}

/// The number of files listed over a sequence of groups: the length of
/// every value that is a list.
pub open spec fn total_of(groups: Seq<Group>) -> nat
    decreases groups.len(),
{
    if groups.len() == 0 {
        0
    } else {
        total_of(groups.drop_last()) + items_of(groups.last().entries).len()
    }
}

/// The number of files listed in the groups before group `g`.
pub open spec fn before(groups: Seq<Group>, g: int) -> nat {
    total_of(groups.take(g))
}

pub proof fn lemma_before_step(groups: Seq<Group>, g: int)
    requires
        0 <= g < groups.len(),
    ensures
        before(groups, g + 1) == before(groups, g) + items_of(groups[g].entries).len(),
{
    assert(groups.take(g + 1).drop_last() =~= groups.take(g));
}

pub proof fn lemma_before_monotone(groups: Seq<Group>, a: int, b: int)
    requires
        0 <= a <= b <= groups.len(),
    ensures
        before(groups, a) <= before(groups, b),
    decreases b - a,
{
    if a < b {
        lemma_before_step(groups, b - 1);
        lemma_before_monotone(groups, a, b - 1);
    }
}

pub proof fn lemma_before_all(groups: Seq<Group>)
    ensures
        before(groups, groups.len() as int) == total_of(groups),
{
    assert(groups.take(groups.len() as int) =~= groups);
}

/// Whether a group's value is a list of strings.
pub fn entries_valid(e: &Entries) -> (r: bool)
    ensures
        r == is_valid(*e),
{
    match e {
        Entries::List(v) => {
            let mut i: usize = 0;
            while i < v.len()
                invariant
                    i <= v.len(),
                    items_of(*e) == v@,
                    e is List,
                    forall|j: int| 0 <= j < i ==> (#[trigger] v@[j]) is Text,
                decreases v.len() - i,
            {
                if let Item::Other = &v[i] {
                    assert(items_of(*e)[i as int] is Other);
                    return false;
                }
                i = i + 1;
            }
            assert forall|j: int| 0 <= j < items_of(*e).len() implies (#[trigger] items_of(*e)[j]) is Text by {
                assert(v@[j] is Text);
            }
            true
        },
        Entries::Other => false,
    }
}

/// The number of files listed over the whole plan, or `None` where that
/// number does not fit in a `usize`.
pub fn total_files(groups: &Vec<Group>) -> (r: Option<usize>)
    ensures
        r is Some <==> total_of(groups@) <= usize::MAX,
        r matches Some(n) ==> n == total_of(groups@),
{
    let mut acc: usize = 0;
    let mut g: usize = 0;
    while g < groups.len()
        invariant
            g <= groups.len(),
            acc == before(groups@, g as int),
        decreases groups.len() - g,
    {
        proof {
            lemma_before_step(groups@, g as int);
        }
        let n: usize = match &groups[g].entries {
            Entries::List(v) => v.len(),
            Entries::Other => 0,
        };
        match acc.checked_add(n) {
            Some(s) => {
                acc = s;
            },
            None => {
                proof {
                    lemma_before_monotone(groups@, g as int + 1, groups.len() as int);
                    lemma_before_all(groups@);
                }
                return None;
            },
        }
        g = g + 1;
    }
    proof {
        lemma_before_all(groups@);
    }
    Some(acc)
}

} // verus!
